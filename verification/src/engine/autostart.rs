//! Starting the receiver automatically at logon.
//!
//! Command-line quoting is the part worth proving: a path with a space in it
//! would silently register as two arguments, and the entry would do nothing.

use vstd::prelude::*;

use crate::text::{self, texts};

verus! {

/// The value name written under the registry's `Run` key.
pub const ENTRY_NAME: &'static str = "micbridge";

/// What this program was built for.
#[derive(Debug, Clone, Copy, PartialEq, Eq, Structural)]
pub enum Platform {
    Windows,
    Other,
}

/// What is currently registered.
#[derive(Debug, PartialEq, Eq)]
pub struct Status {
    /// False on platforms with no implementation.
    pub supported: bool,
    pub enabled: bool,
    /// The exact command line registered, if any.
    pub command: Option<String>,
    /// An entry exists but does not point at this executable.
    pub stale: bool,
}

/// `n` backslashes.
pub open spec fn slashes(n: nat) -> Seq<char> {
    Seq::new(n, |i: int| '\\')
}

/// The argument has to stand in quotes: it is empty, or holds a space, a tab or
/// a quote.
pub open spec fn needs_quotes(arg: Seq<char>) -> bool {
    arg.len() == 0 || exists|i: int|
        0 <= i < arg.len() && (#[trigger] arg[i] == ' ' || arg[i] == '\t' || arg[i] == '"')
}

/// What stands between the quotes, `pending` backslashes having come before.
/// Backslashes are literal except before a quote, where they are doubled.
pub open spec fn escaped(arg: Seq<char>, pending: nat) -> Seq<char>
    decreases arg.len(),
{
    if arg.len() == 0 {
        slashes(2 * pending)
    } else if arg[0] == '\\' {
        escaped(arg.skip(1), pending + 1)
    } else if arg[0] == '"' {
        slashes(2 * pending + 1) + seq!['"'] + escaped(arg.skip(1), 0)
    } else {
        slashes(pending) + seq![arg[0]] + escaped(arg.skip(1), 0)
    }
}

/// One argument as it stands on a command line.
pub open spec fn quoted_arg(arg: Seq<char>) -> Seq<char> {
    if needs_quotes(arg) {
        seq!['"'] + escaped(arg, 0) + seq!['"']
    } else {
        arg
    }
}

/// A command line: the executable and its arguments, each quoted where needed.
pub open spec fn joined(exe: Seq<char>, args: Seq<Seq<char>>) -> Seq<char>
    decreases args.len(),
{
    if args.len() == 0 {
        quoted_arg(exe)
    } else {
        joined(exe, args.drop_last()) + seq![' '] + quoted_arg(args.last())
    }
}

fn push_slashes(out: &mut String, n: usize)
    ensures
        final(out)@ == old(out)@ + slashes(n as nat),
{
    let mut i: usize = 0;
    assert(slashes(0) =~= Seq::<char>::empty());
    while i < n
        invariant
            i <= n,
            out@ =~= old(out)@ + slashes(i as nat),
        decreases n - i,
    {
        out.push('\\');
        i = i + 1;
    }
}

/// Quotes one argument for a Windows command line.
pub fn quote_arg(arg: &str) -> (out: String)
    ensures
        out@ == quoted_arg(arg@),
{
    let chars = text::chars_of(arg);
    let mut special = chars.len() == 0;
    let mut k: usize = 0;
    while k < chars.len()
        invariant
            k <= chars@.len(),
            special == (chars@.len() == 0 || exists|i: int|
                0 <= i < k && (#[trigger] chars@[i] == ' ' || chars@[i] == '\t' || chars@[i]
                    == '"')),
        decreases chars@.len() - k,
    {
        if chars[k] == ' ' || chars[k] == '\t' || chars[k] == '"' {
            special = true;
        }
        k = k + 1;
    }
    if !special {
        return arg.to_owned();
    }
    let mut out = String::new();
    out.push('"');
    let mut pending: usize = 0;
    let mut at: usize = 0;
    assert(chars@.skip(0) =~= chars@);
    while at < chars.len()
        invariant
            at <= chars@.len(),
            chars@ == arg@,
            pending <= at,
            seq!['"'] + escaped(arg@, 0) =~= out@ + escaped(chars@.skip(at as int), pending as nat),
        decreases chars@.len() - at,
    {
        let c = chars[at];
        let ghost rest = chars@.skip(at as int);
        assert(rest.skip(1) =~= chars@.skip(at + 1));
        if c == '\\' {
            pending = pending + 1;
        } else if c == '"' {
            push_slashes(&mut out, pending);
            push_slashes(&mut out, pending);
            out.push('\\');
            assert(slashes(pending as nat) + slashes(pending as nat) + seq!['\\'] =~= slashes(
                2 * pending as nat + 1,
            ));
            out.push('"');
            pending = 0;
        } else {
            push_slashes(&mut out, pending);
            out.push(c);
            pending = 0;
        }
        at = at + 1;
    }
    assert(chars@.skip(at as int) =~= Seq::<char>::empty());
    push_slashes(&mut out, pending);
    push_slashes(&mut out, pending);
    assert(slashes(pending as nat) + slashes(pending as nat) =~= slashes(2 * pending as nat));
    out.push('"');
    assert(out@ =~= quoted_arg(arg@));
    out
}

/// The command line that would be registered: an executable plus `args`.
pub fn command_line_for(exe: &str, args: &[String]) -> (line: String)
    ensures
        line@ == joined(exe@, texts(args@)),
{
    let mut line = quote_arg(exe);
    let mut i: usize = 0;
    assert(texts(args@).take(0) =~= Seq::<Seq<char>>::empty());
    while i < args.len()
        invariant
            i <= args@.len(),
            line@ == joined(exe@, texts(args@).take(i as int)),
        decreases args@.len() - i,
    {
        let ghost done = texts(args@).take(i + 1);
        assert(done.drop_last() =~= texts(args@).take(i as int));
        line.push(' ');
        let arg = quote_arg(args[i].as_str());
        line.append(arg.as_str());
        assert(line@ =~= joined(exe@, done));
        i = i + 1;
    }
    assert(texts(args@).take(i as int) =~= texts(args@));
    line
}

/// True where autostart can actually be configured.
pub fn supported(platform: Platform) -> (yes: bool)
    ensures
        yes == (platform == Platform::Windows),
{
    platform == Platform::Windows
}

/// What is registered, `command` being the entry there is and `exe` the path of
/// the running executable where that is known.
///
/// An entry that does not name the executable, the case of letters aside, is
/// stale: the program was moved, and the entry would fail silently at logon.
pub fn status(platform: Platform, command: Option<String>, exe: Option<&str>) -> (status: Status)
    ensures
        platform == Platform::Other ==> status == (Status {
            supported: false,
            enabled: false,
            command: None,
            stale: false,
        }),
        platform == Platform::Windows ==> {
            &&& status.supported
            &&& status.enabled == (command is Some)
            &&& status.command == command
            &&& status.stale == match (command, exe) {
                (Some(c), Some(e)) => !text::inside_any_case(e@, c@),
                _ => false,
            }
        },
{
    if platform == Platform::Other {
        return Status { supported: false, enabled: false, command: None, stale: false };
    }
    let stale = match (&command, exe) {
        (Some(c), Some(e)) => !text::is_inside_any_case(e, c.as_str()),
        _ => false,
    };
    Status { supported: true, enabled: command.is_some(), command, stale }
}

/// What a platform without autostart says.
pub open spec fn not_here() -> Seq<char> {
    "autostart is only implemented for Windows"@
}

/// The command line to register for `exe` with `args`, where there is anywhere
/// to register it.
pub fn enable(platform: Platform, exe: &str, args: &[String]) -> (r: Result<String, String>)
    ensures
        platform == Platform::Windows ==> (r matches Ok(line) && line@ == joined(
            exe@,
            texts(args@),
        )),
        platform == Platform::Other ==> (r matches Err(message) && message@ == not_here()),
{
    if platform == Platform::Other {
        return Err("autostart is only implemented for Windows".to_owned());
    }
    Ok(command_line_for(exe, args))
}

/// Whether there is anywhere an entry could be removed from.
pub fn disable(platform: Platform) -> (r: Result<(), String>)
    ensures
        platform == Platform::Windows ==> r is Ok,
        platform == Platform::Other ==> (r matches Err(message) && message@ == not_here()),
{
    if platform == Platform::Other {
        return Err("autostart is only implemented for Windows".to_owned());
    }
    Ok(())
}

/// How Windows reads one argument from a command line: what the argument is, and
/// what is left of the line. `inside` is whether a quote is open, and `pending`
/// the backslashes that came just before.
///
/// A run of backslashes is literal unless a quote follows it. Then half of them
/// are, and the quote opens or closes where their number is even and is literal
/// where it is odd. Outside quotes a space or a tab ends the argument.
pub open spec fn read_arg(line: Seq<char>, inside: bool, pending: nat) -> (Seq<char>, Seq<char>)
    decreases line.len(),
{
    if line.len() == 0 {
        (slashes(pending), line)
    } else if line[0] == '\\' {
        read_arg(line.skip(1), inside, pending + 1)
    } else if line[0] == '"' {
        if pending % 2 == 0 {
            let (arg, rest) = read_arg(line.skip(1), !inside, 0);
            (slashes(pending / 2) + arg, rest)
        } else {
            let (arg, rest) = read_arg(line.skip(1), inside, 0);
            (slashes(pending / 2) + seq!['"'] + arg, rest)
        }
    } else if !inside && (line[0] == ' ' || line[0] == '\t') {
        (slashes(pending), line)
    } else {
        let (arg, rest) = read_arg(line.skip(1), inside, 0);
        (slashes(pending) + seq![line[0]] + arg, rest)
    }
}

/// A line is at an end, or at a space or a tab.
pub open spec fn at_break(line: Seq<char>) -> bool {
    line.len() == 0 || line[0] == ' ' || line[0] == '\t'
}

/// Backslashes in front of what is read are pending.
proof fn read_slashes(n: nat, line: Seq<char>, inside: bool, pending: nat)
    ensures
        read_arg(slashes(n) + line, inside, pending) == read_arg(line, inside, pending + n),
    decreases n,
{
    if n == 0 {
        assert(slashes(0) + line =~= line);
    } else {
        let whole = slashes(n) + line;
        assert(whole.skip(1) =~= slashes((n - 1) as nat) + line);
        read_slashes((n - 1) as nat, line, inside, pending + 1);
    }
}

/// What stands between the quotes reads as the argument.
proof fn escaped_reads_back(arg: Seq<char>, pending: nat, rest: Seq<char>)
    requires
        at_break(rest),
    ensures
        read_arg(escaped(arg, pending) + seq!['"'] + rest, true, 0) == (
            slashes(pending) + arg,
            rest,
        ),
    decreases arg.len(),
{
    let end = seq!['"'] + rest;
    let whole = escaped(arg, pending) + seq!['"'] + rest;
    assert(slashes(0) =~= Seq::<char>::empty());
    if arg.len() == 0 {
        assert(whole =~= slashes(2 * pending) + end);
        read_slashes(2 * pending, end, true, 0);
        assert(end.skip(1) =~= rest);
        assert(read_arg(rest, false, 0) == (slashes(0), rest));
        assert(slashes(pending) + slashes(0) =~= slashes(pending) + arg);
    } else {
        let tail = arg.skip(1);
        if arg[0] == '\\' {
            escaped_reads_back(tail, pending + 1, rest);
            assert(slashes(pending + 1) + tail =~= slashes(pending) + arg);
        } else if arg[0] == '"' {
            escaped_reads_back(tail, 0, rest);
            let inner = escaped(tail, 0) + seq!['"'] + rest;
            assert(whole =~= slashes(2 * pending + 1) + (seq!['"'] + inner));
            read_slashes(2 * pending + 1, seq!['"'] + inner, true, 0);
            assert((seq!['"'] + inner).skip(1) =~= inner);
            assert(slashes(0) + tail =~= tail);
            assert(slashes(pending) + seq!['"'] + tail =~= slashes(pending) + arg);
        } else {
            escaped_reads_back(tail, 0, rest);
            let inner = escaped(tail, 0) + seq!['"'] + rest;
            assert(whole =~= slashes(pending) + (seq![arg[0]] + inner));
            read_slashes(pending, seq![arg[0]] + inner, true, 0);
            assert((seq![arg[0]] + inner).skip(1) =~= inner);
            assert(slashes(0) + tail =~= tail);
            assert(slashes(pending) + seq![arg[0]] + tail =~= slashes(pending) + arg);
        }
    }
}

/// An argument that needs no quotes reads as itself.
proof fn plain_reads_back(arg: Seq<char>, pending: nat, rest: Seq<char>)
    requires
        at_break(rest),
        arg.len() == 0 || !needs_quotes(arg),
    ensures
        read_arg(arg + rest, false, pending) == (slashes(pending) + arg, rest),
    decreases arg.len(),
{
    if arg.len() == 0 {
        assert(arg + rest =~= rest);
        assert(slashes(pending) + arg =~= slashes(pending));
    } else {
        let tail = arg.skip(1);
        assert(arg[0] != ' ' && arg[0] != '\t' && arg[0] != '"');
        assert forall|i: int| 0 <= i < tail.len() implies #[trigger] tail[i] != ' ' && tail[i]
            != '\t' && tail[i] != '"' by {
            assert(tail[i] == arg[i + 1]);
        }
        assert((arg + rest).skip(1) =~= tail + rest);
        if arg[0] == '\\' {
            plain_reads_back(tail, pending + 1, rest);
            assert(slashes(pending + 1) + tail =~= slashes(pending) + arg);
        } else {
            plain_reads_back(tail, 0, rest);
            assert(slashes(0) + tail =~= tail);
            assert(slashes(pending) + seq![arg[0]] + tail =~= slashes(pending) + arg);
        }
    }
}

/// Whatever an argument holds, what is registered for it reads back as that very
/// argument, and as one argument.
pub proof fn quoting_round_trips(arg: Seq<char>, rest: Seq<char>)
    requires
        at_break(rest),
    ensures
        read_arg(quoted_arg(arg) + rest, false, 0) == (arg, rest),
{
    assert(slashes(0) =~= Seq::<char>::empty());
    assert(slashes(0) + arg =~= arg);
    if needs_quotes(arg) {
        let inner = escaped(arg, 0) + seq!['"'] + rest;
        let whole = quoted_arg(arg) + rest;
        assert(whole =~= seq!['"'] + inner);
        assert(whole.skip(1) =~= inner);
        escaped_reads_back(arg, 0, rest);
    } else {
        plain_reads_back(arg, 0, rest);
    }
}

/// How Windows reads the arguments after the program's own name.
pub open spec fn read_args(line: Seq<char>) -> Seq<Seq<char>>
    decreases line.len(),
{
    if line.len() == 0 {
        seq![]
    } else if line[0] == ' ' || line[0] == '\t' {
        read_args(line.skip(1))
    } else {
        let (arg, rest) = read_arg(line, false, 0);
        if rest.len() < line.len() {
            seq![arg] + read_args(rest)
        } else {
            seq![arg]
        }
    }
}

/// The part of a command line after the executable.
pub open spec fn args_part(args: Seq<Seq<char>>) -> Seq<char>
    decreases args.len(),
{
    if args.len() == 0 {
        seq![]
    } else {
        seq![' '] + quoted_arg(args[0]) + args_part(args.skip(1))
    }
}

/// A command line is the executable followed by the arguments.
proof fn joined_is_exe_then_args(exe: Seq<char>, args: Seq<Seq<char>>)
    ensures
        joined(exe, args) == quoted_arg(exe) + args_part(args),
    decreases args.len(),
{
    if args.len() == 0 {
        assert(quoted_arg(exe) + args_part(args) =~= quoted_arg(exe));
    } else {
        joined_is_exe_then_args(exe, args.drop_last());
        args_part_grows(args.drop_last(), args.last());
        assert(args.drop_last().push(args.last()) =~= args);
        assert(joined(exe, args) =~= quoted_arg(exe) + args_part(args));
    }
}

proof fn args_part_grows(args: Seq<Seq<char>>, last: Seq<char>)
    ensures
        args_part(args.push(last)) == args_part(args) + (seq![' '] + quoted_arg(last)),
    decreases args.len(),
{
    let more = args.push(last);
    if args.len() == 0 {
        assert(more.skip(1) =~= Seq::<Seq<char>>::empty());
        assert(args_part(more.skip(1)) =~= Seq::<char>::empty());
        assert(args_part(more) =~= args_part(args) + (seq![' '] + quoted_arg(last)));
    } else {
        args_part_grows(args.skip(1), last);
        assert(more.skip(1) =~= args.skip(1).push(last));
        assert(args_part(more) =~= args_part(args) + (seq![' '] + quoted_arg(last)));
    }
}

/// A registered command line starts with the executable, and the rest of it
/// reads back as exactly the arguments it was made of.
pub proof fn a_command_line_reads_back(exe: Seq<char>, args: Seq<Seq<char>>)
    ensures
        joined(exe, args) == quoted_arg(exe) + args_part(args),
        read_args(args_part(args)) == args,
    decreases args.len(),
{
    joined_is_exe_then_args(exe, args);
    args_read_back(args);
}

proof fn args_read_back(args: Seq<Seq<char>>)
    ensures
        read_args(args_part(args)) == args,
    decreases args.len(),
{
    let line = args_part(args);
    if args.len() == 0 {
        assert(read_args(line) =~= args);
    } else {
        let rest = args_part(args.skip(1));
        let first = quoted_arg(args[0]);
        args_read_back(args.skip(1));
        assert(at_break(rest)) by {
            if args.skip(1).len() > 0 {
                assert(rest[0] == ' ');
            }
        }
        assert(line.skip(1) =~= first + rest);
        quoting_round_trips(args[0], rest);
        assert(first.len() > 0 && first[0] != ' ' && first[0] != '\t') by {
            if !needs_quotes(args[0]) {
                assert(args[0][0] != ' ' && args[0][0] != '\t');
            }
        }
        assert((first + rest)[0] == first[0]);
        reveal_with_fuel(read_args, 3);
        assert(seq![args[0]] + args.skip(1) =~= args);
    }
}

/// An argument with no space, tab or quote in it is registered as it is.
pub proof fn a_plain_argument_stands_as_it_is(arg: Seq<char>)
    requires
        arg.len() > 0,
        forall|i: int|
            0 <= i < arg.len() ==> #[trigger] arg[i] != ' ' && arg[i] != '\t' && arg[i] != '"',
    ensures
        quoted_arg(arg) == arg,
{
}

/// A command line of the program alone is the program; each argument more adds a
/// space and the argument, quoted.
pub proof fn each_argument_adds_to_the_line(exe: Seq<char>, args: Seq<Seq<char>>, more: Seq<char>)
    ensures
        joined(exe, seq![]) == quoted_arg(exe),
        joined(exe, args.push(more)) == joined(exe, args) + seq![' '] + quoted_arg(more),
{
    assert(args.push(more).drop_last() =~= args);
}

proof fn escaping_keeps_plain_text(arg: Seq<char>)
    requires
        forall|i: int| 0 <= i < arg.len() ==> #[trigger] arg[i] != '"' && arg[i] != '\\',
    ensures
        escaped(arg, 0) == arg,
    decreases arg.len(),
{
    assert(slashes(0) =~= Seq::<char>::empty());
    if arg.len() > 0 {
        let rest = arg.skip(1);
        assert forall|i: int| 0 <= i < rest.len() implies #[trigger] rest[i] != '"' && rest[i]
            != '\\' by {
            assert(rest[i] == arg[i + 1]);
        }
        escaping_keeps_plain_text(rest);
        assert(arg[0] != '"' && arg[0] != '\\');
        assert(slashes(0) + seq![arg[0]] + rest =~= arg);
    } else {
        assert(slashes(0) =~= arg);
    }
}

/// An argument with a space or a tab in it, and with no quote or backslash, stands
/// between quotes and is otherwise as it is; and so does an empty one.
pub proof fn an_argument_with_spaces_stands_between_quotes(arg: Seq<char>)
    requires
        arg.len() == 0 || arg.contains(' ') || arg.contains('\t'),
        forall|i: int| 0 <= i < arg.len() ==> #[trigger] arg[i] != '"' && arg[i] != '\\',
    ensures
        quoted_arg(arg) == seq!['"'] + arg + seq!['"'],
{
    escaping_keeps_plain_text(arg);
    if arg.contains(' ') {
        let i = choose|i: int| 0 <= i < arg.len() && arg[i] == ' ';
        assert(arg[i] == ' ');
    } else if arg.contains('\t') {
        let i = choose|i: int| 0 <= i < arg.len() && arg[i] == '\t';
        assert(arg[i] == '\t');
    }
}

/// Where there is nothing to register with, that is said.
pub proof fn a_platform_without_autostart_says_so()
    ensures
        not_here() == "autostart is only implemented for Windows"@,
{
}

/// An entry is stale exactly where it does not name the executable that runs, the
/// case of letters aside; it is shown as it is registered.
pub proof fn an_entry_for_another_program_is_stale(
    command: Option<String>,
    exe: Option<&str>,
    shown: Status,
)
    requires
        call_ensures(status, (Platform::Windows, command, exe), shown),
    ensures
        shown.supported,
        shown.enabled <==> command is Some,
        shown.command == command,
        shown.stale <==> {
            &&& command matches Some(line)
            &&& exe matches Some(path)
            &&& !text::inside_any_case(path@, line@)
        },
{
}

} // verus!
