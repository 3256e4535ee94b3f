//! The window photographing itself, without photographing the machine it runs
//! on: addresses and device names are replaced before the picture is taken.

use vstd::prelude::*;

use crate::engine::address::Address;
use crate::engine::state::{Snapshot, Stats, Status, StatusView};
use crate::text::{self, texts};

verus! {

/// Frames to draw before the shot is taken: the first few settle the layout.
pub const WARMUP_FRAMES: u32 = 8;

/// Frames to draw before the shot, from a setting that may override them.
pub fn warmup_frames(setting: Option<&str>) -> (frames: u32)
    ensures
        match setting {
            Some(value) => match text::number(value@) {
                Some(n) => frames == (if n <= u32::MAX {
                    n as u32
                } else {
                    WARMUP_FRAMES
                }),
                None => frames == WARMUP_FRAMES,
            },
            None => frames == WARMUP_FRAMES,
        },
{
    match setting {
        Some(value) => match text::parse_u32(value) {
            Some(n) => n,
            None => WARMUP_FRAMES,
        },
        None => WARMUP_FRAMES,
    }
}

/// What stands behind the first `--screenshot` among the arguments.
pub open spec fn target_of(args: Seq<Seq<char>>) -> Option<Seq<char>>
    decreases args.len(),
{
    if args.len() == 0 {
        None
    } else if args[0] == "--screenshot"@ {
        if args.len() > 1 {
            Some(args[1])
        } else {
            None
        }
    } else {
        target_of(args.skip(1))
    }
}

/// The path behind `--screenshot`, if it was given.
pub fn screenshot_target(args: &[String]) -> (path: Option<String>)
    ensures
        match target_of(texts(args@)) {
            Some(target) => path matches Some(p) && p@ == target,
            None => path is None,
        },
{
    let flag: String = "--screenshot".to_owned();
    let mut i: usize = 0;
    assert(texts(args@).skip(0) =~= texts(args@));
    while i < args.len()
        invariant
            i <= args@.len(),
            flag@ == "--screenshot"@,
            target_of(texts(args@)) == target_of(texts(args@).skip(i as int)),
        decreases args@.len() - i,
    {
        let ghost rest = texts(args@).skip(i as int);
        assert(rest[0] == args@[i as int]@);
        assert(rest.skip(1) =~= texts(args@).skip(i + 1));
        if args[i] == flag {
            if args.len() - i > 1 {
                assert(rest[1] == args@[i + 1]@);
                return Some(args[i + 1].clone());
            }
            return None;
        }
        i = i + 1;
    }
    None
}

/// What a frame does about a pending shot.
#[derive(Debug, Clone, Copy, PartialEq, Eq, Structural)]
pub enum ShotStep {
    /// Keep the frames coming.
    Wait,
    /// Keep the frames coming, and ask for the picture.
    Ask,
    /// The picture was asked for: write it when it has come.
    Collect,
}

/// One frame of the countdown: the frames that remain, and what to do.
pub open spec fn counted(remaining: u32) -> (u32, ShotStep) {
    if remaining == 0 {
        (0, ShotStep::Collect)
    } else {
        (
            (remaining - 1) as u32,
            if remaining == 1 {
                ShotStep::Ask
            } else {
                ShotStep::Wait
            },
        )
    }
}

/// Counts one frame down.
pub fn count_down(remaining: u32) -> (r: (u32, ShotStep))
    ensures
        r == counted(remaining),
{
    if remaining == 0 {
        (0, ShotStep::Collect)
    } else if remaining == 1 {
        (0, ShotStep::Ask)
    } else {
        (remaining - 1, ShotStep::Wait)
    }
}

/// What the countdown does on a later frame.
pub open spec fn step_after(remaining: u32, frames: nat) -> ShotStep
    decreases frames,
{
    if frames == 0 {
        counted(remaining).1
    } else {
        step_after(counted(remaining).0, (frames - 1) as nat)
    }
}

/// The picture is asked for on the last frame of the countdown and on no other,
/// and collected on every frame after it.
pub proof fn the_shot_is_asked_for_once(remaining: u32, frames: nat)
    ensures
        step_after(remaining, frames) is Ask <==> frames + 1 == remaining,
        step_after(remaining, frames) is Collect <==> frames >= remaining,
    decreases frames,
{
    if frames > 0 {
        the_shot_is_asked_for_once(counted(remaining).0, (frames - 1) as nat);
    }
}

/// What a run of characters was read as.
#[derive(Debug, Clone, Copy, PartialEq, Eq, Structural)]
pub enum Reading {
    /// An address and a port.
    Endpoint(Address, u16),
    /// An address.
    Host(Address),
    Neither,
}

impl Reading {
    /// The reading says which machine this is.
    pub open spec fn identifies(self) -> bool {
        match self {
            Reading::Endpoint(address, _) => !address.loops_back() && !address.is_any(),
            Reading::Host(address) => !address.loops_back() && !address.is_any(),
            Reading::Neither => false,
        }
    }
}

/// A run of characters with what identifies a machine replaced.
pub open spec fn replaced(token: Seq<char>, reading: Reading) -> Seq<char> {
    if !reading.identifies() {
        token
    } else {
        match reading {
            Reading::Endpoint(_, port) => "192.168.1.20"@ + seq![':'] + text::decimal(port as nat),
            _ => "192.168.1.20"@,
        }
    }
}

/// An address that says which machine this is.
pub fn identifies_a_machine(address: Address) -> (yes: bool)
    ensures
        yes == (!address.loops_back() && !address.is_any()),
{
    !address.is_loopback() && !address.is_unspecified()
}

/// One run of address-shaped characters, replaced only if it was read as an
/// address that identifies a machine.
pub fn scrub_token(token: &str, reading: Reading) -> (out: String)
    ensures
        out@ == replaced(token@, reading),
{
    match reading {
        Reading::Endpoint(address, port) => {
            if identifies_a_machine(address) {
                let mut out: String = "192.168.1.20".to_owned();
                out.push(':');
                text::push_decimal(&mut out, port as u64);
                assert(out@ =~= replaced(token@, reading));
                return out;
            }
        },
        Reading::Host(address) => {
            if identifies_a_machine(address) {
                return "192.168.1.20".to_owned();
            }
        },
        Reading::Neither => {},
    }
    token.to_owned()
}

/// The characters that addresses are spelled from.
pub open spec fn in_address(c: char) -> bool {
    let n = c as int;
    ||| '0' as int <= n <= '9' as int
    ||| 'a' as int <= n <= 'f' as int
    ||| 'A' as int <= n <= 'F' as int
    ||| c == '.'
    ||| c == ':'
}

/// The runs of address characters in a text, the empty ones too: one before the
/// first other character, and one after each.
pub open spec fn tokens(s: Seq<char>) -> Seq<Seq<char>>
    decreases s.len(),
{
    if s.len() == 0 {
        seq![Seq::empty()]
    } else {
        let before = tokens(s.drop_last());
        if in_address(s.last()) {
            before.drop_last().push(before.last().push(s.last()))
        } else {
            before.push(Seq::empty())
        }
    }
}

/// The other characters of a text.
pub open spec fn separators(s: Seq<char>) -> Seq<char>
    decreases s.len(),
{
    if s.len() == 0 {
        seq![]
    } else if in_address(s.last()) {
        separators(s.drop_last())
    } else {
        separators(s.drop_last()).push(s.last())
    }
}

/// Runs joined again, with a separator between each two.
pub open spec fn woven(runs: Seq<Seq<char>>, between: Seq<char>) -> Seq<char>
    decreases runs.len(),
{
    if runs.len() == 0 {
        seq![]
    } else if runs.len() == 1 {
        runs[0]
    } else {
        woven(runs.drop_last(), between.drop_last()).push(between.last()) + runs.last()
    }
}

/// The characters that end a sentence or lead on to what follows, and which a run
/// may have picked up at its ends without their being part of an address.
pub open spec fn closes(c: char) -> bool {
    c == '.' || c == ':'
}

/// A run can be cut to what is left without `lead` characters at its start and
/// `trail` at its end: those are dots and colons.
pub open spec fn can_peel(run: Seq<char>, lead: nat, trail: nat) -> bool {
    &&& lead + trail <= run.len()
    &&& forall|i: int| 0 <= i < lead ==> closes(#[trigger] run[i])
    &&& forall|i: int| run.len() - trail <= i < run.len() ==> closes(#[trigger] run[i])
}

/// A run without `lead` characters at its start and `trail` at its end.
pub open spec fn peeled(run: Seq<char>, lead: nat, trail: nat) -> Seq<char> {
    run.subrange(lead as int, run.len() - trail)
}

/// The address in a run: what stands around it, and what it was read as.
pub struct Finding {
    pub lead: nat,
    pub trail: nat,
    pub reading: Reading,
}

/// A cut is tried before another: as little as possible is cut off the start, and
/// then as little as possible off the end.
pub open spec fn tried_before(lead: nat, trail: nat, finding: Finding) -> bool {
    lead < finding.lead || lead == finding.lead && trail < finding.trail
}

/// A run with what identifies a machine replaced, and what stands around the
/// address put back.
pub open spec fn cleaned(run: Seq<char>, finding: Option<Finding>) -> Seq<char> {
    match finding {
        Some(f) => run.take(f.lead as int) + replaced(peeled(run, f.lead, f.trail), f.reading)
            + run.skip(run.len() - f.trail),
        None => run,
    }
}

/// Each run cleaned by its finding.
pub open spec fn all_cleaned(runs: Seq<Seq<char>>, findings: Seq<Option<Finding>>) -> Seq<
    Seq<char>,
> {
    Seq::new(runs.len(), |i: int| cleaned(runs[i], findings[i]))
}

/// `read` gave this reading for a text.
pub open spec fn read_as<F: Fn(&str) -> Reading>(
    read: F,
    run: Seq<char>,
    reading: Reading,
) -> bool {
    exists|token: &str| token@ == run && #[trigger] call_ensures(read, (token,), reading)
}

/// The finding is the first cut of the run that `read` gave an address for; there
/// is none where it gave none for any.
pub open spec fn found_in<F: Fn(&str) -> Reading>(
    read: F,
    run: Seq<char>,
    finding: Option<Finding>,
) -> bool {
    match finding {
        Some(f) => {
            &&& can_peel(run, f.lead, f.trail)
            &&& f.reading != Reading::Neither
            &&& read_as(read, peeled(run, f.lead, f.trail), f.reading)
            &&& forall|lead: nat, trail: nat|
                can_peel(run, lead, trail) && tried_before(lead, trail, f) ==> read_as(
                    read,
                    #[trigger] peeled(run, lead, trail),
                    Reading::Neither,
                )
        },
        None => forall|lead: nat, trail: nat|
            can_peel(run, lead, trail) ==> read_as(
                read,
                #[trigger] peeled(run, lead, trail),
                Reading::Neither,
            ),
    }
}

/// The findings are what `read` gave for the runs.
pub open spec fn findings_of<F: Fn(&str) -> Reading>(
    read: F,
    runs: Seq<Seq<char>>,
    findings: Seq<Option<Finding>>,
) -> bool {
    &&& findings.len() == runs.len()
    &&& forall|i: int| 0 <= i < runs.len() ==> #[trigger] found_in(read, runs[i], findings[i])
}

/// A text with the addresses in it that identify a machine replaced.
pub open spec fn scrubbed<F: Fn(&str) -> Reading>(read: F, s: Seq<char>, out: Seq<char>) -> bool {
    exists|findings: Seq<Option<Finding>>| #[trigger]
        findings_of(read, tokens(s), findings) && out == woven(
            all_cleaned(tokens(s), findings),
            separators(s),
        )
}

/// The last run stands at the end.
proof fn the_last_run_comes_last(runs: Seq<Seq<char>>, last: Seq<char>, between: Seq<char>)
    ensures
        woven(runs.push(last), between) == woven(runs.push(Seq::empty()), between) + last,
{
    assert(runs.push(last).drop_last() =~= runs);
    assert(runs.push(Seq::empty()).drop_last() =~= runs);
    assert(woven(runs.push(last), between) =~= woven(runs.push(Seq::empty()), between) + last);
}

/// A text is its runs and the characters between them.
proof fn runs_make_up_the_text(s: Seq<char>)
    ensures
        tokens(s).len() == separators(s).len() + 1,
        woven(tokens(s), separators(s)) == s,
    decreases s.len(),
{
    if s.len() > 0 {
        let rest = s.drop_last();
        runs_make_up_the_text(rest);
        let before = tokens(rest);
        if in_address(s.last()) {
            assert(tokens(s).drop_last() =~= before.drop_last());
            if before.len() == 1 {
                assert(rest.push(s.last()) =~= s);
            } else {
                assert(woven(tokens(s), separators(s)) =~= woven(before, separators(rest)).push(
                    s.last(),
                ));
                assert(rest.push(s.last()) =~= s);
            }
        } else {
            assert(tokens(s).drop_last() =~= before);
            assert(separators(s).drop_last() =~= separators(rest));
            assert(woven(tokens(s), separators(s)) =~= s);
        }
    }
}

/// The finding says which machine this is.
pub open spec fn gives_away(finding: Option<Finding>) -> bool {
    finding matches Some(f) && f.reading.identifies()
}

/// A text in which nothing was read as an address that identifies a machine
/// comes back as it was.
pub proof fn what_is_no_address_is_left_alone<F: Fn(&str) -> Reading>(
    read: F,
    s: Seq<char>,
    findings: Seq<Option<Finding>>,
)
    requires
        findings_of(read, tokens(s), findings),
        forall|i: int| 0 <= i < findings.len() ==> !gives_away(#[trigger] findings[i]),
    ensures
        woven(all_cleaned(tokens(s), findings), separators(s)) == s,
{
    runs_make_up_the_text(s);
    assert forall|i: int| 0 <= i < tokens(s).len() implies all_cleaned(tokens(s), findings)[i]
        =~= tokens(s)[i] by {
        assert(found_in(read, tokens(s)[i], findings[i]));
        assert(!gives_away(findings[i]));
    }
    assert(all_cleaned(tokens(s), findings) =~= tokens(s));
}

/// What does not look like an address is kept, and so is a run in which nothing
/// was found that identifies a machine.
pub proof fn only_runs_are_replaced<F: Fn(&str) -> Reading>(
    read: F,
    s: Seq<char>,
    findings: Seq<Option<Finding>>,
    i: int,
)
    requires
        findings_of(read, tokens(s), findings),
        0 <= i < tokens(s).len(),
        !gives_away(findings[i]),
    ensures
        tokens(s).len() == separators(s).len() + 1,
        all_cleaned(tokens(s), findings)[i] == tokens(s)[i],
{
    runs_make_up_the_text(s);
    assert(found_in(read, tokens(s)[i], findings[i]));
    assert(all_cleaned(tokens(s), findings)[i] =~= tokens(s)[i]);
}

/// No address slips through for the dots and colons around it: where a run, cut
/// somehow to what stands between them, is an address that identifies a machine,
/// an address was found in the run, and at a cut no later than that one. Where
/// the address found identifies a machine, the documented one stands in its place,
/// and what stands around it is kept.
pub proof fn no_address_slips_through<F: Fn(&str) -> Reading>(
    read: F,
    run: Seq<char>,
    finding: Option<Finding>,
    lead: nat,
    trail: nat,
)
    requires
        found_in(read, run, finding),
        can_peel(run, lead, trail),
        forall|reading: Reading| #[trigger]
            read_as(read, peeled(run, lead, trail), reading) ==> reading.identifies(),
    ensures
        finding is Some,
        !tried_before(lead, trail, finding->Some_0),
        finding->Some_0.lead == lead && finding->Some_0.trail == trail ==> gives_away(finding),
        gives_away(finding) ==> ({
            let f = finding->Some_0;
            &&& cleaned(run, finding).take(f.lead as int) == run.take(f.lead as int)
            &&& cleaned(run, finding).subrange(f.lead as int, f.lead as int + 12) == "192.168.1.20"@
            &&& cleaned(run, finding).skip(cleaned(run, finding).len() - f.trail) == run.skip(
                run.len() - f.trail,
            )
        }),
{
    reveal_strlit("192.168.1.20");
    if let Some(f) = finding {
        if tried_before(lead, trail, f) {
            assert(read_as(read, peeled(run, lead, trail), Reading::Neither));
        }
        if f.reading.identifies() {
            let out = cleaned(run, finding);
            assert(out.take(f.lead as int) =~= run.take(f.lead as int));
            assert(out.subrange(f.lead as int, f.lead as int + 12) =~= "192.168.1.20"@);
            assert(out.skip(out.len() - f.trail) =~= run.skip(run.len() - f.trail));
        }
    } else {
        assert(read_as(read, peeled(run, lead, trail), Reading::Neither));
    }
}

/// The findings of one more run.
proof fn one_more_finding<F: Fn(&str) -> Reading>(
    read: F,
    runs: Seq<Seq<char>>,
    findings: Seq<Option<Finding>>,
    run: Seq<char>,
    finding: Option<Finding>,
)
    requires
        findings_of(read, runs, findings),
        found_in(read, run, finding),
    ensures
        findings_of(read, runs.push(run), findings.push(finding)),
{
    let all = runs.push(run);
    let more = findings.push(finding);
    assert forall|k: int| 0 <= k < all.len() implies #[trigger] found_in(read, all[k], more[k]) by {
        if k < runs.len() {
            assert(found_in(read, runs[k], findings[k]));
        }
    }
}

/// Dots and colons at the start of a run.
fn leading(chars: &[char]) -> (n: usize)
    ensures
        n <= chars@.len(),
        forall|i: int| 0 <= i < n ==> closes(#[trigger] chars@[i]),
        n < chars@.len() ==> !closes(chars@[n as int]),
{
    let mut n: usize = 0;
    while n < chars.len() && (chars[n] == '.' || chars[n] == ':')
        invariant
            n <= chars@.len(),
            forall|i: int| 0 <= i < n ==> closes(#[trigger] chars@[i]),
        decreases chars@.len() - n,
    {
        n = n + 1;
    }
    n
}

/// Dots and colons at the end of a run.
fn trailing(chars: &[char]) -> (n: usize)
    ensures
        n <= chars@.len(),
        forall|i: int| chars@.len() - n <= i < chars@.len() ==> closes(#[trigger] chars@[i]),
        n < chars@.len() ==> !closes(chars@[chars@.len() - n - 1]),
{
    let mut n: usize = 0;
    assert(chars@.len() == chars.len());
    while n < chars.len() && (chars[chars.len() - n - 1] == '.' || chars[chars.len() - n - 1]
        == ':')
        invariant
            n <= chars@.len(),
            chars@.len() == chars.len(),
            forall|i: int| chars@.len() - n <= i < chars@.len() ==> closes(#[trigger] chars@[i]),
        decreases chars@.len() - n,
    {
        n = n + 1;
    }
    n
}

/// Cleans one run: it is read as it is, and then without the dots and colons
/// around it, until something is read as an address.
fn scrub_run<F: Fn(&str) -> Reading>(run: &str, read: &F) -> (r: (String, Ghost<Option<Finding>>))
    requires
        forall|token: &str| call_requires(*read, (token,)),
    ensures
        found_in(*read, run@, r.1@),
        r.0@ == cleaned(run@, r.1@),
{
    let chars = text::chars_of(run);
    let n: usize = chars.len();
    let leads: usize = leading(chars.as_slice());
    let trails: usize = trailing(chars.as_slice());
    let mut lead: usize = 0;
    let mut more = true;
    while more
        invariant
            lead <= leads <= n,
            trails <= n,
            n == chars@.len(),
            chars@ == run@,
            forall|token: &str| call_requires(*read, (token,)),
            forall|i: int| 0 <= i < leads ==> closes(#[trigger] run@[i]),
            leads < n ==> !closes(run@[leads as int]),
            forall|i: int| n - trails <= i < n ==> closes(#[trigger] run@[i]),
            trails < n ==> !closes(run@[n - trails - 1]),
            forall|l: nat, t: nat|
                can_peel(run@, l, t) && (l < lead || !more) ==> read_as(
                    *read,
                    #[trigger] peeled(run@, l, t),
                    Reading::Neither,
                ),
        decreases leads - lead, more as int,
    {
        let most: usize = if trails < n - lead {
            trails
        } else {
            n - lead
        };
        let mut trail: usize = 0;
        let mut further = true;
        while further
            invariant
                lead <= leads <= n,
                trail <= most <= n - lead,
                most <= trails,
                n == chars@.len(),
                chars@ == run@,
                forall|token: &str| call_requires(*read, (token,)),
                forall|i: int| 0 <= i < leads ==> closes(#[trigger] run@[i]),
                forall|i: int| n - trails <= i < n ==> closes(#[trigger] run@[i]),
                forall|l: nat, t: nat|
                    can_peel(run@, l, t) && (l < lead || l == lead && (t < trail || !further && t
                        <= most)) ==> read_as(
                        *read,
                        #[trigger] peeled(run@, l, t),
                        Reading::Neither,
                    ),
            decreases most - trail, further as int,
        {
            let mut part: String = String::new();
            text::push_chars(&mut part, &chars.as_slice()[lead..n - trail]);
            assert(part@ =~= peeled(run@, lead as nat, trail as nat));
            let reading = read(part.as_str());
            assert(read_as(*read, peeled(run@, lead as nat, trail as nat), reading));
            if reading != Reading::Neither {
                let ghost finding = Some(
                    Finding { lead: lead as nat, trail: trail as nat, reading },
                );
                let clean = scrub_token(part.as_str(), reading);
                let mut out: String = String::new();
                text::push_chars(&mut out, &chars.as_slice()[0..lead]);
                out.append(clean.as_str());
                text::push_chars(&mut out, &chars.as_slice()[n - trail..n]);
                proof {
                    assert(out@ =~= cleaned(run@, finding));
                    assert(can_peel(run@, lead as nat, trail as nat));
                }
                return (out, Ghost(finding));
            }
            if trail == most {
                further = false;
            } else {
                trail = trail + 1;
            }
        }
        assert forall|l: nat, t: nat| can_peel(run@, l, t) && l <= lead implies read_as(
            *read,
            #[trigger] peeled(run@, l, t),
            Reading::Neither,
        ) by {
            if l == lead && t > most {
                assert(closes(run@[n - trails - 1]));
            }
        }
        if lead == leads {
            more = false;
            assert forall|l: nat, t: nat| can_peel(run@, l, t) implies read_as(
                *read,
                #[trigger] peeled(run@, l, t),
                Reading::Neither,
            ) by {
                if l > leads {
                    assert(closes(run@[leads as int]));
                }
            }
        } else {
            lead = lead + 1;
        }
    }
    (run.to_owned(), Ghost(None))
}

/// Whether addresses are spelled from a character.
fn is_in_address(c: char) -> (yes: bool)
    ensures
        yes == in_address(c),
{
    ('0' <= c && c <= '9') || ('a' <= c && c <= 'f') || ('A' <= c && c <= 'F') || c == '.' || c
        == ':'
}

/// Rewrites the addresses in a line of text that identify a machine. `read` says
/// what a run of characters is; dots and colons around an address are kept.
pub fn scrub_addrs<F: Fn(&str) -> Reading>(line: &str, read: &F) -> (out: String)
    requires
        forall|token: &str| call_requires(*read, (token,)),
    ensures
        scrubbed(*read, line@, out@),
{
    let chars = text::chars_of(line);
    let mut out: String = String::new();
    let mut token: String = String::new();
    let ghost mut findings: Seq<Option<Finding>> = seq![];
    let mut i: usize = 0;
    assert(chars@.take(0) =~= Seq::<char>::empty());
    while i < chars.len()
        invariant
            i <= chars@.len(),
            chars@ == line@,
            forall|token: &str| call_requires(*read, (token,)),
            tokens(chars@.take(i as int)).len() == findings.len() + 1,
            tokens(chars@.take(i as int)).last() == token@,
            findings_of(*read, tokens(chars@.take(i as int)).drop_last(), findings),
            separators(chars@.take(i as int)).len() == findings.len(),
            out@ == woven(
                all_cleaned(tokens(chars@.take(i as int)).drop_last(), findings).push(
                    Seq::empty(),
                ),
                separators(chars@.take(i as int)),
            ),
        decreases chars@.len() - i,
    {
        let ghost sofar = chars@.take(i as int);
        let ghost next = chars@.take(i + 1);
        assert(next.drop_last() =~= sofar);
        let ghost done = tokens(sofar).drop_last();
        let c: char = chars[i];
        if is_in_address(c) {
            token.push(c);
            assert(tokens(next).drop_last() =~= done);
        } else {
            let (clean, finding) = scrub_run(token.as_str(), read);
            out.append(clean.as_str());
            out.push(c);
            proof {
                let all = tokens(sofar);
                let more = findings.push(finding@);
                assert(all =~= done.push(token@));
                assert(tokens(next).drop_last() =~= all);
                one_more_finding(*read, done, findings, token@, finding@);
                let runs = all_cleaned(all, more);
                assert(runs =~= all_cleaned(done, findings).push(clean@));
                the_last_run_comes_last(
                    all_cleaned(done, findings),
                    clean@,
                    separators(sofar),
                );
                assert(runs.push(Seq::empty()).drop_last() =~= runs);
                assert(separators(next).drop_last() =~= separators(sofar));
                assert(out@ =~= woven(runs.push(Seq::empty()), separators(next)));
                findings = more;
            }
            token = String::new();
        }
        i = i + 1;
    }
    assert(chars@.take(i as int) =~= line@);
    let (clean, finding) = scrub_run(token.as_str(), read);
    out.append(clean.as_str());
    proof {
        let done = tokens(line@).drop_last();
        let more = findings.push(finding@);
        assert(tokens(line@) =~= done.push(token@));
        one_more_finding(*read, done, findings, token@, finding@);
        assert(all_cleaned(tokens(line@), more) =~= all_cleaned(done, findings).push(clean@));
        the_last_run_comes_last(all_cleaned(done, findings), clean@, separators(line@));
        assert(findings_of(*read, tokens(line@), more));
    }
    out
}

/// A device name that the documentation uses, and which therefore identifies a
/// product rather than a person.
pub open spec fn documented(name: Seq<char>) -> bool {
    ||| text::inside("UMC204HD"@, name)
    ||| text::inside("CABLE Input"@, name)
    ||| text::inside("CABLE Output"@, name)
    ||| text::inside("MicBridge_Input"@, name)
    ||| text::inside("MicBridge_Output"@, name)
}

pub fn is_documented(name: &str) -> (yes: bool)
    ensures
        yes == documented(name@),
{
    text::is_inside("UMC204HD", name) || text::is_inside("CABLE Input", name) || text::is_inside(
        "CABLE Output",
        name,
    ) || text::is_inside("MicBridge_Input", name) || text::is_inside("MicBridge_Output", name)
}

/// What a picture calls a device.
pub open spec fn shown_device(name: Seq<char>) -> Seq<char> {
    if name.len() == 0 || documented(name) {
        name
    } else {
        "Audio Interface"@
    }
}

/// What a picture calls a device that a session runs on.
pub fn documented_device(name: &str) -> (shown: String)
    ensures
        shown@ == shown_device(name@),
{
    if name.is_empty() || is_documented(name) {
        name.to_owned()
    } else {
        "Audio Interface".to_owned()
    }
}

/// A picture names no device but documented ones.
pub proof fn pictures_name_only_documented_devices(name: Seq<char>)
    ensures
        shown_device(name).len() == 0 || documented(shown_device(name)) || shown_device(name)
            == "Audio Interface"@,
        shown_device(shown_device(name)) == shown_device(name),
{
}

/// Drops undocumented devices from a list. They are dropped and not renamed: a
/// list with an invented name would offer a device that cannot be opened.
pub fn retain_documented_devices(names: &mut Vec<String>)
    ensures
        texts(final(names)@) == texts(old(names)@).filter(|name: Seq<char>| documented(name)),
{
    let mut kept: Vec<String> = Vec::new();
    let mut i: usize = 0;
    let ghost all = texts(names@);
    let ghost test = |name: Seq<char>| documented(name);
    proof {
        reveal(Seq::filter);
        assert(all.take(0) =~= Seq::empty());
    }
    while i < names.len()
        invariant
            i <= names@.len(),
            all == texts(names@),
            test == (|name: Seq<char>| documented(name)),
            texts(kept@) =~= all.take(i as int).filter(test),
        decreases names@.len() - i,
    {
        let ghost before = kept@;
        proof {
            reveal(Seq::filter);
            assert(all.take(i + 1).drop_last() =~= all.take(i as int));
            assert(all.take(i + 1).last() == names@[i as int]@);
        }
        if is_documented(names[i].as_str()) {
            let name = names[i].clone();
            kept.push(name);
            assert(texts(kept@) =~= texts(before).push(name@));
        }
        i = i + 1;
    }
    assert(all.take(i as int) =~= all);
    *names = kept;
}

/// The addresses that a picture shows.
pub open spec fn documented_reachable() -> Seq<Seq<char>> {
    seq!["192.168.1.20:42100"@, "100.64.0.5:42100"@]
}

/// A text with a device that the documentation does not name called by what a
/// picture calls it.
pub open spec fn without_device(s: Seq<char>, name: Seq<char>) -> Seq<char> {
    if name.len() == 0 || documented(name) {
        s
    } else {
        text::with_replaced(s, name, shown_device(name))
    }
}

/// Takes a device that the documentation does not name out of a text.
fn hide_device(s: &str, name: &str) -> (out: String)
    ensures
        out@ == without_device(s@, name@),
{
    if name.is_empty() || is_documented(name) {
        return s.to_owned();
    }
    let shown = documented_device(name);
    text::replace_all(s, name, shown.as_str())
}

/// What a picture shows of a line about a session on these devices: they are
/// called what a picture calls them, and addresses that identify a machine are
/// replaced.
pub open spec fn shown_line<F: Fn(&str) -> Reading>(
    read: F,
    endpoint: Seq<char>,
    game_device: Seq<char>,
    s: Seq<char>,
    out: Seq<char>,
) -> bool {
    scrubbed(read, without_device(without_device(s, endpoint), game_device), out)
}

/// Redacts one line.
fn redact_line<F: Fn(&str) -> Reading>(
    line: &str,
    endpoint: &str,
    game_device: &str,
    read: &F,
) -> (out: String)
    requires
        forall|token: &str| call_requires(*read, (token,)),
    ensures
        shown_line(*read, endpoint@, game_device@, line@, out@),
{
    let first = hide_device(line, endpoint);
    let second = hide_device(first.as_str(), game_device);
    scrub_addrs(second.as_str(), read)
}

/// What a picture shows of a status: what it says is redacted like a log line.
pub open spec fn shown_status<F: Fn(&str) -> Reading>(
    read: F,
    endpoint: Seq<char>,
    game_device: Seq<char>,
    status: StatusView,
    out: StatusView,
) -> bool {
    match status {
        StatusView::Starting(what) => out matches StatusView::Starting(w) && shown_line(
            read,
            endpoint,
            game_device,
            what,
            w,
        ),
        StatusView::Failed(err) => out matches StatusView::Failed(e) && shown_line(
            read,
            endpoint,
            game_device,
            err,
            e,
        ),
        _ => out == status,
    }
}

/// Replaces what in a snapshot identifies the machine it came from: the addresses
/// it is reached on, the devices of its session, and, in the status, the listening
/// address and the log, those devices and whatever `read` takes for an address
/// that identifies a machine.
pub fn redact<F: Fn(&str) -> Reading>(snapshot: &mut Snapshot, read: &F)
    requires
        forall|token: &str| call_requires(*read, (token,)),
    ensures
        ({
            let before = old(snapshot).stats;
            let after = final(snapshot).stats;
            let endpoint = before.endpoint@;
            let game_device = before.game_device@;
            &&& shown_status(
                *read,
                endpoint,
                game_device,
                old(snapshot).status@,
                final(snapshot).status@,
            )
            &&& texts(after.reachable@) == documented_reachable()
            &&& after.endpoint@ == shown_device(endpoint)
            &&& after.game_device@ == shown_device(game_device)
            &&& scrubbed(*read, before.local_addr@, after.local_addr@)
            &&& after == (Stats {
                reachable: after.reachable,
                endpoint: after.endpoint,
                game_device: after.game_device,
                local_addr: after.local_addr,
                ..before
            })
            &&& final(snapshot).log@.len() == old(snapshot).log@.len()
            &&& forall|i: int|
                0 <= i < old(snapshot).log@.len() ==> shown_line(
                    *read,
                    endpoint,
                    game_device,
                    old(snapshot).log@[i]@,
                    #[trigger] final(snapshot).log@[i]@,
                )
        }),
        final(snapshot).level_bits == old(snapshot).level_bits,
{
    let mut reachable: Vec<String> = Vec::new();
    reachable.push("192.168.1.20:42100".to_owned());
    reachable.push("100.64.0.5:42100".to_owned());
    assert(texts(reachable@) =~= documented_reachable());
    let endpoint = snapshot.stats.endpoint.clone();
    let game_device = snapshot.stats.game_device.clone();
    let mut log: Vec<String> = Vec::new();
    let mut i: usize = 0;
    while i < snapshot.log.len()
        invariant
            i <= snapshot.log@.len(),
            log@.len() == i,
            forall|token: &str| call_requires(*read, (token,)),
            forall|k: int|
                0 <= k < i ==> shown_line(
                    *read,
                    endpoint@,
                    game_device@,
                    snapshot.log@[k]@,
                    #[trigger] log@[k]@,
                ),
        decreases snapshot.log@.len() - i,
    {
        let line = redact_line(
            snapshot.log[i].as_str(),
            endpoint.as_str(),
            game_device.as_str(),
            read,
        );
        log.push(line);
        i = i + 1;
    }
    let status = match &snapshot.status {
        Status::Starting(what) => Status::Starting(
            redact_line(what.as_str(), endpoint.as_str(), game_device.as_str(), read),
        ),
        Status::Failed(err) => Status::Failed(
            redact_line(err.as_str(), endpoint.as_str(), game_device.as_str(), read),
        ),
        Status::Idle => Status::Idle,
        Status::Running => Status::Running,
        Status::Stopped => Status::Stopped,
    };
    let local_addr = scrub_addrs(snapshot.stats.local_addr.as_str(), read);
    snapshot.status = status;
    snapshot.stats.reachable = reachable;
    snapshot.stats.endpoint = documented_device(endpoint.as_str());
    snapshot.stats.game_device = documented_device(game_device.as_str());
    snapshot.stats.local_addr = local_addr;
    snapshot.log = log;
}

/// The path of a picture is what stands behind the first flag for one, wherever that
/// is among the arguments; where there is no flag, or nothing behind it, there is
/// none.
pub proof fn the_path_stands_behind_its_flag(before: Seq<Seq<char>>, after: Seq<Seq<char>>)
    requires
        !before.contains("--screenshot"@),
    ensures
        target_of(before) is None,
        target_of(before + seq!["--screenshot"@] + after) == if after.len() > 0 {
            Some(after[0])
        } else {
            None
        },
    decreases before.len(),
{
    let all = before + seq!["--screenshot"@] + after;
    if before.len() == 0 {
        assert(all[0] == "--screenshot"@);
        if after.len() > 0 {
            assert(all[1] == after[0]);
        }
    } else {
        let rest = before.skip(1);
        assert(before[0] != "--screenshot"@);
        assert(!rest.contains("--screenshot"@)) by {
            if rest.contains("--screenshot"@) {
                let k = choose|k: int| 0 <= k < rest.len() && rest[k] == "--screenshot"@;
                assert(before[k + 1] == "--screenshot"@);
            }
        }
        the_path_stands_behind_its_flag(rest, after);
        assert(all.skip(1) =~= rest + seq!["--screenshot"@] + after);
        assert(all[0] == before[0]);
    }
}

/// Each frame counts one down, and none below zero.
pub proof fn each_frame_counts_one_down(remaining: u32)
    ensures
        remaining > 0 ==> counted(remaining).0 == remaining - 1,
        remaining == 0 ==> counted(remaining).0 == 0,
        counted(remaining).1 == ShotStep::Wait <==> remaining > 1,
{
}

/// An address says which machine this is unless it is the machine's own or stands
/// for "any"; what is no address never does.
pub proof fn only_addresses_of_others_identify(address: Address, port: u16)
    ensures
        !Reading::Neither.identifies(),
        Reading::Host(address).identifies() <==> Reading::Endpoint(address, port).identifies(),
        address matches Address::V4(bits) ==> (Reading::Host(address).identifies() <==> bits != 0
            && !(0x7f00_0000 <= bits < 0x8000_0000)),
        address matches Address::V6(bits) ==> (Reading::Host(address).identifies() <==> bits > 1),
{
}

/// What identifies a machine is replaced by the documented address, with the port
/// kept, and nothing else is touched.
pub proof fn what_identifies_is_replaced(token: Seq<char>, address: Address, port: u16)
    ensures
        replaced(token, Reading::Neither) == token,
        Reading::Host(address).identifies() ==> {
            &&& replaced(token, Reading::Host(address)) == "192.168.1.20"@
            &&& replaced(token, Reading::Endpoint(address, port)) == "192.168.1.20"@ + seq![':']
                + text::decimal(port as nat)
        },
        !Reading::Host(address).identifies() ==> {
            &&& replaced(token, Reading::Host(address)) == token
            &&& replaced(token, Reading::Endpoint(address, port)) == token
        },
{
}

/// A text comes apart into runs of the characters that addresses are spelled from,
/// hexadecimal digits, dots and colons, and the characters between them, and is made
/// of them again.
pub proof fn a_text_comes_apart_into_runs(s: Seq<char>)
    ensures
        tokens(s).len() == separators(s).len() + 1,
        woven(tokens(s), separators(s)) == s,
        forall|i: int|
            0 <= i < separators(s).len() ==> !in_address(#[trigger] separators(s)[i]),
        forall|i: int, k: int|
            0 <= i < tokens(s).len() && 0 <= k < tokens(s)[i].len() ==> in_address(
                #[trigger] tokens(s)[i][k],
            ),
    decreases s.len(),
{
    runs_make_up_the_text(s);
    if s.len() > 0 {
        let rest = s.drop_last();
        a_text_comes_apart_into_runs(rest);
        runs_make_up_the_text(rest);
        let before = tokens(rest);
        assert forall|i: int, k: int|
            0 <= i < tokens(s).len() && 0 <= k < tokens(s)[i].len() implies in_address(
            #[trigger] tokens(s)[i][k],
        ) by {
            if i < before.len() && k < before[i].len() {
                assert(tokens(s)[i][k] == before[i][k]);
            }
        }
        assert forall|i: int| 0 <= i < separators(s).len() implies !in_address(
            #[trigger] separators(s)[i],
        ) by {
            if i < separators(rest).len() {
                assert(separators(s)[i] == separators(rest)[i]);
            }
        }
    }
}

/// Addresses are spelled from digits, the letters up to `f` in either case, dots and
/// colons; of these, dots and colons may stand around one.
pub proof fn addresses_are_spelled_from_these(c: char)
    ensures
        in_address(c) <==> {
            ||| 0x30 <= c as int <= 0x3A
            ||| 0x41 <= c as int <= 0x46
            ||| 0x61 <= c as int <= 0x66
            ||| c as int == 0x2E
        },
        closes(c) <==> c as int == 0x2E || c as int == 0x3A,
{
}

/// An address that fills a run is the one that is found, and the documented one
/// stands in its place.
pub proof fn an_address_on_its_own_is_replaced<F: Fn(&str) -> Reading>(
    read: F,
    run: Seq<char>,
    finding: Option<Finding>,
    reading: Reading,
)
    requires
        found_in(read, run, finding),
        reading.identifies(),
        forall|other: Reading| #[trigger] read_as(read, run, other) ==> other == reading,
    ensures
        finding matches Some(f) && f.lead == 0 && f.trail == 0 && f.reading == reading,
        cleaned(run, finding) == replaced(run, reading),
{
    assert(peeled(run, 0, 0) =~= run);
    assert(can_peel(run, 0, 0));
    if finding is None {
        assert(read_as(read, peeled(run, 0, 0), Reading::Neither));
    }
    let f = finding->Some_0;
    if tried_before(0, 0, f) {
        assert(read_as(read, peeled(run, 0, 0), Reading::Neither));
    }
    assert(cleaned(run, finding) =~= replaced(run, reading));
}

/// The devices that the documentation uses are these, by part of their names.
pub proof fn the_documented_devices(name: Seq<char>)
    ensures
        documented(name) <==> {
            ||| text::inside("UMC204HD"@, name)
            ||| text::inside("CABLE Input"@, name) || text::inside("CABLE Output"@, name)
            ||| text::inside("MicBridge_Input"@, name) || text::inside("MicBridge_Output"@, name)
        },
        documented(name) ==> shown_device(name) == name,
        name.len() > 0 && !documented(name) ==> shown_device(name) == "Audio Interface"@,
        name.len() == 0 ==> shown_device(name) == name,
        documented_reachable() == seq!["192.168.1.20:42100"@, "100.64.0.5:42100"@],
{
}

/// A device that the documentation does not name is taken out of a line wherever it
/// stands, from the left, and nothing else of the line is touched.
pub proof fn an_undocumented_device_is_taken_out(
    before: Seq<char>,
    name: Seq<char>,
    after: Seq<char>,
)
    requires
        name.len() > 0,
        !documented(name),
        forall|i: int|
            0 <= i < before.len() ==> #[trigger] (before + name + after).subrange(i, i + name.len())
                != name,
    ensures
        without_device(before + name + after, name) == before + "Audio Interface"@
            + without_device(after, name),
{
    text::each_place_is_replaced(before, name, after, "Audio Interface"@);
}

/// A line that names no undocumented device of the session is kept but for its
/// addresses.
pub proof fn a_line_without_the_device_is_kept(s: Seq<char>, name: Seq<char>)
    ensures
        name.len() == 0 || documented(name) || !text::inside(name, s) ==> without_device(s, name)
            == s,
{
    text::nothing_is_replaced_where_nothing_stands(s, name, shown_device(name));
}

/// A picture shows the status that there is; what it says is redacted like a line of
/// the log.
pub proof fn a_picture_shows_the_status_there_is<F: Fn(&str) -> Reading>(
    read: F,
    endpoint: Seq<char>,
    game_device: Seq<char>,
    status: StatusView,
    out: StatusView,
)
    requires
        shown_status(read, endpoint, game_device, status, out),
    ensures
        out.word() == status.word(),
        status matches StatusView::Starting(what) ==> out matches StatusView::Starting(shown)
            ==> scrubbed(
            read,
            without_device(without_device(what, endpoint), game_device),
            shown,
        ),
        status matches StatusView::Failed(why) ==> out matches StatusView::Failed(shown)
            ==> scrubbed(
            read,
            without_device(without_device(why, endpoint), game_device),
            shown,
        ),
{
}

/// A picture waits for eight frames where nothing else was asked for.
pub proof fn a_picture_waits_for_the_layout()
    ensures
        WARMUP_FRAMES == 8,
{
}

} // verus!
