//! Device enumeration and lookup.
//!
//! Matching is by name substring rather than by index: indices shift when a USB
//! device is unplugged.

use vstd::prelude::*;

use crate::text::{self, texts};

verus! {

#[derive(Debug, Clone, Copy, PartialEq, Eq, Structural)]
pub enum Direction {
    Input,
    Output,
}

impl Direction {
    /// The direction in a word.
    pub open spec fn word(self) -> Seq<char> {
        match self {
            Direction::Input => "input"@,
            Direction::Output => "output"@,
        }
    }

    pub fn label(self) -> (word: &'static str)
        ensures
            word@ == self.word(),
    {
        match self {
            Direction::Input => "input",
            Direction::Output => "output",
        }
    }
}

/// The names that could be read, in order.
pub open spec fn readable(names: Seq<Option<String>>) -> Seq<Seq<char>>
    decreases names.len(),
{
    if names.len() == 0 {
        seq![]
    } else {
        match names.last() {
            Some(name) => readable(names.drop_last()).push(name@),
            None => readable(names.drop_last()),
        }
    }
}

/// Names of every device in one direction, `None` being a device whose name
/// cannot be read: such a device could not be addressed anyway, so it is left
/// out.
pub fn list_devices(names: &[Option<String>]) -> (list: Vec<String>)
    ensures
        texts(list@) == readable(names@),
{
    let mut list: Vec<String> = Vec::new();
    let mut i: usize = 0;
    assert(names@.take(0) =~= Seq::<Option<String>>::empty());
    assert(texts(list@) =~= readable(names@.take(0)));
    while i < names.len()
        invariant
            i <= names@.len(),
            texts(list@) == readable(names@.take(i as int)),
        decreases names@.len() - i,
    {
        assert(names@.take(i + 1).drop_last() =~= names@.take(i as int));
        if let Some(name) = &names[i] {
            let ghost before = list@;
            let copy = name.clone();
            list.push(copy);
            assert(texts(list@) =~= texts(before).push(copy@));
        }
        i = i + 1;
    }
    assert(names@.take(i as int) =~= names@);
    list
}

/// A device that was found.
#[derive(Debug, Clone, Copy, PartialEq, Eq, Structural)]
pub enum Pick {
    /// The system's default device.
    Default,
    /// The device at this place in the list.
    Listed(usize),
}

/// A device is one that was asked for: its name can be read and holds `wanted`,
/// the case of letters aside.
pub open spec fn fits(name: Option<String>, wanted: Seq<char>) -> bool {
    name matches Some(n) && text::inside_any_case(wanted, n@)
}

/// What is said where no device fits: which ones there are.
pub open spec fn not_found(
    direction: Direction,
    wanted: Seq<char>,
    names: Seq<Option<String>>,
) -> Seq<char> {
    "no "@ + direction.word() + " device matching "@ + text::quoted(wanted) + ". Available: "@ + (
    if readable(names).len() == 0 {
        "none"@
    } else {
        text::joined(readable(names), ", "@)
    })
}

/// Finds a device by case-insensitive substring, or takes the default when
/// `wanted` is `None`.
pub fn find_device(
    direction: Direction,
    wanted: Option<&str>,
    has_default: bool,
    names: &[Option<String>],
) -> (r: Result<Pick, String>)
    ensures
        match wanted {
            None => if has_default {
                r == Ok::<Pick, String>(Pick::Default)
            } else {
                r matches Err(message) && message@ == "no default "@ + direction.word()
                    + " device"@
            },
            Some(w) => match r {
                Ok(pick) => pick matches Pick::Listed(i) && i < names@.len() && fits(
                    names@[i as int],
                    w@,
                ) && forall|j: int| 0 <= j < i ==> !fits(#[trigger] names@[j], w@),
                Err(message) => message@ == not_found(direction, w@, names@) && forall|j: int|
                    0 <= j < names@.len() ==> !fits(#[trigger] names@[j], w@),
            },
        },
{
    let needle = match wanted {
        Some(w) => w,
        None => {
            if has_default {
                return Ok(Pick::Default);
            }
            let mut message = "no default ".to_owned();
            message.append(direction.label());
            message.append(" device");
            return Err(message);
        },
    };
    let mut i: usize = 0;
    while i < names.len()
        invariant
            i <= names@.len(),
            wanted == Some(needle),
            forall|j: int| 0 <= j < i ==> !fits(#[trigger] names@[j], needle@),
        decreases names@.len() - i,
    {
        if let Some(name) = &names[i] {
            if text::is_inside_any_case(needle, name.as_str()) {
                assert(fits(names@[i as int], needle@));
                return Ok(Pick::Listed(i));
            }
        }
        i = i + 1;
    }
    let available = list_devices(names);
    let mut message = "no ".to_owned();
    message.append(direction.label());
    message.append(" device matching ");
    text::push_quoted(&mut message, needle);
    message.append(". Available: ");
    assert(available@.len() == texts(available@).len());
    if available.len() == 0 {
        message.append("none");
    } else {
        text::push_joined(&mut message, available.as_slice(), ", ");
    }
    assert(message@ =~= not_found(direction, needle@, names@));
    Err(message)
}

/// A one-line summary of the current defaults, for the startup log.
pub fn describe_default_devices(input: Option<&str>, output: Option<&str>) -> (line: String)
    ensures
        line@ == "default input "@ + text::quoted(name_or_none(input)) + ", default output "@
            + text::quoted(name_or_none(output)),
{
    let mut line = "default input ".to_owned();
    text::push_quoted(
        &mut line,
        match input {
            Some(name) => name,
            None => "none",
        },
    );
    line.append(", default output ");
    text::push_quoted(
        &mut line,
        match output {
            Some(name) => name,
            None => "none",
        },
    );
    line
}

/// A device's name, or that there is none.
pub open spec fn name_or_none(name: Option<&str>) -> Seq<char> {
    match name {
        Some(n) => n@,
        None => "none"@,
    }
}

/// Every device whose name can be read is listed, in its place, and no other.
pub proof fn every_readable_name_is_listed(a: Seq<Option<String>>, b: Seq<Option<String>>)
    ensures
        readable(a + b) == readable(a) + readable(b),
        a.len() == 1 ==> readable(a) == match a[0] {
            Some(name) => seq![name@],
            None => Seq::<Seq<char>>::empty(),
        },
    decreases b.len(),
{
    if a.len() == 1 {
        assert(a.drop_last() =~= Seq::<Option<String>>::empty());
        assert(readable(a.drop_last()) =~= Seq::<Seq<char>>::empty());
        assert(readable(a) =~= match a[0] {
            Some(name) => seq![name@],
            None => Seq::<Seq<char>>::empty(),
        });
    }
    if b.len() == 0 {
        assert(a + b =~= a);
        assert(readable(a) + readable(b) =~= readable(a));
    } else {
        every_readable_name_is_listed(a, b.drop_last());
        assert((a + b).drop_last() =~= a + b.drop_last());
        assert(readable(a + b) =~= readable(a) + readable(b));
    }
}

/// A device is one that was asked for where its name holds the words, in any case,
/// and never where its name cannot be read.
pub proof fn a_device_is_found_by_part_of_its_name(name: Option<String>, wanted: Seq<char>)
    ensures
        name is None ==> !fits(name, wanted),
        name matches Some(n) ==> (fits(name, wanted) <==> text::inside_any_case(wanted, n@)),
{
}

/// Where no device fits, those that there are are named, all of them.
pub proof fn what_there_is_is_named(
    direction: Direction,
    wanted: Seq<char>,
    names: Seq<Option<String>>,
)
    ensures
        ({
            let start = "no "@ + (if direction == Direction::Input {
                "input"@
            } else {
                "output"@
            }) + " device matching "@ + text::quoted(wanted) + ". Available: "@;
            &&& readable(names).len() == 0 ==> not_found(direction, wanted, names) == start
                + "none"@
            &&& readable(names).len() > 0 ==> not_found(direction, wanted, names) == start
                + text::joined(readable(names), ", "@)
        }),
{
}

/// A device is called by its name, and one that is not there is called none.
pub proof fn a_missing_device_is_called_none(name: Option<&str>)
    ensures
        name matches Some(n) ==> name_or_none(name) == n@,
        name is None ==> name_or_none(name) == "none"@,
{
}

} // verus!
