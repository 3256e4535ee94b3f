//! Working out which playback device feeds which microphone.
//!
//! A virtual audio cable is two devices that are internally joined: to make audio
//! appear on a microphone, you render into the playback half, and the game then
//! selects the recording half. The pairing is structural, not a list of product
//! names.

use vstd::prelude::*;

use crate::text::{self, texts};

verus! {

/// A way to make audio appear on a microphone.
#[derive(Debug, Clone, PartialEq, Eq)]
pub struct MicRoute {
    /// The recording device a game selects as its microphone.
    pub game_mic: String,
    /// The playback device to render into so audio reaches `game_mic`.
    pub render_into: String,
    /// How the two were matched.
    pub how: Pairing,
}

/// How a microphone was matched to a playback device.
#[derive(Debug, Clone, Copy, PartialEq, Eq, Structural)]
pub enum Pairing {
    /// The names differ only by Output/Input: strong evidence of a cable.
    NamedPair,
    /// One device carries the same name in both directions. Weaker: so does
    /// every duplex audio interface.
    SameName,
}

impl Pairing {
    /// True when the pairing is confident enough to choose without being asked.
    pub fn is_reliable(self) -> (yes: bool)
        ensures
            yes == (self == Pairing::NamedPair),
    {
        matches!(self, Pairing::NamedPair)
    }

    /// The pairing in words.
    pub open spec fn words(self) -> Seq<char> {
        match self {
            Pairing::NamedPair => "matched as an Input/Output pair"@,
            Pairing::SameName =>
                "same name in both directions — may be a duplex interface rather than a cable"@,
        }
    }

    pub fn describe(self) -> (words: &'static str)
        ensures
            words@ == self.words(),
    {
        match self {
            Pairing::NamedPair => "matched as an Input/Output pair",
            Pairing::SameName =>
                "same name in both directions — may be a duplex interface rather than a cable",
        }
    }
}

/// What a [`MicRoute`] says.
pub struct RouteView {
    pub game_mic: Seq<char>,
    pub render_into: Seq<char>,
    pub how: Pairing,
}

impl View for MicRoute {
    type V = RouteView;

    open spec fn view(&self) -> RouteView {
        RouteView { game_mic: self.game_mic@, render_into: self.render_into@, how: self.how }
    }
}

/// Several routes, by what they say.
pub open spec fn route_views(routes: Seq<MicRoute>) -> Seq<RouteView> {
    routes.map_values(|r: MicRoute| r@)
}

/// `from` stands in a name from `at` on, the case of letters aside: each character
/// has the same lower case as its counterpart.
pub open spec fn stands_at(name: Seq<char>, from: Seq<char>, at: int) -> bool {
    &&& 0 <= at <= name.len() - from.len()
    &&& forall|k: int|
        0 <= k < from.len() ==> text::letter_case(#[trigger] name[at + k]) == text::letter_case(
            from[k],
        )
}

/// Where `from` stands in a name from `at` on for the first time, the case of
/// letters aside.
pub open spec fn place(name: Seq<char>, from: Seq<char>, at: int) -> Option<int>
    decreases name.len() - at,
{
    if at < 0 || at > name.len() - from.len() {
        None
    } else if stands_at(name, from, at) {
        Some(at)
    } else {
        place(name, from, at + 1)
    }
}

/// A name with the first `from`, the case of letters aside, replaced by `to`.
pub open spec fn swapped(name: Seq<char>, from: Seq<char>, to: Seq<char>) -> Option<Seq<char>> {
    match place(name, from, 0) {
        Some(at) => Some(name.take(at) + to + name.skip((at + from.len()) as int)),
        None => None,
    }
}

/// The lower case of each character of a text.
fn letters(s: &str) -> (cases: Vec<String>)
    ensures
        cases@.len() == s@.len(),
        forall|i: int| 0 <= i < s@.len() ==> (#[trigger] cases@[i])@ == text::letter_case(s@[i]),
{
    let chars = text::chars_of(s);
    let mut cases: Vec<String> = Vec::new();
    while cases.len() < chars.len()
        invariant
            chars@ == s@,
            cases@.len() <= chars@.len(),
            forall|i: int|
                0 <= i < cases@.len() ==> (#[trigger] cases@[i])@ == text::letter_case(s@[i]),
        decreases chars@.len() - cases@.len(),
    {
        let case = text::lower_one(chars[cases.len()]);
        cases.push(case);
    }
    cases
}

/// Swaps the first case-insensitive occurrence of `from` for `to`. Only the
/// first, so that a trailing product name is left alone.
pub fn swap_first(name: &str, from: &str, to: &str) -> (r: Option<String>)
    ensures
        match swapped(name@, from@, to@) {
            Some(s) => r matches Some(out) && out@ == s,
            None => r is None,
        },
{
    let chars = text::chars_of(name);
    let hay = letters(name);
    let needle = letters(from);
    let mut at: usize = 0;
    while hay.len() - at >= needle.len()
        invariant
            at <= hay@.len(),
            hay@.len() == hay.len(),
            needle@.len() == needle.len(),
            chars@ == name@,
            hay@.len() == name@.len(),
            needle@.len() == from@.len(),
            forall|i: int|
                0 <= i < name@.len() ==> (#[trigger] hay@[i])@ == text::letter_case(name@[i]),
            forall|i: int|
                0 <= i < from@.len() ==> (#[trigger] needle@[i])@ == text::letter_case(from@[i]),
            place(name@, from@, 0) == place(name@, from@, at as int),
        decreases hay@.len() - at,
    {
        if letters_match(hay.as_slice(), at, needle.as_slice()) {
            assert forall|k: int| 0 <= k < from@.len() implies text::letter_case(
                #[trigger] name@[at + k],
            ) == text::letter_case(from@[k]) by {
                assert(hay@[at + k]@ == needle@[k]@);
            }
            assert(stands_at(name@, from@, at as int));
            let mut out = String::new();
            text::push_chars(&mut out, &chars.as_slice()[0..at]);
            out.append(to);
            text::push_chars(&mut out, &chars.as_slice()[at + needle.len()..chars.len()]);
            assert(out@ =~= name@.take(at as int) + to@ + name@.skip(at + from@.len()));
            return Some(out);
        }
        proof {
            let k = choose|k: int|
                0 <= k < needle@.len() && (#[trigger] hay@[at + k])@ != needle@[k]@;
            assert(text::letter_case(name@[at + k]) != text::letter_case(from@[k]));
            assert(!stands_at(name@, from@, at as int));
        }
        at = at + 1;
    }
    None
}

/// Whether the characters of `needle` stand in `hay` from `at` on.
fn letters_match(hay: &[String], at: usize, needle: &[String]) -> (yes: bool)
    requires
        at + needle@.len() <= hay@.len(),
    ensures
        yes ==> forall|k: int|
            0 <= k < needle@.len() ==> (#[trigger] hay@[at + k])@ == needle@[k]@,
        !yes ==> exists|k: int|
            0 <= k < needle@.len() && (#[trigger] hay@[at + k])@ != needle@[k]@,
{
    assert(hay@.len() == hay.len() && needle@.len() == needle.len());
    let mut k: usize = 0;
    while k < needle.len()
        invariant
            k <= needle@.len(),
            at + needle@.len() <= hay@.len(),
            hay@.len() == hay.len(),
            needle@.len() == needle.len(),
            forall|j: int| 0 <= j < k ==> (#[trigger] hay@[at + j])@ == needle@[j]@,
        decreases needle@.len() - k,
    {
        if hay[at + k] != needle[k] {
            assert(hay@[at + k]@ != needle@[k as int]@);
            return false;
        }
        k = k + 1;
    }
    true
}

/// The first of several texts that a test holds of.
pub open spec fn first_where(all: Seq<Seq<char>>, test: spec_fn(Seq<char>) -> bool) -> Option<
    Seq<char>,
>
    decreases all.len(),
{
    if all.len() == 0 {
        None
    } else if test(all[0]) {
        Some(all[0])
    } else {
        first_where(all.skip(1), test)
    }
}

/// The first text that a test holds of is one before which it holds of none.
proof fn first_where_is(all: Seq<Seq<char>>, test: spec_fn(Seq<char>) -> bool, at: int)
    requires
        0 <= at < all.len(),
        test(all[at]),
        forall|j: int| 0 <= j < at ==> !test(#[trigger] all[j]),
    ensures
        first_where(all, test) == Some(all[at]),
    decreases all.len(),
{
    if at > 0 {
        let rest = all.skip(1);
        assert(!test(all[0]));
        assert forall|j: int| 0 <= j < at - 1 implies !test(#[trigger] rest[j]) by {
            assert(rest[j] == all[j + 1]);
        }
        assert(rest[at - 1] == all[at]);
        first_where_is(rest, test, at - 1);
    }
}

/// No text is first where the test holds of none.
proof fn first_where_none(all: Seq<Seq<char>>, test: spec_fn(Seq<char>) -> bool)
    requires
        forall|j: int| 0 <= j < all.len() ==> !test(#[trigger] all[j]),
    ensures
        first_where(all, test) is None,
    decreases all.len(),
{
    if all.len() > 0 {
        let rest = all.skip(1);
        assert(!test(all[0]));
        assert forall|j: int| 0 <= j < rest.len() implies !test(#[trigger] rest[j]) by {
            assert(rest[j] == all[j + 1]);
        }
        first_where_none(rest, test);
    }
}

/// A text up to the first bracket that a space comes before.
pub open spec fn before_bracket(s: Seq<char>) -> Seq<char>
    decreases s.len(),
{
    if s.len() < 2 {
        s
    } else if s[0] == ' ' && s[1] == '(' {
        seq![]
    } else {
        seq![s[0]] + before_bracket(s.skip(1))
    }
}

/// The leading part of a device's name, in lower case: what comes before a
/// suffix in brackets.
pub open spec fn leading_name(wanted: Seq<char>) -> Seq<char> {
    text::in_lower_case(text::trimmed(before_bracket(wanted)))
}

/// The device with a name: one that has it, the case of ASCII letters aside, or
/// else one whose name starts with the leading part of it.
pub open spec fn named(wanted: Seq<char>, devices: Seq<Seq<char>>) -> Option<Seq<char>> {
    match first_where(devices, |name: Seq<char>| text::same_ascii(name, wanted)) {
        Some(found) => Some(found),
        None => if leading_name(wanted).len() == 0 {
            None
        } else {
            first_where(
                devices,
                |name: Seq<char>| leading_name(wanted).is_prefix_of(text::in_lower_case(name)),
            )
        },
    }
}

/// The characters up to the first bracket that a space comes before.
fn cut_bracket(chars: &[char]) -> (end: usize)
    ensures
        end <= chars@.len(),
        chars@.take(end as int) == before_bracket(chars@),
{
    let mut i: usize = 0;
    assert(chars@.skip(0) =~= chars@);
    assert(chars@.take(0) + before_bracket(chars@) =~= before_bracket(chars@));
    while chars.len() - i >= 2
        invariant
            i <= chars@.len(),
            chars@.len() == chars.len(),
            before_bracket(chars@) == chars@.take(i as int) + before_bracket(
                chars@.skip(i as int),
            ),
        decreases chars@.len() - i,
    {
        let ghost rest = chars@.skip(i as int);
        if chars[i] == ' ' && chars[i + 1] == '(' {
            assert(before_bracket(rest) =~= Seq::<char>::empty());
            assert(chars@.take(i as int) + Seq::<char>::empty() =~= chars@.take(i as int));
            return i;
        }
        assert(rest.skip(1) =~= chars@.skip(i + 1));
        assert(chars@.take(i as int) + (seq![rest[0]] + before_bracket(rest.skip(1)))
            =~= chars@.take(i + 1) + before_bracket(rest.skip(1)));
        i = i + 1;
    }
    assert(chars@.take(i as int) + chars@.skip(i as int) =~= chars@);
    assert(chars@.take(chars@.len() as int) =~= chars@);
    chars.len()
}

/// Whether a text starts with another.
fn starts_with(s: &str, prefix: &str) -> (yes: bool)
    ensures
        yes == prefix@.is_prefix_of(s@),
{
    let p = text::chars_of(prefix);
    let c = text::chars_of(s);
    if p.len() > c.len() {
        return false;
    }
    let mut i: usize = 0;
    while i < p.len()
        invariant
            i <= p@.len() <= c@.len(),
            p@ == prefix@,
            c@ == s@,
            forall|j: int| 0 <= j < i ==> p@[j] == c@[j],
        decreases p@.len() - i,
    {
        if p[i] != c[i] {
            assert(c@.subrange(0, p@.len() as int)[i as int] != p@[i as int]);
            return false;
        }
        i = i + 1;
    }
    assert(c@.subrange(0, p@.len() as int) =~= p@);
    true
}

/// Finds the device whose name matches `wanted`, falling back to the part before
/// a suffix in brackets: the two halves of a cable are not always decorated
/// alike.
pub fn find_device_named(wanted: &str, devices: &[String]) -> (r: Option<String>)
    ensures
        match named(wanted@, texts(devices@)) {
            Some(name) => r matches Some(out) && out@ == name,
            None => r is None,
        },
{
    let ghost names = texts(devices@);
    let ghost same = |name: Seq<char>| text::same_ascii(name, wanted@);
    let mut i: usize = 0;
    while i < devices.len()
        invariant
            i <= devices@.len(),
            names == texts(devices@),
            same == (|name: Seq<char>| text::same_ascii(name, wanted@)),
            forall|j: int| 0 <= j < i ==> !same(#[trigger] names[j]),
        decreases devices@.len() - i,
    {
        assert(names[i as int] == devices@[i as int]@);
        if text::is_same_ascii(devices[i].as_str(), wanted) {
            proof {
                first_where_is(names, same, i as int);
            }
            return Some(devices[i].clone());
        }
        i = i + 1;
    }
    proof {
        first_where_none(names, same);
    }
    let chars = text::chars_of(wanted);
    let end: usize = cut_bracket(chars.as_slice());
    let lead = text::trim(&chars.as_slice()[0..end]);
    assert(chars@.subrange(0, end as int) =~= chars@.take(end as int));
    let prefix = text::lower_case(lead.as_str());
    if prefix.as_str().is_empty() {
        return None;
    }
    let ghost leads = |name: Seq<char>|
        leading_name(wanted@).is_prefix_of(text::in_lower_case(name));
    let mut k: usize = 0;
    while k < devices.len()
        invariant
            k <= devices@.len(),
            names == texts(devices@),
            prefix@ == leading_name(wanted@),
            prefix@.len() > 0,
            first_where(names, same) is None,
            same == (|name: Seq<char>| text::same_ascii(name, wanted@)),
            leads == (|name: Seq<char>|
                leading_name(wanted@).is_prefix_of(text::in_lower_case(name))),
            forall|j: int| 0 <= j < k ==> !leads(#[trigger] names[j]),
        decreases devices@.len() - k,
    {
        assert(names[k as int] == devices@[k as int]@);
        let low = text::lower_case(devices[k].as_str());
        if starts_with(low.as_str(), prefix.as_str()) {
            proof {
                first_where_is(names, leads, k as int);
            }
            return Some(devices[k].clone());
        }
        k = k + 1;
    }
    proof {
        first_where_none(names, leads);
    }
    None
}

/// The playback half of a microphone by the strong rule: "X Output" is fed by
/// "X Input".
pub open spec fn partner(mic: Seq<char>, outputs: Seq<Seq<char>>) -> Option<Seq<char>> {
    match swapped(mic, "output"@, "Input"@) {
        Some(candidate) => if !text::same_ascii(candidate, mic) {
            named(candidate, outputs)
        } else {
            None
        },
        None => None,
    }
}

/// How audio gets onto one microphone, if it can.
pub open spec fn route_of(mic: Seq<char>, outputs: Seq<Seq<char>>) -> Option<RouteView> {
    match partner(mic, outputs) {
        Some(render_into) => Some(
            RouteView { game_mic: mic, render_into, how: Pairing::NamedPair },
        ),
        None => match first_where(outputs, |name: Seq<char>| text::same_ascii(name, mic)) {
            Some(render_into) => Some(
                RouteView { game_mic: mic, render_into, how: Pairing::SameName },
            ),
            None => None,
        },
    }
}

/// The routes of one kind, in the order of the microphones.
pub open spec fn routes_of_kind(
    inputs: Seq<Seq<char>>,
    outputs: Seq<Seq<char>>,
    how: Pairing,
) -> Seq<RouteView>
    decreases inputs.len(),
{
    if inputs.len() == 0 {
        seq![]
    } else {
        let before = routes_of_kind(inputs.drop_last(), outputs, how);
        match route_of(inputs.last(), outputs) {
            Some(route) => if route.how == how {
                before.push(route)
            } else {
                before
            },
            None => before,
        }
    }
}

/// Every route, the reliable ones first.
pub open spec fn all_routes(inputs: Seq<Seq<char>>, outputs: Seq<Seq<char>>) -> Seq<RouteView> {
    routes_of_kind(inputs, outputs, Pairing::NamedPair) + routes_of_kind(
        inputs,
        outputs,
        Pairing::SameName,
    )
}

/// The playback half of one microphone by the strong rule.
fn find_partner(mic: &str, outputs: &[String]) -> (r: Option<String>)
    ensures
        match partner(mic@, texts(outputs@)) {
            Some(name) => r matches Some(out) && out@ == name,
            None => r is None,
        },
{
    match swap_first(mic, "output", "Input") {
        Some(candidate) => {
            if text::is_same_ascii(candidate.as_str(), mic) {
                None
            } else {
                find_device_named(candidate.as_str(), outputs)
            }
        },
        None => None,
    }
}

/// The output with the same name as a microphone, the case of ASCII letters
/// aside.
fn find_same(mic: &str, outputs: &[String]) -> (r: Option<String>)
    ensures
        match first_where(texts(outputs@), |name: Seq<char>| text::same_ascii(name, mic@)) {
            Some(name) => r matches Some(out) && out@ == name,
            None => r is None,
        },
{
    let ghost names = texts(outputs@);
    let ghost same = |name: Seq<char>| text::same_ascii(name, mic@);
    let mut i: usize = 0;
    while i < outputs.len()
        invariant
            i <= outputs@.len(),
            names == texts(outputs@),
            same == (|name: Seq<char>| text::same_ascii(name, mic@)),
            forall|j: int| 0 <= j < i ==> !same(#[trigger] names[j]),
        decreases outputs@.len() - i,
    {
        assert(names[i as int] == outputs@[i as int]@);
        if text::is_same_ascii(outputs[i].as_str(), mic) {
            proof {
                first_where_is(names, same, i as int);
            }
            return Some(outputs[i].clone());
        }
        i = i + 1;
    }
    proof {
        first_where_none(names, same);
    }
    None
}

/// Every way of getting audio onto a microphone on this machine, given its
/// devices. Reliable pairings come first, so that a caller can take the head of
/// the list as a default.
pub fn routes(inputs: &[String], outputs: &[String]) -> (routes: Vec<MicRoute>)
    ensures
        route_views(routes@) == all_routes(texts(inputs@), texts(outputs@)),
{
    let mut strong: Vec<MicRoute> = Vec::new();
    let mut weak: Vec<MicRoute> = Vec::new();
    let ghost mics = texts(inputs@);
    let ghost outs = texts(outputs@);
    let mut i: usize = 0;
    assert(mics.take(0) =~= Seq::<Seq<char>>::empty());
    assert(route_views(strong@) =~= Seq::<RouteView>::empty());
    while i < inputs.len()
        invariant
            i <= inputs@.len(),
            mics == texts(inputs@),
            outs == texts(outputs@),
            route_views(strong@) == routes_of_kind(mics.take(i as int), outs, Pairing::NamedPair),
            route_views(weak@) == routes_of_kind(mics.take(i as int), outs, Pairing::SameName),
        decreases inputs@.len() - i,
    {
        let mic = inputs[i].as_str();
        assert(mics.take(i + 1).drop_last() =~= mics.take(i as int));
        assert(mics.take(i + 1).last() == mic@);
        let ghost s = strong@;
        let ghost w = weak@;
        match find_partner(mic, outputs) {
            Some(render_into) => {
                let route = MicRoute {
                    game_mic: mic.to_owned(),
                    render_into,
                    how: Pairing::NamedPair,
                };
                strong.push(route);
                assert(route_views(strong@) =~= route_views(s).push(route@));
            },
            None => {
                if let Some(render_into) = find_same(mic, outputs) {
                    let route = MicRoute {
                        game_mic: mic.to_owned(),
                        render_into,
                        how: Pairing::SameName,
                    };
                    weak.push(route);
                    assert(route_views(weak@) =~= route_views(w).push(route@));
                }
            },
        }
        i = i + 1;
    }
    assert(mics.take(i as int) =~= mics);
    let ghost s = strong@;
    let ghost w = weak@;
    strong.append(&mut weak);
    assert(route_views(strong@) =~= route_views(s) + route_views(w));
    strong
}

/// [`routes`] of the devices whose names can be read.
pub fn detect(inputs: &[Option<String>], outputs: &[Option<String>]) -> (found: Vec<MicRoute>)
    ensures
        route_views(found@) == all_routes(
            crate::audio::devices::readable(inputs@),
            crate::audio::devices::readable(outputs@),
        ),
{
    let ins = crate::audio::devices::list_devices(inputs);
    let outs = crate::audio::devices::list_devices(outputs);
    routes(ins.as_slice(), outs.as_slice())
}

/// The first route whose playback half is `render_into`, the case of ASCII
/// letters aside.
pub open spec fn route_into(render_into: Seq<char>, routes: Seq<RouteView>) -> Option<RouteView>
    decreases routes.len(),
{
    if routes.len() == 0 {
        None
    } else if text::same_ascii(routes[0].render_into, render_into) {
        Some(routes[0])
    } else {
        route_into(render_into, routes.skip(1))
    }
}

/// The first route whose playback half is `render_into`, the case of ASCII
/// letters aside: which microphone a game must select, given that one renders
/// there.
pub fn route_for_render_device(render_into: &str, routes: &[MicRoute]) -> (r: Option<MicRoute>)
    ensures
        match route_into(render_into@, route_views(routes@)) {
            Some(view) => r matches Some(route) && route@ == view,
            None => r is None,
        },
{
    let ghost views = route_views(routes@);
    let mut i: usize = 0;
    assert(views.skip(0) =~= views);
    while i < routes.len()
        invariant
            i <= routes@.len(),
            views == route_views(routes@),
            route_into(render_into@, views) == route_into(render_into@, views.skip(i as int)),
        decreases routes@.len() - i,
    {
        assert(views.skip(i as int)[0] == routes@[i as int]@);
        assert(views.skip(i as int).skip(1) =~= views.skip(i + 1));
        if text::is_same_ascii(routes[i].render_into.as_str(), render_into) {
            let route = MicRoute {
                game_mic: routes[i].game_mic.clone(),
                render_into: routes[i].render_into.clone(),
                how: routes[i].how,
            };
            assert(routes@[i as int]@ == route@);
            return Some(route);
        }
        i = i + 1;
    }
    None
}

/// Routes of a kind are of that kind.
proof fn kind_of_routes(
    inputs: Seq<Seq<char>>,
    outputs: Seq<Seq<char>>,
    how: Pairing,
    i: int,
)
    requires
        0 <= i < routes_of_kind(inputs, outputs, how).len(),
    ensures
        routes_of_kind(inputs, outputs, how)[i].how == how,
    decreases inputs.len(),
{
    if i < routes_of_kind(inputs.drop_last(), outputs, how).len() {
        kind_of_routes(inputs.drop_last(), outputs, how, i);
    }
}

/// No route that may be a duplex interface is listed before a reliable one.
pub proof fn reliable_routes_are_listed_first(
    inputs: Seq<Seq<char>>,
    outputs: Seq<Seq<char>>,
    i: int,
    j: int,
)
    requires
        0 <= i < j < all_routes(inputs, outputs).len(),
        all_routes(inputs, outputs)[j].how == Pairing::NamedPair,
    ensures
        all_routes(inputs, outputs)[i].how == Pairing::NamedPair,
{
    let strong = routes_of_kind(inputs, outputs, Pairing::NamedPair);
    if j >= strong.len() {
        kind_of_routes(inputs, outputs, Pairing::SameName, j - strong.len());
    }
    kind_of_routes(inputs, outputs, Pairing::NamedPair, i);
}

/// A playback device that a route names is one that the machine has.
pub proof fn routes_render_into_real_outputs(
    inputs: Seq<Seq<char>>,
    outputs: Seq<Seq<char>>,
    how: Pairing,
    i: int,
)
    requires
        0 <= i < routes_of_kind(inputs, outputs, how).len(),
    ensures
        outputs.contains(routes_of_kind(inputs, outputs, how)[i].render_into),
        inputs.contains(routes_of_kind(inputs, outputs, how)[i].game_mic),
    decreases inputs.len(),
{
    let rest = inputs.drop_last();
    if i < routes_of_kind(rest, outputs, how).len() {
        routes_render_into_real_outputs(rest, outputs, how, i);
        let mic = routes_of_kind(rest, outputs, how)[i].game_mic;
        let k = choose|k: int| 0 <= k < rest.len() && rest[k] == mic;
        assert(inputs[k] == mic);
    } else {
        let mic = inputs.last();
        assert(inputs[inputs.len() - 1] == mic);
        if let Some(candidate) = swapped(mic, "output"@, "Input"@) {
            first_where_is_a_member(
                outputs,
                |name: Seq<char>| text::same_ascii(name, candidate),
            );
            first_where_is_a_member(
                outputs,
                |name: Seq<char>| leading_name(candidate).is_prefix_of(text::in_lower_case(name)),
            );
        }
        first_where_is_a_member(outputs, |name: Seq<char>| text::same_ascii(name, mic));
    }
}

proof fn first_where_is_a_member(all: Seq<Seq<char>>, test: spec_fn(Seq<char>) -> bool)
    ensures
        first_where(all, test) matches Some(found) ==> all.contains(found),
    decreases all.len(),
{
    if all.len() > 0 {
        if test(all[0]) {
            assert(all[0] == all[0]);
        } else {
            first_where_is_a_member(all.skip(1), test);
            if let Some(found) = first_where(all.skip(1), test) {
                let k = choose|k: int| 0 <= k < all.skip(1).len() && all.skip(1)[k] == found;
                assert(all[k + 1] == found);
            }
        }
    }
}

/// The first route into a device is found, the case of ASCII letters aside, wherever
/// it stands in the list, and none where no route leads there.
pub proof fn the_first_route_into_a_device_is_found(render_into: Seq<char>, routes: Seq<RouteView>)
    ensures
        match route_into(render_into, routes) {
            Some(route) => exists|i: int|
                {
                    &&& 0 <= i < routes.len()
                    &&& routes[i] == route
                    &&& #[trigger] text::same_ascii(routes[i].render_into, render_into)
                    &&& forall|j: int|
                        0 <= j < i ==> !#[trigger] text::same_ascii(
                            routes[j].render_into,
                            render_into,
                        )
                },
            None => forall|j: int|
                0 <= j < routes.len() ==> !#[trigger] text::same_ascii(
                    routes[j].render_into,
                    render_into,
                ),
        },
    decreases routes.len(),
{
    if routes.len() > 0 {
        let rest = routes.skip(1);
        if text::same_ascii(routes[0].render_into, render_into) {
        } else {
            the_first_route_into_a_device_is_found(render_into, rest);
            match route_into(render_into, rest) {
                Some(route) => {
                    let i = choose|i: int|
                        {
                            &&& 0 <= i < rest.len()
                            &&& rest[i] == route
                            &&& #[trigger] text::same_ascii(rest[i].render_into, render_into)
                            &&& forall|j: int|
                                0 <= j < i ==> !#[trigger] text::same_ascii(
                                    rest[j].render_into,
                                    render_into,
                                )
                        };
                    assert(routes[i + 1] == route);
                    assert(text::same_ascii(routes[i + 1].render_into, render_into));
                    assert forall|j: int| 0 <= j < i + 1 implies !#[trigger] text::same_ascii(
                        routes[j].render_into,
                        render_into,
                    ) by {
                        if j > 0 {
                            assert(rest[j - 1] == routes[j]);
                            assert(!text::same_ascii(rest[j - 1].render_into, render_into));
                        }
                    }
                },
                None => {
                    assert forall|j: int|
                        0 <= j < routes.len() implies !#[trigger] text::same_ascii(
                        routes[j].render_into,
                        render_into,
                    ) by {
                        if j > 0 {
                            assert(rest[j - 1] == routes[j]);
                            assert(!text::same_ascii(rest[j - 1].render_into, render_into));
                        }
                    }
                },
            }
        }
    }
}

/// The first text that a test holds of is found, wherever it stands; none is where
/// it holds of none.
pub proof fn the_first_that_passes_is_found(
    all: Seq<Seq<char>>,
    test: spec_fn(Seq<char>) -> bool,
)
    ensures
        match first_where(all, test) {
            Some(found) => exists|i: int|
                {
                    &&& 0 <= i < all.len()
                    &&& #[trigger] all[i] == found
                    &&& test(all[i])
                    &&& forall|j: int| 0 <= j < i ==> !test(#[trigger] all[j])
                },
            None => forall|j: int| 0 <= j < all.len() ==> !test(#[trigger] all[j]),
        },
    decreases all.len(),
{
    if all.len() > 0 {
        if test(all[0]) {
            assert(all[0] == first_where(all, test)->Some_0);
        } else {
            let rest = all.skip(1);
            the_first_that_passes_is_found(rest, test);
            match first_where(rest, test) {
                Some(found) => {
                    let i = choose|i: int|
                        {
                            &&& 0 <= i < rest.len()
                            &&& #[trigger] rest[i] == found
                            &&& test(rest[i])
                            &&& forall|j: int| 0 <= j < i ==> !test(#[trigger] rest[j])
                        };
                    assert(all[i + 1] == found);
                    assert forall|j: int| 0 <= j < i + 1 implies !test(#[trigger] all[j]) by {
                        if j > 0 {
                            assert(rest[j - 1] == all[j]);
                        }
                    }
                },
                None => {
                    assert forall|j: int| 0 <= j < all.len() implies !test(#[trigger] all[j]) by {
                        if j > 0 {
                            assert(rest[j - 1] == all[j]);
                        }
                    }
                },
            }
        }
    }
}

/// The word that is swapped is the first one that is there, the case of letters
/// aside: it stands where it was found, nowhere before, and all else of the name
/// stays as it is. Where it stands nowhere, nothing is swapped.
pub proof fn the_first_word_is_swapped(name: Seq<char>, from: Seq<char>, to: Seq<char>)
    ensures
        match swapped(name, from, to) {
            Some(out) => exists|at: int|
                {
                    &&& 0 <= at <= name.len() - from.len()
                    &&& #[trigger] stands_at(name, from, at)
                    &&& forall|before: int|
                        0 <= before < at ==> !#[trigger] stands_at(name, from, before)
                    &&& out == name.take(at) + to + name.skip(at + from.len())
                },
            None => forall|at: int| !#[trigger] stands_at(name, from, at),
        },
{
    first_place(name, from, 0);
}

proof fn first_place(name: Seq<char>, from: Seq<char>, start: int)
    requires
        0 <= start,
    ensures
        match place(name, from, start) {
            Some(at) => {
                &&& start <= at
                &&& stands_at(name, from, at)
                &&& forall|before: int|
                    start <= before < at ==> !#[trigger] stands_at(name, from, before)
            },
            None => forall|at: int| start <= at ==> !#[trigger] stands_at(name, from, at),
        },
    decreases name.len() - start,
{
    if start <= name.len() - from.len() && !stands_at(name, from, start) {
        first_place(name, from, start + 1);
    }
}

/// A word stands where each of its letters does, in upper or in lower case. Of ASCII
/// letters this is the 32 between their codes, and every character stands for
/// itself.
pub proof fn a_word_stands_where_its_letters_do(name: Seq<char>, from: Seq<char>, at: int)
    requires
        0 <= at <= name.len() - from.len(),
    ensures
        name.subrange(at, at + from.len()) == from ==> stands_at(name, from, at),
        text::ascii(name) && text::ascii(from) ==> (stands_at(name, from, at) <==> text::same_ascii(
            name.subrange(at, at + from.len()),
            from,
        )),
{
    let part = name.subrange(at, at + from.len());
    if part == from {
        assert forall|k: int| 0 <= k < from.len() implies text::letter_case(
            #[trigger] name[at + k],
        ) == text::letter_case(from[k]) by {
            assert(part[k] == name[at + k]);
        }
    }
    if text::ascii(name) && text::ascii(from) {
        assert forall|k: int| 0 <= k < from.len() implies (text::letter_case(
            #[trigger] name[at + k],
        ) == text::letter_case(from[k]) <==> text::ascii_lower(part[k]) == text::ascii_lower(
            from[k],
        )) by {
            assert(part[k] == name[at + k]);
            let a = seq![text::ascii_lower(name[at + k])];
            let b = seq![text::ascii_lower(from[k])];
            assert(a[0] == text::ascii_lower(name[at + k]) && b[0] == text::ascii_lower(from[k]));
        }
        if stands_at(name, from, at) {
            assert forall|k: int| 0 <= k < part.len() implies text::ascii_lower(
                #[trigger] part[k],
            ) == text::ascii_lower(from[k]) by {
                assert(text::letter_case(name[at + k]) == text::letter_case(from[k]));
            }
        }
        if text::same_ascii(part, from) {
            assert forall|k: int| 0 <= k < from.len() implies text::letter_case(
                #[trigger] name[at + k],
            ) == text::letter_case(from[k]) by {
                assert(text::ascii_lower(part[k]) == text::ascii_lower(from[k]));
            }
        }
    }
}

/// A device that is asked for by its name is found, the case of ASCII letters aside,
/// and the first of several; what is found is always one of the devices.
pub proof fn a_device_is_found_by_its_name(wanted: Seq<char>, devices: Seq<Seq<char>>)
    ensures
        named(wanted, devices) matches Some(found) ==> devices.contains(found),
        forall|i: int|
            {
                &&& 0 <= i < devices.len()
                &&& #[trigger] text::same_ascii(devices[i], wanted)
                &&& forall|j: int|
                    0 <= j < i ==> !#[trigger] text::same_ascii(devices[j], wanted)
            } ==> named(wanted, devices) == Some(devices[i]),
        (forall|j: int| 0 <= j < devices.len() ==> !#[trigger] text::same_ascii(devices[j], wanted))
            ==> match named(wanted, devices) {
            Some(found) => exists|i: int|
                {
                    &&& 0 <= i < devices.len()
                    &&& devices[i] == found
                    &&& leading_name(wanted).len() > 0
                    &&& #[trigger] leading_name(wanted).is_prefix_of(
                        text::in_lower_case(devices[i]),
                    )
                    &&& forall|j: int|
                        0 <= j < i ==> !#[trigger] leading_name(wanted).is_prefix_of(
                            text::in_lower_case(devices[j]),
                        )
                },
            None => leading_name(wanted).len() == 0 || forall|j: int|
                0 <= j < devices.len() ==> !#[trigger] leading_name(wanted).is_prefix_of(
                    text::in_lower_case(devices[j]),
                ),
        },
{
    let same = |name: Seq<char>| text::same_ascii(name, wanted);
    let leads = |name: Seq<char>| leading_name(wanted).is_prefix_of(text::in_lower_case(name));
    first_where_is_a_member(devices, same);
    first_where_is_a_member(devices, leads);
    assert forall|i: int|
        {
            &&& 0 <= i < devices.len()
            &&& #[trigger] text::same_ascii(devices[i], wanted)
            &&& forall|j: int| 0 <= j < i ==> !#[trigger] text::same_ascii(devices[j], wanted)
        } implies named(wanted, devices) == Some(devices[i]) by {
        assert forall|j: int| 0 <= j < i implies !same(#[trigger] devices[j]) by {
            assert(!text::same_ascii(devices[j], wanted));
        }
        first_where_is(devices, same, i);
    }
    if forall|j: int| 0 <= j < devices.len() ==> !#[trigger] text::same_ascii(devices[j], wanted) {
        assert forall|j: int| 0 <= j < devices.len() implies !same(#[trigger] devices[j]) by {
            assert(!text::same_ascii(devices[j], wanted));
        }
        first_where_none(devices, same);
        the_first_that_passes_is_found(devices, leads);
        if leading_name(wanted).len() > 0 {
            match first_where(devices, leads) {
                Some(found) => {
                    let i = choose|i: int|
                        {
                            &&& 0 <= i < devices.len()
                            &&& #[trigger] devices[i] == found
                            &&& leads(devices[i])
                            &&& forall|j: int| 0 <= j < i ==> !leads(#[trigger] devices[j])
                        };
                    assert(leading_name(wanted).is_prefix_of(text::in_lower_case(devices[i])));
                    assert forall|j: int| 0 <= j < i implies !#[trigger] leading_name(
                        wanted,
                    ).is_prefix_of(text::in_lower_case(devices[j])) by {
                        assert(!leads(devices[j]));
                    }
                },
                None => {
                    assert forall|j: int| 0 <= j < devices.len() implies !#[trigger] leading_name(
                        wanted,
                    ).is_prefix_of(text::in_lower_case(devices[j])) by {
                        assert(!leads(devices[j]));
                    }
                },
            }
        }
    }
}

/// A name leads up to the first bracket that a space comes before, and is whole
/// where there is none.
pub proof fn a_name_leads_up_to_its_bracket(lead: Seq<char>, rest: Seq<char>)
    requires
        forall|i: int|
            0 <= i < lead.len() - 1 ==> !(#[trigger] lead[i] == ' ' && lead[i + 1] == '('),
    ensures
        before_bracket(lead) == lead,
        before_bracket(lead + seq![' ', '('] + rest) == lead,
    decreases lead.len(),
{
    let whole = lead + seq![' ', '('] + rest;
    if lead.len() == 0 {
        assert(whole[0] == ' ' && whole[1] == '(');
    } else {
        let more = lead.skip(1);
        assert forall|i: int| 0 <= i < more.len() - 1 implies !(#[trigger] more[i] == ' ' && more[i
            + 1] == '(') by {
            assert(more[i] == lead[i + 1]);
        }
        a_name_leads_up_to_its_bracket(more, rest);
        assert(whole.skip(1) =~= more + seq![' ', '('] + rest);
        assert(seq![lead[0]] + more =~= lead);
        assert(whole[0] == lead[0]);
        if lead.len() == 1 {
            assert(whole[1] == ' ');
            assert(before_bracket(more) =~= more);
        } else {
            assert(whole[1] == lead[1]);
            assert(!(lead[0int] == ' ' && lead[0int + 1] == '('));
        }
    }
}

/// How often a route is on a list.
pub open spec fn times_routed(routes: Seq<RouteView>, route: RouteView) -> nat
    decreases routes.len(),
{
    if routes.len() == 0 {
        0
    } else {
        times_routed(routes.drop_last(), route) + if routes.last() == route {
            1nat
        } else {
            0
        }
    }
}

/// How often a name is among several.
pub open spec fn times_listed(names: Seq<Seq<char>>, name: Seq<char>) -> nat
    decreases names.len(),
{
    if names.len() == 0 {
        0
    } else {
        times_listed(names.drop_last(), name) + if names.last() == name {
            1nat
        } else {
            0
        }
    }
}

/// A microphone has a route wherever audio can reach it: by the playback half of its
/// cable, where the outputs have it, and else by an output of its own name.
pub proof fn a_microphone_that_audio_can_reach_has_a_route(
    mic: Seq<char>,
    outputs: Seq<Seq<char>>,
)
    ensures
        route_of(mic, outputs) matches Some(route) ==> {
            &&& route.game_mic == mic
            &&& outputs.contains(route.render_into)
            &&& route.how == Pairing::NamedPair ==> {
                &&& swapped(mic, "output"@, "Input"@) matches Some(half)
                &&& !text::same_ascii(half, mic)
                &&& named(half, outputs) == Some(route.render_into)
            }
            &&& route.how == Pairing::SameName ==> text::same_ascii(route.render_into, mic)
        },
        swapped(mic, "output"@, "Input"@) matches Some(half) && !text::same_ascii(half, mic)
            && named(half, outputs) is Some ==> (route_of(mic, outputs) matches Some(route)
            && route.how == Pairing::NamedPair),
        (exists|i: int|
            0 <= i < outputs.len() && #[trigger] text::same_ascii(outputs[i], mic)) ==> route_of(
            mic,
            outputs,
        ) is Some,
{
    let same = |name: Seq<char>| text::same_ascii(name, mic);
    the_first_that_passes_is_found(outputs, same);
    first_where_is_a_member(outputs, same);
    if let Some(half) = swapped(mic, "output"@, "Input"@) {
        a_device_is_found_by_its_name(half, outputs);
    }
    if exists|i: int| 0 <= i < outputs.len() && #[trigger] text::same_ascii(outputs[i], mic) {
        let i = choose|i: int|
            0 <= i < outputs.len() && #[trigger] text::same_ascii(outputs[i], mic);
        assert(same(outputs[i]));
    }
}

proof fn kind_is_complete(
    inputs: Seq<Seq<char>>,
    outputs: Seq<Seq<char>>,
    how: Pairing,
    route: RouteView,
)
    ensures
        times_routed(routes_of_kind(inputs, outputs, how), route) == if route_of(
            route.game_mic,
            outputs,
        ) == Some(route) && route.how == how {
            times_listed(inputs, route.game_mic)
        } else {
            0
        },
    decreases inputs.len(),
{
    if inputs.len() > 0 {
        let rest = inputs.drop_last();
        kind_is_complete(rest, outputs, how, route);
        let before = routes_of_kind(rest, outputs, how);
        if let Some(last) = route_of(inputs.last(), outputs) {
            a_microphone_that_audio_can_reach_has_a_route(inputs.last(), outputs);
            if last.how == how {
                assert(before.push(last).drop_last() =~= before);
            }
        }
    }
}

proof fn times_routed_adds_up(a: Seq<RouteView>, b: Seq<RouteView>, route: RouteView)
    ensures
        times_routed(a + b, route) == times_routed(a, route) + times_routed(b, route),
    decreases b.len(),
{
    if b.len() == 0 {
        assert(a + b =~= a);
    } else {
        times_routed_adds_up(a, b.drop_last(), route);
        assert((a + b).drop_last() =~= a + b.drop_last());
    }
}

/// Every microphone that audio can reach is listed with its own route, once for each
/// time it is among the inputs, and nothing else is.
pub proof fn every_reachable_microphone_is_listed(
    inputs: Seq<Seq<char>>,
    outputs: Seq<Seq<char>>,
    route: RouteView,
)
    ensures
        times_routed(all_routes(inputs, outputs), route) == if route_of(route.game_mic, outputs)
            == Some(route) {
            times_listed(inputs, route.game_mic)
        } else {
            0
        },
{
    kind_is_complete(inputs, outputs, Pairing::NamedPair, route);
    kind_is_complete(inputs, outputs, Pairing::SameName, route);
    times_routed_adds_up(
        routes_of_kind(inputs, outputs, Pairing::NamedPair),
        routes_of_kind(inputs, outputs, Pairing::SameName),
        route,
    );
}

proof fn a_member_is_listed(names: Seq<Seq<char>>, i: int)
    requires
        0 <= i < names.len(),
    ensures
        times_listed(names, names[i]) > 0,
    decreases names.len(),
{
    if i < names.len() - 1 {
        a_member_is_listed(names.drop_last(), i);
    }
}

proof fn what_is_routed_is_a_member(routes: Seq<RouteView>, route: RouteView)
    requires
        times_routed(routes, route) > 0,
    ensures
        routes.contains(route),
    decreases routes.len(),
{
    if routes.last() == route {
        assert(routes[routes.len() - 1] == route);
    } else {
        what_is_routed_is_a_member(routes.drop_last(), route);
        let k = choose|k: int| 0 <= k < routes.drop_last().len() && routes.drop_last()[k] == route;
        assert(routes[k] == route);
    }
}

/// Each input that has a route of its own is on the list, with that route.
pub proof fn each_input_finds_its_route(inputs: Seq<Seq<char>>, outputs: Seq<Seq<char>>, i: int)
    requires
        0 <= i < inputs.len(),
    ensures
        route_of(inputs[i], outputs) matches Some(route) ==> all_routes(inputs, outputs).contains(
            route,
        ),
        (exists|k: int|
            0 <= k < outputs.len() && #[trigger] text::same_ascii(outputs[k], inputs[i]))
            ==> exists|k: int|
            0 <= k < all_routes(inputs, outputs).len() && #[trigger] all_routes(
                inputs,
                outputs,
            )[k].game_mic == inputs[i],
{
    a_microphone_that_audio_can_reach_has_a_route(inputs[i], outputs);
    if let Some(route) = route_of(inputs[i], outputs) {
        every_reachable_microphone_is_listed(inputs, outputs, route);
        a_member_is_listed(inputs, i);
        what_is_routed_is_a_member(all_routes(inputs, outputs), route);
        let all = all_routes(inputs, outputs);
        let k = choose|k: int| 0 <= k < all.len() && all[k] == route;
        assert(all[k].game_mic == inputs[i]);
    }
}

/// The microphones of a kind are listed in the order in which the machine has them.
pub proof fn microphones_are_listed_in_their_order(
    a: Seq<Seq<char>>,
    b: Seq<Seq<char>>,
    outputs: Seq<Seq<char>>,
    how: Pairing,
)
    ensures
        routes_of_kind(a + b, outputs, how) == routes_of_kind(a, outputs, how) + routes_of_kind(
            b,
            outputs,
            how,
        ),
    decreases b.len(),
{
    if b.len() == 0 {
        assert(a + b =~= a);
        assert(routes_of_kind(a, outputs, how) + routes_of_kind(b, outputs, how)
            =~= routes_of_kind(a, outputs, how));
    } else {
        microphones_are_listed_in_their_order(a, b.drop_last(), outputs, how);
        assert((a + b).drop_last() =~= a + b.drop_last());
        assert(routes_of_kind(a + b, outputs, how) =~= routes_of_kind(a, outputs, how)
            + routes_of_kind(b, outputs, how));
    }
}

/// Routes say what they hold, in their order.
pub proof fn a_route_says_what_it_holds(routes: Seq<MicRoute>)
    ensures
        route_views(routes).len() == routes.len(),
        forall|i: int|
            0 <= i < routes.len() ==> {
                &&& (#[trigger] route_views(routes)[i]).game_mic == routes[i].game_mic@
                &&& route_views(routes)[i].render_into == routes[i].render_into@
                &&& route_views(routes)[i].how == routes[i].how
            },
{
}

/// Each pairing is told in its own words.
pub proof fn each_pairing_has_its_own_words()
    ensures
        Pairing::NamedPair.words() == "matched as an Input/Output pair"@,
        Pairing::SameName.words()
            == "same name in both directions — may be a duplex interface rather than a cable"@,
{
}

/// What leads a name is what comes before its bracket, without the space around it
/// and in lower case.
pub proof fn what_leads_a_name_is_small_and_trimmed(wanted: Seq<char>)
    ensures
        leading_name(wanted) == text::in_lower_case(text::trimmed(before_bracket(wanted))),
        before_bracket(wanted).is_prefix_of(wanted),
    decreases wanted.len(),
{
    if wanted.len() >= 2 && !(wanted[0] == ' ' && wanted[1] == '(') {
        let rest = wanted.skip(1);
        what_leads_a_name_is_small_and_trimmed(rest);
        let lead = before_bracket(rest);
        assert(wanted.subrange(0, lead.len() as int + 1) =~= seq![wanted[0]] + rest.subrange(
            0,
            lead.len() as int,
        ));
    } else if wanted.len() < 2 {
        assert(wanted.subrange(0, wanted.len() as int) =~= wanted);
    } else {
        assert(wanted.subrange(0, 0) =~= before_bracket(wanted));
    }
}

/// Of several outputs of a microphone's own name, the first is the one that is
/// rendered into.
pub proof fn the_first_output_of_the_same_name_is_used(mic: Seq<char>, outputs: Seq<Seq<char>>)
    ensures
        route_of(mic, outputs) matches Some(route) ==> route.how == Pairing::SameName ==> exists|
            i: int,
        |
            {
                &&& 0 <= i < outputs.len()
                &&& #[trigger] outputs[i] == route.render_into
                &&& text::same_ascii(outputs[i], mic)
                &&& forall|j: int| 0 <= j < i ==> !text::same_ascii(#[trigger] outputs[j], mic)
            },
{
    let same = |name: Seq<char>| text::same_ascii(name, mic);
    the_first_that_passes_is_found(outputs, same);
    if let Some(route) = route_of(mic, outputs) {
        if route.how == Pairing::SameName {
            let i = choose|i: int|
                {
                    &&& 0 <= i < outputs.len()
                    &&& #[trigger] outputs[i] == route.render_into
                    &&& same(outputs[i])
                    &&& forall|j: int| 0 <= j < i ==> !same(#[trigger] outputs[j])
                };
            assert forall|j: int| 0 <= j < i implies !text::same_ascii(
                #[trigger] outputs[j],
                mic,
            ) by {
                assert(!same(outputs[j]));
            }
            assert(outputs[i] == route.render_into);
        }
    }
}

} // verus!
