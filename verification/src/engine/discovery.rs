//! Finding a receiver on the local network, and reporting where one can be
//! reached.

use vstd::prelude::*;

use crate::engine::address::{Address, BROADCAST_V4, UNSPECIFIED_V4};
use crate::protocol::discovery;
use crate::protocol::discovery::{Message, MessageView};
use crate::text;

verus! {

/// How long a probe waits for replies, in nanoseconds.
pub const PROBE_TIMEOUT: u64 = 700_000_000;

/// How often the probe is repeated within that window, since a broadcast
/// datagram can simply be dropped.
pub const PROBE_REPEATS: u32 = 3;

/// The pause between two probes: the window, divided so that the last probe has
/// as long to be answered as the others.
pub const PROBE_SPACING: u64 = 175_000_000;

/// One address of one network interface of this machine.
#[derive(Debug, Clone, Copy, PartialEq, Eq, Structural)]
pub struct Interface {
    pub address: Address,
    /// The address that reaches every host on the interface's segment. A
    /// point-to-point interface has none.
    pub broadcast: Option<u32>,
}

/// Where a probe for one interface goes, as (bind address, broadcast address):
/// version 4 interfaces with a broadcast address only, and not loopback.
pub open spec fn target_of(interface: Interface) -> Option<(u32, u32)> {
    if interface.address.loops_back() {
        None
    } else {
        match (interface.address, interface.broadcast) {
            (Address::V4(ip), Some(broadcast)) => Some((ip, broadcast)),
            _ => None,
        }
    }
}

/// The targets of several interfaces, in order.
pub open spec fn targets_of(interfaces: Seq<Interface>) -> Seq<(u32, u32)>
    decreases interfaces.len(),
{
    if interfaces.len() == 0 {
        seq![]
    } else {
        let before = targets_of(interfaces.drop_last());
        match target_of(interfaces.last()) {
            Some(target) => before.push(target),
            None => before,
        }
    }
}

/// Every place a probe should be sent, as (bind address, broadcast address): one
/// for each interface, because a single datagram to `255.255.255.255` leaves by
/// one interface only, and that one last, for where nothing else is known.
pub fn probe_targets(interfaces: &[Interface]) -> (targets: Vec<(u32, u32)>)
    ensures
        targets@ == targets_of(interfaces@).push((UNSPECIFIED_V4, BROADCAST_V4)),
{
    let mut targets: Vec<(u32, u32)> = Vec::new();
    let mut i: usize = 0;
    assert(interfaces@.take(0) =~= Seq::<Interface>::empty());
    while i < interfaces.len()
        invariant
            i <= interfaces@.len(),
            targets@ == targets_of(interfaces@.take(i as int)),
        decreases interfaces@.len() - i,
    {
        let interface = interfaces[i];
        assert(interfaces@.take(i + 1).drop_last() =~= interfaces@.take(i as int));
        if !interface.address.is_loopback() {
            if let Address::V4(ip) = interface.address {
                if let Some(broadcast) = interface.broadcast {
                    targets.push((ip, broadcast));
                }
            }
        }
        i = i + 1;
    }
    assert(interfaces@.take(i as int) =~= interfaces@);
    targets.push((UNSPECIFIED_V4, BROADCAST_V4));
    targets
}

/// Every target is the fallback or an interface's own address, never loopback.
pub proof fn every_target_is_an_interface_or_the_fallback(interfaces: Seq<Interface>, i: int)
    requires
        0 <= i < targets_of(interfaces).len(),
    ensures
        exists|k: int|
            0 <= k < interfaces.len() && target_of(#[trigger] interfaces[k]) == Some(
                targets_of(interfaces)[i],
            ),
        !Address::V4(targets_of(interfaces)[i].0).loops_back(),
    decreases interfaces.len(),
{
    let rest = interfaces.drop_last();
    if i < targets_of(rest).len() {
        every_target_is_an_interface_or_the_fallback(rest, i);
        let k = choose|k: int|
            0 <= k < rest.len() && target_of(#[trigger] rest[k]) == Some(targets_of(rest)[i]);
        assert(interfaces[k] == rest[k]);
    } else {
        let k = interfaces.len() - 1;
        assert(target_of(interfaces[k]) == Some(targets_of(interfaces)[i]));
    }
}

/// A text comes before another in the order of its characters.
pub open spec fn text_before(a: Seq<char>, b: Seq<char>) -> bool
    decreases a.len(),
{
    if b.len() == 0 {
        false
    } else if a.len() == 0 {
        true
    } else if a[0] != b[0] {
        (a[0] as int) < (b[0] as int)
    } else {
        text_before(a.skip(1), b.skip(1))
    }
}

/// A receiver that answered a probe.
#[derive(Debug, PartialEq, Eq)]
pub struct Found {
    /// Address to give the sender.
    pub host: Address,
    /// Control port the receiver is listening on.
    pub control_port: u16,
    pub label: String,
}

/// What a [`Found`] says.
pub struct FoundView {
    pub host: Address,
    pub control_port: u16,
    pub label: Seq<char>,
}

impl View for Found {
    type V = FoundView;

    open spec fn view(&self) -> FoundView {
        FoundView { host: self.host, control_port: self.control_port, label: self.label@ }
    }
}

impl FoundView {
    /// A receiver is listed before another: by address, then port, then label.
    pub open spec fn before(self, other: FoundView) -> bool {
        if self.host != other.host {
            self.host.before(other.host)
        } else if self.control_port != other.control_port {
            self.control_port < other.control_port
        } else {
            text_before(self.label, other.label)
        }
    }
}

/// Several receivers, by what they say.
pub open spec fn found_views(found: Seq<Found>) -> Seq<FoundView> {
    found.map_values(|f: Found| f@)
}

/// The receivers are listed in order, each once.
pub open spec fn in_order(found: Seq<FoundView>) -> bool {
    forall|i: int, j: int|
        0 <= i < j < found.len() ==> (#[trigger] found[i]).before(#[trigger] found[j])
}

/// Of two texts, one comes before the other unless they are equal, and never
/// both.
proof fn texts_are_ordered(a: Seq<char>, b: Seq<char>)
    ensures
        !(text_before(a, b) && text_before(b, a)),
        a != b ==> text_before(a, b) || text_before(b, a),
        a == b ==> !text_before(a, b),
    decreases a.len(),
{
    if a.len() == 0 || b.len() == 0 {
        if a.len() == 0 && b.len() == 0 {
            assert(a =~= b);
        }
    } else if a[0] == b[0] {
        texts_are_ordered(a.skip(1), b.skip(1));
        if a.skip(1) == b.skip(1) {
            assert(a =~= seq![a[0]] + a.skip(1));
            assert(b =~= seq![b[0]] + b.skip(1));
        }
    }
}

/// The order of texts carries on.
proof fn text_order_carries_on(a: Seq<char>, b: Seq<char>, c: Seq<char>)
    requires
        text_before(a, b),
        text_before(b, c),
    ensures
        text_before(a, c),
    decreases a.len(),
{
    if a.len() > 0 && a[0] == b[0] && b[0] == c[0] {
        text_order_carries_on(a.skip(1), b.skip(1), c.skip(1));
    }
}

/// Of two receivers, one is listed before the other unless they are equal, and
/// never both.
proof fn found_is_ordered(a: FoundView, b: FoundView)
    ensures
        !(a.before(b) && b.before(a)),
        a != b ==> a.before(b) || b.before(a),
        a == b ==> !a.before(b),
{
    texts_are_ordered(a.label, b.label);
}

/// The order of receivers carries on.
proof fn found_order_carries_on(a: FoundView, b: FoundView, c: FoundView)
    requires
        a.before(b),
        b.before(c),
    ensures
        a.before(c),
{
    if a.host == b.host && b.host == c.host && a.control_port == b.control_port && b.control_port
        == c.control_port {
        text_order_carries_on(a.label, b.label, c.label);
    }
}

/// Whether a text comes before another.
fn text_comes_before(a: &str, b: &str) -> (yes: bool)
    ensures
        yes == text_before(a@, b@),
{
    let x = text::chars_of(a);
    let y = text::chars_of(b);
    let mut i: usize = 0;
    assert(x@.skip(0) =~= x@ && y@.skip(0) =~= y@);
    while i < x.len() && i < y.len()
        invariant
            i <= x@.len(),
            i <= y@.len(),
            x@ == a@,
            y@ == b@,
            text_before(a@, b@) == text_before(x@.skip(i as int), y@.skip(i as int)),
        decreases x@.len() - i,
    {
        if x[i] != y[i] {
            return x[i] < y[i];
        }
        assert(x@.skip(i as int).skip(1) =~= x@.skip(i + 1));
        assert(y@.skip(i as int).skip(1) =~= y@.skip(i + 1));
        i = i + 1;
    }
    i < y.len()
}

impl Found {
    /// Whether a receiver is listed before another.
    fn comes_before(&self, other: &Found) -> (yes: bool)
        ensures
            yes == self@.before(other@),
    {
        if self.host != other.host {
            self.host.comes_before(&other.host)
        } else if self.control_port != other.control_port {
            self.control_port < other.control_port
        } else {
            text_comes_before(self.label.as_str(), other.label.as_str())
        }
    }
}

/// Adds a receiver to a list in order, unless it is there already: the same
/// receiver answering on several interfaces appears once.
pub fn add_found(found: &mut Vec<Found>, new: Found)
    requires
        in_order(found_views(old(found)@)),
    ensures
        in_order(found_views(final(found)@)),
        forall|x: FoundView| #[trigger]
            found_views(final(found)@).contains(x) <==> found_views(old(found)@).contains(x) || x
                == new@,
{
    let ghost before = found_views(found@);
    let ghost this = new@;
    let mut at: usize = 0;
    while at < found.len() && found[at].comes_before(&new)
        invariant
            at <= found@.len(),
            before == found_views(found@),
            in_order(before),
            this == new@,
            forall|j: int| 0 <= j < at ==> (#[trigger] before[j]).before(this),
        decreases found@.len() - at,
    {
        assert(before[at as int] == found@[at as int]@);
        at = at + 1;
    }
    if at < found.len() {
        assert(before[at as int] == found@[at as int]@);
        if !new.comes_before(&found[at]) {
            proof {
                found_is_ordered(before[at as int], this);
                assert(before[at as int] == this);
            }
            return;
        }
    }
    found.insert(at, new);
    proof {
        let after = found_views(found@);
        assert(after =~= before.insert(at as int, this));
        assert forall|i: int, j: int| 0 <= i < j < after.len() implies (#[trigger] after[i]).before(
            #[trigger] after[j],
        ) by {
            if i < at && j > at {
                assert(after[j] == before[j - 1]);
            } else if i == at && j > at {
                assert(after[j] == before[j - 1]);
                if j - 1 > at {
                    found_order_carries_on(this, before[at as int], before[j - 1]);
                }
            } else if i > at {
                assert(after[i] == before[i - 1] && after[j] == before[j - 1]);
            }
        }
        assert forall|x: FoundView| #[trigger] after.contains(x) <==> before.contains(x) || x
            == this by {
            if before.contains(x) {
                let k = choose|k: int| 0 <= k < before.len() && before[k] == x;
                assert(after[if k < at {
                    k
                } else {
                    k + 1
                }] == x);
            }
            if x == this {
                assert(after[at as int] == x);
            }
            if after.contains(x) && x != this {
                let k = choose|k: int| 0 <= k < after.len() && after[k] == x;
                assert(before[if k < at {
                    k
                } else {
                    k - 1
                }] == x);
            }
        }
    }
}

/// Takes one datagram that came while probing: a receiver's announcement is
/// added to the list, and anything else is ignored.
pub fn take_reply(found: &mut Vec<Found>, from: Address, datagram: &[u8])
    requires
        in_order(found_views(old(found)@)),
    ensures
        in_order(found_views(final(found)@)),
        match discovery::decoded(datagram@) {
            Ok(MessageView::Announce { control_port, label }) => forall|x: FoundView| #[trigger]
                found_views(final(found)@).contains(x) <==> found_views(old(found)@).contains(x)
                    || x == (FoundView { host: from, control_port, label }),
            _ => final(found)@ == old(found)@,
        },
{
    match Message::decode(datagram) {
        Ok(Message::Announce { control_port, label }) => {
            add_found(found, Found { host: from, control_port, label });
        },
        _ => {},
    }
}

/// Whether a datagram that reached a receiver is a probe, which is answered;
/// anything else on the segment is ignored.
pub fn is_probe(datagram: &[u8]) -> (yes: bool)
    ensures
        yes == (discovery::decoded(datagram@) == Ok::<MessageView, discovery::Error>(
            MessageView::Probe,
        )),
{
    match Message::decode(datagram) {
        Ok(Message::Probe) => true,
        _ => false,
    }
}

/// What a receiver answers a probe with.
pub fn reply(control_port: u16, label: String) -> (r: Result<Vec<u8>, discovery::Error>)
    ensures
        match discovery::encoded(MessageView::Announce { control_port, label: label@ }) {
            Ok(wire) => r matches Ok(out) && out@ == wire,
            Err(e) => r matches Err(x) && x == e,
        },
{
    let message = Message::Announce { control_port, label };
    message.encode()
}

/// What a prober does next.
#[derive(Debug, Clone, Copy, PartialEq, Eq, Structural)]
pub enum ProbeStep {
    /// The window is over.
    Done,
    /// Send the probe to every target, then listen.
    Send,
    /// Listen.
    Listen,
}

/// How far a probe has got, in nanoseconds.
#[derive(Debug, Clone, Copy, PartialEq, Eq, Structural)]
pub struct ProbeRun {
    pub deadline: u64,
    pub sends_left: u32,
    pub next_send: u64,
}

impl ProbeRun {
    /// A probe that starts now.
    pub fn new(now: u64) -> (run: Self)
        requires
            now + PROBE_TIMEOUT <= u64::MAX,
        ensures
            run == (ProbeRun {
                deadline: (now + PROBE_TIMEOUT) as u64,
                sends_left: PROBE_REPEATS,
                next_send: now,
            }),
    {
        Self { deadline: now + PROBE_TIMEOUT, sends_left: PROBE_REPEATS, next_send: now }
    }

    /// What one step does.
    pub open spec fn step_at(self, now: u64) -> ProbeStep {
        if now >= self.deadline {
            ProbeStep::Done
        } else if self.sends_left > 0 && now >= self.next_send {
            ProbeStep::Send
        } else {
            ProbeStep::Listen
        }
    }

    /// The probe after a step.
    pub open spec fn stepped(self, now: u64) -> ProbeRun {
        if self.step_at(now) == ProbeStep::Send {
            ProbeRun {
                deadline: self.deadline,
                sends_left: (self.sends_left - 1) as u32,
                next_send: (now + PROBE_SPACING) as u64,
            }
        } else {
            self
        }
    }

    /// Decides a step.
    pub fn step(&mut self, now: u64) -> (step: ProbeStep)
        requires
            now + PROBE_SPACING <= u64::MAX,
        ensures
            step == old(self).step_at(now),
            *final(self) == old(self).stepped(now),
    {
        if now >= self.deadline {
            return ProbeStep::Done;
        }
        if self.sends_left > 0 && now >= self.next_send {
            self.sends_left = self.sends_left - 1;
            self.next_send = now + PROBE_SPACING;
            return ProbeStep::Send;
        }
        ProbeStep::Listen
    }
}

/// How many probes are sent when the steps fall at these moments.
pub open spec fn sends(run: ProbeRun, times: Seq<u64>) -> nat
    decreases times.len(),
{
    if times.len() == 0 {
        0
    } else {
        (if run.step_at(times[0]) == ProbeStep::Send {
            1nat
        } else {
            0nat
        }) + sends(run.stepped(times[0]), times.skip(1))
    }
}

/// However the steps fall, no more probes are sent than are left.
pub proof fn probing_is_bounded(run: ProbeRun, times: Seq<u64>)
    ensures
        sends(run, times) <= run.sends_left,
    decreases times.len(),
{
    if times.len() > 0 {
        probing_is_bounded(run.stepped(times[0]), times.skip(1));
    }
}

/// Whether an address is one to give a peer: those of the machine itself and the
/// one that stands for "any" are never useful to type elsewhere.
pub open spec fn is_reachable(address: Address) -> bool {
    !address.loops_back() && !address.is_any()
}

/// Addresses in order, each once.
pub open spec fn addresses_in_order(addresses: Seq<Address>) -> bool {
    forall|i: int, j: int|
        0 <= i < j < addresses.len() ==> (#[trigger] addresses[i]).before(#[trigger] addresses[j])
}

/// The addresses a peer could reach this machine on, of those that the routing
/// table gave: in order, each once, without loopback and unspecified ones.
pub fn local_addresses(candidates: &[Address]) -> (found: Vec<Address>)
    ensures
        addresses_in_order(found@),
        forall|a: Address| #[trigger]
            found@.contains(a) <==> candidates@.contains(a) && is_reachable(a),
{
    let mut found: Vec<Address> = Vec::new();
    let mut i: usize = 0;
    while i < candidates.len()
        invariant
            i <= candidates@.len(),
            addresses_in_order(found@),
            forall|a: Address| #[trigger]
                found@.contains(a) <==> candidates@.take(i as int).contains(a) && is_reachable(a),
        decreases candidates@.len() - i,
    {
        let address = candidates[i];
        let ghost before = found@;
        if !address.is_loopback() && !address.is_unspecified() {
            add_address(&mut found, address);
        }
        proof {
            let seen = candidates@.take(i as int);
            let now = candidates@.take(i + 1);
            assert(now =~= seen.push(address));
            assert forall|a: Address| #[trigger] found@.contains(a) <==> now.contains(a)
                && is_reachable(a) by {
                assert(before.contains(a) <==> seen.contains(a) && is_reachable(a));
                if seen.contains(a) {
                    let k = choose|k: int| 0 <= k < seen.len() && seen[k] == a;
                    assert(now[k] == a);
                }
                if a == address {
                    assert(now[i as int] == a);
                }
                if now.contains(a) && a != address {
                    let k = choose|k: int| 0 <= k < now.len() && now[k] == a;
                    assert(seen[k] == a);
                }
            }
        }
        i = i + 1;
    }
    assert(candidates@.take(i as int) =~= candidates@);
    found
}

/// Adds an address to a list in order, unless it is there already.
fn add_address(found: &mut Vec<Address>, new: Address)
    requires
        addresses_in_order(old(found)@),
    ensures
        addresses_in_order(final(found)@),
        forall|a: Address| #[trigger]
            final(found)@.contains(a) <==> old(found)@.contains(a) || a == new,
{
    let ghost before = found@;
    let mut at: usize = 0;
    while at < found.len() && found[at].comes_before(&new)
        invariant
            at <= found@.len(),
            before == found@,
            addresses_in_order(before),
            forall|j: int| 0 <= j < at ==> (#[trigger] before[j]).before(new),
        decreases found@.len() - at,
    {
        at = at + 1;
    }
    if at < found.len() {
        if !new.comes_before(&found[at]) {
            assert(before[at as int] == new);
            return;
        }
    }
    found.insert(at, new);
    proof {
        let after = found@;
        assert(after =~= before.insert(at as int, new));
        assert forall|i: int, j: int| 0 <= i < j < after.len() implies (#[trigger] after[i]).before(
            #[trigger] after[j],
        ) by {
            if j > at {
                assert(after[j] == before[j - 1]);
            }
            if i > at {
                assert(after[i] == before[i - 1]);
            }
            if i == at && j - 1 > at {
                assert(before[at as int].before(before[j - 1]));
            }
        }
        assert forall|a: Address| #[trigger] after.contains(a) <==> before.contains(a) || a
            == new by {
            if before.contains(a) {
                let k = choose|k: int| 0 <= k < before.len() && before[k] == a;
                assert(after[if k < at {
                    k
                } else {
                    k + 1
                }] == a);
            }
            if a == new {
                assert(after[at as int] == a);
            }
            if after.contains(a) && a != new {
                let k = choose|k: int| 0 <= k < after.len() && after[k] == a;
                assert(before[if k < at {
                    k
                } else {
                    k - 1
                }] == a);
            }
        }
    }
}

/// No interface is probed twice: interfaces with addresses of their own have
/// targets of their own.
pub proof fn no_interface_is_probed_twice(interfaces: Seq<Interface>)
    requires
        forall|i: int, j: int|
            0 <= i < j < interfaces.len() ==> (#[trigger] interfaces[i]).address != (
            #[trigger] interfaces[j]).address,
        forall|i: int|
            0 <= i < interfaces.len() ==> (#[trigger] interfaces[i]).address != Address::V4(
                UNSPECIFIED_V4,
            ),
    ensures
        targets_of(interfaces).push((UNSPECIFIED_V4, BROADCAST_V4)).no_duplicates(),
    decreases interfaces.len(),
{
    let all = targets_of(interfaces).push((UNSPECIFIED_V4, BROADCAST_V4));
    if interfaces.len() > 0 {
        let rest = interfaces.drop_last();
        no_interface_is_probed_twice(rest);
        let before = targets_of(rest);
        let with_fallback = before.push((UNSPECIFIED_V4, BROADCAST_V4));
        assert forall|i: int, j: int| 0 <= i < j < all.len() implies all[i] != all[j] by {
            if j < before.len() {
                assert(all[i] == with_fallback[i] && all[j] == with_fallback[j]);
            } else if i < before.len() {
                every_target_is_an_interface_or_the_fallback(rest, i);
                let k = choose|k: int|
                    0 <= k < rest.len() && target_of(#[trigger] rest[k]) == Some(before[i]);
                assert(interfaces[k] == rest[k]);
                assert(all[i] == before[i]);
                assert(interfaces[interfaces.len() - 1] == interfaces.last());
            } else {
                assert(all[i] == target_of(interfaces.last())->Some_0);
                assert(interfaces[interfaces.len() - 1] == interfaces.last());
            }
        }
    }
}

/// Every interface that can be probed is: one with an address of version 4 that is
/// not the machine's own, and with a broadcast address, and no other.
pub proof fn every_interface_that_can_be_probed_has_a_target(interface: Interface)
    ensures
        target_of(interface) is Some <==> {
            &&& interface.address matches Address::V4(ip)
            &&& !(0x7f00_0000 <= ip < 0x8000_0000)
            &&& interface.broadcast is Some
        },
        target_of(interface) matches Some((ip, broadcast)) ==> interface.address == Address::V4(ip)
            && interface.broadcast == Some(broadcast),
{
}

/// Interfaces are probed each for itself and in their order: none is left out for
/// another.
pub proof fn interfaces_are_probed_each_for_itself(a: Seq<Interface>, b: Seq<Interface>)
    ensures
        targets_of(a + b) == targets_of(a) + targets_of(b),
        a.len() == 1 ==> targets_of(a) == match target_of(a[0]) {
            Some(target) => seq![target],
            None => Seq::<(u32, u32)>::empty(),
        },
    decreases b.len(),
{
    if a.len() == 1 {
        assert(a.drop_last() =~= Seq::<Interface>::empty());
        assert(targets_of(a.drop_last()) =~= Seq::<(u32, u32)>::empty());
        assert(targets_of(a) =~= match target_of(a[0]) {
            Some(target) => seq![target],
            None => Seq::<(u32, u32)>::empty(),
        });
    }
    if b.len() == 0 {
        assert(a + b =~= a);
        assert(targets_of(a) + targets_of(b) =~= targets_of(a));
    } else {
        interfaces_are_probed_each_for_itself(a, b.drop_last());
        assert((a + b).drop_last() =~= a + b.drop_last());
        assert(targets_of(a + b) =~= targets_of(a) + targets_of(b));
    }
}

/// The first character in which two texts differ decides which comes first; a text
/// comes before every longer one that starts with it, and none before itself.
pub proof fn the_first_difference_decides(same: Seq<char>, a: Seq<char>, b: Seq<char>)
    ensures
        a.len() > 0 && b.len() > 0 && a[0] != b[0] ==> (text_before(same + a, same + b) <==> (
        a[0] as int) < b[0] as int),
        b.len() > 0 ==> text_before(same, same + b),
        !text_before(same + a, same),
    decreases same.len(),
{
    if same.len() == 0 {
        assert(same + a =~= a);
        assert(same + b =~= b);
    } else {
        let rest = same.skip(1);
        the_first_difference_decides(rest, a, b);
        assert((same + a).skip(1) =~= rest + a);
        assert((same + b).skip(1) =~= rest + b);
        assert((same + a)[0] == same[0] && (same + b)[0] == same[0]);
    }
}

/// Receivers are listed by address, then by port, then by label.
pub proof fn receivers_are_listed_by_address_port_and_label(a: FoundView, b: FoundView)
    ensures
        a.host != b.host ==> (a.before(b) <==> a.host.before(b.host)),
        a.host == b.host && a.control_port < b.control_port ==> a.before(b),
        a.host == b.host && a.control_port > b.control_port ==> !a.before(b),
        a.host == b.host && a.control_port == b.control_port ==> (a.before(b) <==> text_before(
            a.label,
            b.label,
        )),
{
}

/// Within the window a probe is sent as soon as one is due, while any are left; the
/// next is due 175 milliseconds after it. At the end of the window probing is over,
/// and at all other times it listens.
pub proof fn a_probe_is_sent_when_it_is_due(run: ProbeRun, now: u64)
    requires
        now + PROBE_SPACING <= u64::MAX,
    ensures
        run.step_at(now) == ProbeStep::Done <==> run.deadline <= now,
        run.step_at(now) == ProbeStep::Send <==> now < run.deadline && run.sends_left > 0
            && run.next_send <= now,
        run.stepped(now).deadline == run.deadline,
        run.step_at(now) == ProbeStep::Send ==> {
            &&& run.stepped(now).sends_left == run.sends_left - 1
            &&& run.stepped(now).next_send == now + 175_000_000
        },
        run.step_at(now) != ProbeStep::Send ==> run.stepped(now) == run,
{
}

/// A probe that steps at least three times in the window, each time when one is due,
/// is sent three times.
pub proof fn three_probes_are_sent(start: u64, first: u64, second: u64, third: u64)
    requires
        start + 700_000_000 + PROBE_SPACING <= u64::MAX,
        start <= first,
        first + 175_000_000 <= second,
        second + 175_000_000 <= third,
        third < start + 700_000_000,
    ensures
        sends(
            ProbeRun {
                deadline: (start + PROBE_TIMEOUT) as u64,
                sends_left: PROBE_REPEATS,
                next_send: start,
            },
            seq![first, second, third],
        ) == 3,
{
    let times = seq![first, second, third];
    reveal_with_fuel(sends, 4);
    assert(times.skip(1) =~= seq![second, third]);
    assert(times.skip(1).skip(1) =~= seq![third]);
}

/// An address is one to give a peer unless it is the machine's own or stands for
/// "any".
pub proof fn only_the_machines_own_addresses_are_left_out(address: Address)
    ensures
        address matches Address::V4(bits) ==> (is_reachable(address) <==> bits != 0 && !(
        0x7f00_0000 <= bits < 0x8000_0000)),
        address matches Address::V6(bits) ==> (is_reachable(address) <==> bits > 1),
{
}

/// Receivers say what they hold, in their order.
pub proof fn a_receiver_says_what_it_holds(found: Seq<Found>)
    ensures
        found_views(found).len() == found.len(),
        forall|i: int|
            0 <= i < found.len() ==> {
                &&& (#[trigger] found_views(found)[i]).host == found[i].host
                &&& found_views(found)[i].control_port == found[i].control_port
                &&& found_views(found)[i].label == found[i].label@
            },
{
}

/// A list in order has each receiver once, and the lower address before the higher;
/// of one address the lower port comes first.
pub proof fn a_list_in_order_has_each_receiver_once(found: Seq<FoundView>, i: int, j: int)
    requires
        in_order(found),
        0 <= i < j < found.len(),
    ensures
        found[i] != found[j],
        found[i].host == found[j].host || found[i].host.before(found[j].host),
        found[i].host == found[j].host ==> found[i].control_port <= found[j].control_port,
{
    assert(found[i].before(found[j]));
    found_is_ordered(found[i], found[j]);
}

/// Addresses in order are each there once, the lower before the higher.
pub proof fn addresses_in_order_are_each_there_once(addresses: Seq<Address>, i: int, j: int)
    requires
        addresses_in_order(addresses),
        0 <= i < j < addresses.len(),
    ensures
        addresses[i] != addresses[j],
        addresses[i].before(addresses[j]),
{
}

/// A search lasts 700 milliseconds and sends three probes, each with as long to be
/// answered as the others; and the fallback goes to every host from any address.
pub proof fn a_search_shares_its_time_out()
    ensures
        PROBE_TIMEOUT == 700_000_000,
        PROBE_REPEATS == 3,
        PROBE_SPACING * (PROBE_REPEATS + 1) == PROBE_TIMEOUT,
        UNSPECIFIED_V4 == 0,
        BROADCAST_V4 == 0xffff_ffff,
{
}

} // verus!
