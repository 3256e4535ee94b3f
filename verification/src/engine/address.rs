//! Internet addresses, as plain numbers.

use vstd::prelude::*;

verus! {

/// An internet address: its bytes, most significant first, as a number.
#[derive(Debug, Clone, Copy, PartialEq, Eq, Structural)]
pub enum Address {
    V4(u32),
    V6(u128),
}

/// The address that stands for "any": `0.0.0.0`.
pub const UNSPECIFIED_V4: u32 = 0;

/// The address that reaches every host on the segment: `255.255.255.255`.
pub const BROADCAST_V4: u32 = 0xffff_ffff;

impl Address {
    /// The address reaches only the machine itself.
    pub open spec fn loops_back(self) -> bool {
        match self {
            Address::V4(bits) => bits / 0x100_0000 == 127,
            Address::V6(bits) => bits == 1,
        }
    }

    /// The address stands for "any".
    pub open spec fn is_any(self) -> bool {
        match self {
            Address::V4(bits) => bits == 0,
            Address::V6(bits) => bits == 0,
        }
    }

    /// The address comes before another: version 4 before version 6, and
    /// otherwise by number.
    pub open spec fn before(self, other: Address) -> bool {
        match (self, other) {
            (Address::V4(a), Address::V4(b)) => a < b,
            (Address::V4(_), Address::V6(_)) => true,
            (Address::V6(_), Address::V4(_)) => false,
            (Address::V6(a), Address::V6(b)) => a < b,
        }
    }

    /// True for an address that reaches only the machine itself.
    pub fn is_loopback(&self) -> (yes: bool)
        ensures
            yes == self.loops_back(),
    {
        match self {
            Address::V4(bits) => *bits / 0x100_0000 == 127,
            Address::V6(bits) => *bits == 1,
        }
    }

    /// True for the address that stands for "any".
    pub fn is_unspecified(&self) -> (yes: bool)
        ensures
            yes == self.is_any(),
    {
        match self {
            Address::V4(bits) => *bits == 0,
            Address::V6(bits) => *bits == 0,
        }
    }

    /// Whether the address comes before another.
    pub fn comes_before(&self, other: &Address) -> (yes: bool)
        ensures
            yes == self.before(*other),
    {
        match self {
            Address::V4(a) => match other {
                Address::V4(b) => *a < *b,
                Address::V6(_) => true,
            },
            Address::V6(a) => match other {
                Address::V4(_) => false,
                Address::V6(b) => *a < *b,
            },
        }
    }
}

/// Addresses that reach only the machine itself are `127.0.0.0/8` and `::1`, and
/// those that stand for "any" are all zero.
pub proof fn the_machines_own_addresses(address: Address)
    ensures
        address matches Address::V4(bits) ==> (address.loops_back() <==> 0x7f00_0000 <= bits
            < 0x8000_0000) && (address.is_any() <==> bits == 0),
        address matches Address::V6(bits) ==> (address.loops_back() <==> bits == 1) && (
        address.is_any() <==> bits == 0),
{
}

/// Of two addresses one comes first, by number, and version 4 before version 6.
pub proof fn addresses_are_ordered(a: Address, b: Address)
    ensures
        a != b ==> (a.before(b) <==> !b.before(a)),
        !a.before(a),
        a matches Address::V4(x) ==> b matches Address::V4(y) ==> (a.before(b) <==> x < y),
        a matches Address::V6(x) ==> b matches Address::V6(y) ==> (a.before(b) <==> x < y),
        a is V4 && b is V6 ==> a.before(b),
{
}

} // verus!
