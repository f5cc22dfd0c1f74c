//! Socket readiness, as a set of flags.

use vstd::prelude::*;
use vstd::std_specs::ops::{BitAndSpecImpl, BitOrSpecImpl};

verus! {

/// A set of readiness flags, one bit per flag.
#[derive(Clone, Copy, Debug, PartialEq, Eq, Structural)]
pub struct Ready(pub u16);

impl Ready {
    /// No flag at all.
    #[verifier::allow_in_spec]
    pub fn empty() -> (flags: Ready)
        returns
            Ready(0),
    {
        Ready(0)
    }

    /// The socket can be read from.
    #[verifier::allow_in_spec]
    pub fn readable() -> (flags: Ready)
        returns
            Ready(1),
    {
        Ready(1)
    }

    /// The socket can be written to.
    #[verifier::allow_in_spec]
    pub fn writable() -> (flags: Ready)
        returns
            Ready(2),
    {
        Ready(2)
    }

    /// The peer hung up.
    #[verifier::allow_in_spec]
    pub fn hup() -> (flags: Ready)
        returns
            Ready(8),
    {
        Ready(8)
    }

    /// Every flag of `flags` is set.
    pub open spec fn has(self, flags: Ready) -> bool {
        self.0 & flags.0 == flags.0
    }

    /// The flags that both sets have.
    pub open spec fn both(self, other: Ready) -> Ready {
        Ready(self.0 & other.0)
    }

    /// The flags that either set has.
    pub open spec fn either(self, other: Ready) -> Ready {
        Ready(self.0 | other.0)
    }

    /// The flags of this set that `other` does not have.
    pub open spec fn without(self, other: Ready) -> Ready {
        Ready(self.0 & !other.0)
    }

    pub fn is_readable(&self) -> (result: bool)
        ensures
            result == self.has(Ready::readable()),
    {
        let flag: u16 = Ready::readable().0;
        self.0 & flag == flag
    }

    pub fn is_writable(&self) -> (result: bool)
        ensures
            result == self.has(Ready::writable()),
    {
        let flag: u16 = Ready::writable().0;
        self.0 & flag == flag
    }

    /// Sets the flags of `other`.
    pub fn insert(&mut self, other: Ready)
        ensures
            *final(self) == old(self).either(other),
    {
        self.0 = self.0 | other.0;
    }

    /// Clears the flags of `other`.
    pub fn remove(&mut self, other: Ready)
        ensures
            *final(self) == old(self).without(other),
    {
        self.0 = self.0 & !other.0;
    }
}

/// Law: a set of flags has one bit for each flag, and the operations on sets of flags are those
/// on sets, flag by flag. Reading, writing and hanging up are three different flags.
pub proof fn law_flags_are_sets(a: Ready, b: Ready, flag: u16)
    requires
        flag < 16,
    ensures
        ({
            let in_a = (a.0 >> flag) & 1 == 1;
            let in_b = (b.0 >> flag) & 1 == 1;
            &&& ((a.both(b).0 >> flag) & 1 == 1) == (in_a && in_b)
            &&& ((a.either(b).0 >> flag) & 1 == 1) == (in_a || in_b)
            &&& ((a.without(b).0 >> flag) & 1 == 1) == (in_a && !in_b)
            &&& a.has(b) && in_b ==> in_a
            &&& ((Ready::empty().0 >> flag) & 1 == 1) == false
            &&& ((Ready::readable().0 >> flag) & 1 == 1) == (flag == 0)
            &&& ((Ready::writable().0 >> flag) & 1 == 1) == (flag == 1)
            &&& ((Ready::hup().0 >> flag) & 1 == 1) == (flag == 3)
        }),
{
    let (x, y) = (a.0, b.0);
    assert({
        &&& (((x & y) >> flag) & 1 == 1) == ((x >> flag) & 1 == 1 && (y >> flag) & 1 == 1)
        &&& (((x | y) >> flag) & 1 == 1) == ((x >> flag) & 1 == 1 || (y >> flag) & 1 == 1)
        &&& (((x & !y) >> flag) & 1 == 1) == ((x >> flag) & 1 == 1 && !((y >> flag) & 1 == 1))
        &&& x & y == y && (y >> flag) & 1 == 1 ==> (x >> flag) & 1 == 1
        &&& (0u16 >> flag) & 1 != 1
        &&& ((1u16 >> flag) & 1 == 1) == (flag == 0)
        &&& ((2u16 >> flag) & 1 == 1) == (flag == 1)
        &&& ((8u16 >> flag) & 1 == 1) == (flag == 3)
    }) by (bit_vector)
        requires
            flag < 16,
    ;
}

/// Law: a set has certain flags exactly where none of them is missing. It has the flags that it
/// shares with another set and those that are added, and none that are cleared.
pub proof fn law_flags_that_a_set_has(a: Ready, b: Ready, flags: Ready)
    ensures
        a.has(flags) <==> flags.without(a) == Ready::empty(),
        a.both(b).has(flags) <==> a.has(flags) && b.has(flags),
        a.either(b).has(b),
        a.has(flags) ==> a.either(b).has(flags),
        a.without(b).both(b) == Ready::empty(),
{
    let (x, y, z) = (a.0, b.0, flags.0);
    assert({
        &&& (x & z == z) == (z & !x == 0)
        &&& ((x & y) & z == z) == (x & z == z && y & z == z)
        &&& (x | y) & y == y
        &&& x & z == z ==> (x | y) & z == z
        &&& (x & !y) & y == 0
    }) by (bit_vector);
}

impl core::ops::BitAnd for Ready {
    type Output = Ready;

    fn bitand(self, other: Ready) -> (result: Ready) {
        Ready(self.0 & other.0)
    }
}

impl BitAndSpecImpl for Ready {
    open spec fn obeys_bitand_spec() -> bool {
        true
    }

    open spec fn bitand_req(self, other: Ready) -> bool {
        true
    }

    open spec fn bitand_spec(self, other: Ready) -> Ready {
        self.both(other)
    }
}

impl core::ops::BitOr for Ready {
    type Output = Ready;

    fn bitor(self, other: Ready) -> (result: Ready) {
        Ready(self.0 | other.0)
    }
}

impl BitOrSpecImpl for Ready {
    open spec fn obeys_bitor_spec() -> bool {
        true
    }

    open spec fn bitor_req(self, other: Ready) -> bool {
        true
    }

    open spec fn bitor_spec(self, other: Ready) -> Ready {
        self.either(other)
    }
}

} // verus!
