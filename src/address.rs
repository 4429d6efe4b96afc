//! Twenty-byte account and contract addresses.
use vstd::prelude::*;
use crate::table::KeyEq;

verus! {

/// An account or contract address; all zero bytes is the null address.
#[derive(Clone, Copy, Debug, Hash)]
pub struct Address(pub [u8; 20]);

impl Address {
    /// The null address, which stands for "nobody".
    pub open spec fn is_null(self) -> bool {
        forall|i: int| 0 <= i < 20 ==> self.0[i] == 0
    }

    pub open spec fn null() -> Address {
        Address(vstd::array::spec_array_fill_for_copy_type::<u8, 20>(0u8))
    }

    /// An address is null exactly when it is `null()`.
    pub proof fn lemma_null(a: Address)
        ensures
            a.is_null() <==> a == Address::null(),
    {
        assert(Address::null().is_null());
        if a.is_null() {
            assert(a.0 =~= Address::null().0);
        }
    }

    pub fn zero() -> (r: Address)
        ensures
            r == Address::null(),
            r.is_null(),
    {
        Address([0u8; 20])
    }

    pub fn is_zero(&self) -> (r: bool)
        ensures
            r == self.is_null(),
    {
        let mut i: usize = 0;
        while i < 20
            invariant
                0 <= i <= 20,
                forall|j: int| 0 <= j < i ==> self.0[j] == 0,
            decreases 20 - i,
        {
            if self.0[i] != 0 {
                return false;
            }
            i = i + 1;
        }
        true
    }

    pub fn to_bytes(&self) -> (r: [u8; 20])
        ensures
            r == self.0,
    {
        self.0
    }
}

impl PartialEq for Address {
    fn eq(&self, other: &Address) -> (r: bool) {
        let mut i: usize = 0;
        while i < 20
            invariant
                0 <= i <= 20,
                forall|j: int| 0 <= j < i ==> self.0[j] == other.0[j],
            decreases 20 - i,
        {
            if self.0[i] != other.0[i] {
                return false;
            }
            i = i + 1;
        }
        assert(self.0 =~= other.0);
        true
    }
}

impl vstd::std_specs::cmp::PartialEqSpecImpl for Address {
    open spec fn obeys_eq_spec() -> bool {
        true
    }

    open spec fn eq_spec(&self, other: &Address) -> bool {
        *self == *other
    }
}

impl Eq for Address {

}

impl From<[u8; 20]> for Address {
    fn from(bytes: [u8; 20]) -> (r: Address) {
        Address(bytes)
    }
}

impl vstd::std_specs::convert::FromSpecImpl<[u8; 20]> for Address {
    open spec fn obeys_from_spec() -> bool {
        true
    }

    open spec fn from_spec(bytes: [u8; 20]) -> Address {
        Address(bytes)
    }
}

impl KeyEq for Address {
    fn key_eq(&self, other: &Address) -> (r: bool) {
        *self == *other
    }
}

/// An ordered pair of addresses: an owner and a spender, or an owner and an
/// operator.
#[derive(Clone, Copy, Debug, Hash)]
pub struct AddressPair {
    pub owner: Address,
    pub other: Address,
}

impl KeyEq for AddressPair {
    fn key_eq(&self, o: &AddressPair) -> (r: bool) {
        self.owner == o.owner && self.other == o.other
    }
}

} // verus!
