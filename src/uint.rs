//! A 256-bit unsigned integer kept as two 128-bit halves.
use vstd::prelude::*;

verus! {

/// 2^128, the weight of the high half.
pub open spec fn pow128() -> nat {
    0x1_0000_0000_0000_0000_0000_0000_0000_0000nat
}

/// 2^256, one past the largest representable value.
pub open spec fn pow256() -> nat {
    pow128() * pow128()
}

/// 2^64, the weight of one limb.
pub open spec fn pow64() -> nat {
    0x1_0000_0000_0000_0000nat
}

/// The value of four little-endian 64-bit limbs.
pub open spec fn limbs_value(l: [u64; 4]) -> nat {
    l[0] as nat + pow64() * (l[1] as nat + pow64() * (l[2] as nat + pow64() * (l[3] as nat)))
}

/// An unsigned integer below 2^256.
#[derive(Clone, Copy, Debug, PartialEq, Eq, Structural, Hash)]
pub struct Uint256 {
    pub hi: u128,
    pub lo: u128,
}

impl Uint256 {
    /// The number this value stands for.
    pub open spec fn value(self) -> nat {
        self.hi as nat * pow128() + self.lo as nat
    }

    /// The representation of `n`, for `n < 2^256`.
    pub open spec fn of(n: nat) -> Uint256 {
        Uint256 { hi: (n / pow128()) as u128, lo: (n % pow128()) as u128 }
    }

    pub proof fn lemma_value_bounds(self)
        ensures
            self.value() < pow256(),
    {
        assert(pow256() == pow128() * pow128());
        assert(self.hi as nat * pow128() <= (pow128() - 1) * pow128()) by (nonlinear_arith)
            requires
                self.hi < pow128(),
        ;
        assert((pow128() - 1) * pow128() + pow128() == pow128() * pow128()) by (nonlinear_arith);
    }

    /// `of` gives back the representation of a value.
    pub proof fn lemma_of_value(self)
        ensures
            Uint256::of(self.value()) == self,
            Uint256::of(self.value()).value() == self.value(),
    {
        let n = self.value();
        assert(n / pow128() == self.hi as nat && n % pow128() == self.lo as nat) by {
            vstd::arithmetic::div_mod::lemma_fundamental_div_mod_converse(
                n as int,
                pow128() as int,
                self.hi as int,
                self.lo as int,
            );
        }
    }

    /// Below 2^256, `of` keeps the number.
    pub proof fn lemma_of_nat(n: nat)
        requires
            n < pow256(),
        ensures
            Uint256::of(n).value() == n,
    {
        let c = pow128();
        vstd::arithmetic::div_mod::lemma_fundamental_div_mod(n as int, c as int);
        vstd::arithmetic::div_mod::lemma_div_pos_is_pos(n as int, c as int);
        let q = n / c;
        assert(q < c) by (nonlinear_arith)
            requires
                n == q * c + n % c,
                n % c >= 0,
                n < c * c,
                c > 0,
        ;
    }

    pub fn zero() -> (r: Uint256)
        ensures
            r.value() == 0,
    {
        Uint256 { hi: 0, lo: 0 }
    }

    pub fn from_u128(v: u128) -> (r: Uint256)
        ensures
            r.value() == v,
    {
        Uint256 { hi: 0, lo: v }
    }

    pub fn is_zero(&self) -> (r: bool)
        ensures
            r == (self.value() == 0),
    {
        self.hi == 0 && self.lo == 0
    }

    /// `self < other`.
    pub fn lt(&self, other: &Uint256) -> (r: bool)
        ensures
            r == (self.value() < other.value()),
    {
        self.hi < other.hi || (self.hi == other.hi && self.lo < other.lo)
    }

    /// `self + other`, or `None` when the sum is 2^256 or more.
    pub fn checked_add(&self, other: &Uint256) -> (r: Option<Uint256>)
        ensures
            r.is_some() == (self.value() + other.value() < pow256()),
            r.is_some() ==> r.unwrap().value() == self.value() + other.value(),
    {
        proof {
            self.lemma_value_bounds();
            other.lemma_value_bounds();
        }
        let max: u128 = u128::MAX;
        let (lo, carry) = if other.lo <= max - self.lo {
            (self.lo + other.lo, 0u128)
        } else {
            (other.lo - (max - self.lo) - 1, 1u128)
        };
        assert(lo as nat + carry as nat * pow128() == self.lo as nat + other.lo as nat);
        if self.hi <= max - other.hi && self.hi + other.hi <= max - carry {
            let r = Uint256 { hi: self.hi + other.hi + carry, lo };
            assert(r.value() == self.value() + other.value()) by (nonlinear_arith)
                requires
                    r.hi as nat == self.hi as nat + other.hi as nat + carry as nat,
                    lo as nat + carry as nat * pow128() == self.lo as nat + other.lo as nat,
                    r.lo == lo,
            ;
            Some(r)
        } else {
            assert(self.value() + other.value() >= pow256()) by (nonlinear_arith)
                requires
                    self.hi as nat + other.hi as nat + carry as nat >= pow128(),
                    lo as nat + carry as nat * pow128() == self.lo as nat + other.lo as nat,
                    pow256() == pow128() * pow128(),
            ;
            None
        }
    }

    /// `self - other`, or `None` when `other` is the larger.
    pub fn checked_sub(&self, other: &Uint256) -> (r: Option<Uint256>)
        ensures
            r.is_some() == (other.value() <= self.value()),
            r.is_some() ==> r.unwrap().value() == self.value() - other.value(),
    {
        if self.lt(other) {
            None
        } else if other.lo <= self.lo {
            let r = Uint256 { hi: self.hi - other.hi, lo: self.lo - other.lo };
            assert(r.value() == self.value() - other.value()) by (nonlinear_arith)
                requires
                    r.hi as nat == self.hi as nat - other.hi as nat,
                    r.lo as nat == self.lo as nat - other.lo as nat,
            ;
            Some(r)
        } else {
            let r = Uint256 { hi: self.hi - other.hi - 1, lo: u128::MAX - (other.lo - self.lo) + 1 };
            assert(r.value() == self.value() - other.value()) by (nonlinear_arith)
                requires
                    r.hi as nat == self.hi as nat - other.hi as nat - 1,
                    r.lo as nat + other.lo as nat == self.lo as nat + pow128(),
            ;
            Some(r)
        }
    }

    /// The value of four little-endian 64-bit limbs.
    pub fn from_limbs(limbs: [u64; 4]) -> (r: Uint256)
        ensures
            r.value() == limbs_value(limbs),
    {
        let base: u128 = 0x1_0000_0000_0000_0000;
        assert(limbs[1] as nat * pow64() + (limbs[0] as nat) < pow128()) by (nonlinear_arith)
            requires
                limbs[1] < pow64(),
                limbs[0] < pow64(),
                pow128() == pow64() * pow64(),
        ;
        assert(limbs[3] as nat * pow64() + (limbs[2] as nat) < pow128()) by (nonlinear_arith)
            requires
                limbs[3] < pow64(),
                limbs[2] < pow64(),
                pow128() == pow64() * pow64(),
        ;
        let lo = limbs[1] as u128 * base + limbs[0] as u128;
        let hi = limbs[3] as u128 * base + limbs[2] as u128;
        let r = Uint256 { hi, lo };
        assert(r.value() == limbs_value(limbs)) by (nonlinear_arith)
            requires
                lo as nat == limbs[1] as nat * pow64() + limbs[0] as nat,
                hi as nat == limbs[3] as nat * pow64() + limbs[2] as nat,
                pow128() == pow64() * pow64(),
                r.hi == hi,
                r.lo == lo,
        ;
        r
    }

    /// The four little-endian 64-bit limbs of this value.
    pub fn to_limbs(&self) -> (r: [u64; 4])
        ensures
            limbs_value(r) == self.value(),
    {
        let l0 = (self.lo % 0x1_0000_0000_0000_0000u128) as u64;
        let l1 = (self.lo / 0x1_0000_0000_0000_0000u128) as u64;
        let l2 = (self.hi % 0x1_0000_0000_0000_0000u128) as u64;
        let l3 = (self.hi / 0x1_0000_0000_0000_0000u128) as u64;
        let r = [l0, l1, l2, l3];
        assert(self.lo as nat == l0 as nat + pow64() * l1 as nat);
        assert(self.hi as nat == l2 as nat + pow64() * l3 as nat);
        assert(pow128() == pow64() * pow64());
        assert(limbs_value(r) == self.value()) by (nonlinear_arith)
            requires
                self.lo as nat == l0 as nat + pow64() * l1 as nat,
                self.hi as nat == l2 as nat + pow64() * l3 as nat,
                pow128() == pow64() * pow64(),
                r[0] == l0,
                r[1] == l1,
                r[2] == l2,
                r[3] == l3,
        ;
        r
    }
}

impl Uint256 {
    /// The decimal numeral of this value.
    pub fn to_decimal_string(&self) -> (r: String)
        ensures
            r@ == crate::evm::decimal(self.value()),
    {
        crate::evm::decimal_string(self.to_limbs())
    }

    /// The 32 bytes of this value, most significant first.
    pub fn to_be_bytes(&self) -> (r: [u8; 32])
        ensures
            r@ == crate::evm::be_bytes(self.value(), 32),
    {
        crate::evm::be_bytes32(self.to_limbs())
    }
}

impl From<u64> for Uint256 {
    fn from(v: u64) -> (r: Uint256) {
        Uint256 { hi: 0, lo: v as u128 }
    }
}

impl vstd::std_specs::convert::FromSpecImpl<u64> for Uint256 {
    open spec fn obeys_from_spec() -> bool {
        true
    }

    open spec fn from_spec(v: u64) -> Uint256 {
        Uint256 { hi: 0, lo: v as u128 }
    }
}

} // verus!

verus! {

impl crate::table::KeyEq for Uint256 {
    fn key_eq(&self, other: &Uint256) -> (r: bool) {
        self.hi == other.hi && self.lo == other.lo
    }
}

} // verus!
