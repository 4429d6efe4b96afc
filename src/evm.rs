//! What the ledgers take from the EVM primitives of `stylus_sdk`
//! (alloy-primitives and ruint): decimal and big-endian forms of 256-bit
//! integers, and CREATE2 address derivation.
use vstd::prelude::*;
use crate::address::Address;
use crate::uint::limbs_value;
use stylus_sdk::alloy_primitives;

verus! {

/// The character of a decimal digit.
pub open spec fn digit_char(d: nat) -> char {
    seq!['0', '1', '2', '3', '4', '5', '6', '7', '8', '9'][d as int]
}

/// The decimal numeral of `n`: no sign, no leading zeros, "0" for zero.
pub open spec fn decimal(n: nat) -> Seq<char>
    decreases n,
{
    if n < 10 {
        seq![digit_char(n)]
    } else {
        decimal(n / 10).push(digit_char(n % 10))
    }
}

/// The last `len` bytes of the base-256 form of `n`, most significant first.
pub open spec fn be_bytes(n: nat, len: nat) -> Seq<u8>
    decreases len,
{
    if len == 0 {
        Seq::empty()
    } else {
        be_bytes(n / 256, (len - 1) as nat).push((n % 256) as u8)
    }
}

/// The address that CREATE2 gives to a contract with this init code,
/// deployed by `deployer` with this salt.
pub uninterp spec fn create2_of(deployer: Seq<u8>, salt: Seq<u8>, init_code: Seq<u8>) -> Seq<u8>;

/// Relies on ruint's `Uint::from_limbs` and its `Display` (through
/// `to_string`): the decimal digits of the value, without sign or leading
/// zeros.
#[verifier::external_body]
pub(crate) fn decimal_string(limbs: [u64; 4]) -> (r: String)
    ensures
        r@ == decimal(limbs_value(limbs)),
{
    alloy_primitives::U256::from_limbs(limbs).to_string()
}

/// Relies on ruint's `Uint::from_limbs` and `Uint::to_be_bytes`: the 32
/// bytes of the value, most significant first.
#[verifier::external_body]
pub(crate) fn be_bytes32(limbs: [u64; 4]) -> (r: [u8; 32])
    ensures
        r@ == be_bytes(limbs_value(limbs), 32),
{
    alloy_primitives::U256::from_limbs(limbs).to_be_bytes::<32>()
}

/// Relies on alloy-primitives' `Address::create2_from_code`: the address of
/// a contract deployed by `deployer` with CREATE2, from the salt and the
/// init code.
#[verifier::external_body]
pub(crate) fn create2_address(deployer: &Address, salt: &[u8; 32], init_code: &Vec<u8>) -> (r: Address)
    ensures
        r.0@ == create2_of(deployer.0@, salt@, init_code@),
{
    let d = alloy_primitives::Address::from(deployer.0);
    Address(d.create2_from_code(salt, init_code).into_array())
}

} // verus!
