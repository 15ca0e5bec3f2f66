//! Elements of the scalar field of BLS12-381, held by their canonical value.

use ark_ff::{PrimeField, Zero};
use vstd::prelude::*;

use crate::bytes::le_value;
use crate::text::decimal;

verus! {

/// The prime order of the scalar field of BLS12-381.
pub open spec fn modulus() -> nat {
    0x73eda753299d7d483339d80809a1d80553bda402fffe5bfeffffffff00000001nat
}

/// The number that four 64-bit limbs stand for, the least significant limb first.
pub open spec fn limbs_value(limbs: Seq<u64>) -> nat
    recommends
        limbs.len() == 4,
{
    (limbs[0] as nat) + (limbs[1] as nat) * 0x1_0000_0000_0000_0000nat + (limbs[2] as nat)
        * 0x1_0000_0000_0000_0000_0000_0000_0000_0000nat + (limbs[3] as nat)
        * 0x1_0000_0000_0000_0000_0000_0000_0000_0000_0000_0000_0000_0000nat
}

/// The field element that a little-endian byte string of any length decodes
/// to: the residue of its number modulo the field's prime.
pub open spec fn field_value(bytes: Seq<u8>) -> nat {
    le_value(bytes) % modulus()
}

/// `ark_ff::PrimeField::from_le_bytes_mod_order` for `ark_bls12_381::Fr`,
/// followed by `PrimeField::into_bigint`: the bytes are read as a little-endian
/// integer of any length and reduced modulo the field's prime; the limbs
/// returned hold that residue, least significant limb first.
#[verifier::external_body]
fn ark_from_le_bytes_mod_order(bytes: &[u8]) -> (limbs: [u64; 4])
    ensures
        limbs_value(limbs@) == field_value(bytes@),
{
    ark_bls12_381::Fr::from_le_bytes_mod_order(bytes).into_bigint().0
}

/// `ark_ff::Zero::zero` for `ark_bls12_381::Fr`, followed by
/// `PrimeField::into_bigint`: the limbs of the additive identity, which stand
/// for the number zero.
#[verifier::external_body]
fn ark_zero() -> (limbs: [u64; 4])
    ensures
        limbs_value(limbs@) == 0,
{
    ark_bls12_381::Fr::zero().into_bigint().0
}

/// `Display` of `ark_bls12_381::Fr`, on the element that `From<BigInt<4>>`
/// makes of the limbs: the canonical representative of the element in decimal,
/// without leading zeros. The conversion panics on limbs that stand for the
/// field's prime or more.
#[verifier::external_body]
fn ark_display(limbs: [u64; 4]) -> (text: String)
    requires
        limbs_value(limbs@) < modulus(),
    ensures
        text@ == decimal(limbs_value(limbs@)),
{
    format!("{}", ark_bls12_381::Fr::from(ark_ff::BigInt::new(limbs)))
}

/// An element of the scalar field of BLS12-381.
///
/// The element is held as the limbs of its canonical representative, the one
/// integer below the field's prime in its residue class. Two elements are the
/// same exactly when their values are.
#[derive(Clone, Copy, Debug, PartialEq, Eq, Structural)]
pub struct Fr {
    l0: u64,
    l1: u64,
    l2: u64,
    l3: u64,
}

impl View for Fr {
    type V = nat;

    /// The canonical representative of the element.
    closed spec fn view(&self) -> nat {
        limbs_value(seq![self.l0, self.l1, self.l2, self.l3])
    }
}

impl Fr {
    #[verifier::type_invariant]
    spec fn canonical(self) -> bool {
        self@ < modulus()
    }

    /// The element whose canonical representative the limbs hold.
    fn from_canonical_limbs(limbs: [u64; 4]) -> (element: Fr)
        requires
            limbs_value(limbs@) < modulus(),
        ensures
            element@ == limbs_value(limbs@),
    {
        Fr { l0: limbs[0], l1: limbs[1], l2: limbs[2], l3: limbs[3] }
    }

    /// The additive identity of the field.
    pub fn zero() -> (element: Fr)
        ensures
            element@ == 0,
    {
        Fr::from_canonical_limbs(ark_zero())
    }

    /// The element that a little-endian byte string of any length stands for,
    /// reduced modulo the field's prime.
    pub fn from_le_bytes_mod_order(bytes: &[u8]) -> (element: Fr)
        ensures
            element@ == field_value(bytes@),
    {
        Fr::from_canonical_limbs(ark_from_le_bytes_mod_order(bytes))
    }

    /// The limbs of the canonical representative, least significant limb first.
    pub fn into_bigint(&self) -> (limbs: [u64; 4])
        ensures
            limbs_value(limbs@) == self@,
            self@ < modulus(),
    {
        proof {
            use_type_invariant(self);
        }
        [self.l0, self.l1, self.l2, self.l3]
    }

    /// The element as text: its canonical representative in decimal.
    pub fn to_string(&self) -> (text: String)
        ensures
            text@ == decimal(self@),
    {
        proof {
            use_type_invariant(self);
        }
        ark_display([self.l0, self.l1, self.l2, self.l3])
    }

    /// Whether the element is the additive identity.
    pub fn is_zero(&self) -> (zero: bool)
        ensures
            zero == (self@ == 0),
    {
        self.l0 == 0 && self.l1 == 0 && self.l2 == 0 && self.l3 == 0
    }
}

/// The value decides the element: two elements with the same canonical
/// representative are the same element.
pub proof fn law_value_decides_element(a: Fr, b: Fr)
    requires
        a@ == b@,
    ensures
        a == b,
{
}

} // verus!
