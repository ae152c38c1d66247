//! Elements of the prime field that the verifier works over: the base field of
//! BLS12-381.
//!
//! An element is kept as the six little-endian 64-bit limbs of its canonical
//! representative in `[0, p)`. The arithmetic itself is done by `ark_ff`; the
//! two functions that call it are the only unproved items of this module.

use ark_ff::PrimeField;
use vstd::prelude::*;

verus! {

/// The order `p` of the field.
pub open spec fn modulus() -> int {
    4002409555221667393417789825735904156556882819939007885332058136124031650490837864442687629129015664037894272559787int
}

/// The number that six little-endian 64-bit limbs stand for.
pub open spec fn limbs_value(limbs: [u64; 6]) -> int {
    limbs[0] + limbs[1] * 0x1_0000_0000_0000_0000int + limbs[2]
        * 0x1_0000_0000_0000_0000_0000_0000_0000_0000int + limbs[3]
        * 0x1_0000_0000_0000_0000_0000_0000_0000_0000_0000_0000_0000_0000int + limbs[4]
        * 0x1_0000_0000_0000_0000_0000_0000_0000_0000_0000_0000_0000_0000_0000_0000_0000_0000int
        + limbs[5]
        * 0x1_0000_0000_0000_0000_0000_0000_0000_0000_0000_0000_0000_0000_0000_0000_0000_0000_0000_0000_0000_0000int
}

// The limbs of `p`, least significant first.

const MODULUS_LIMB_0: u64 = 0xb9fe_ffff_ffff_aaab;

const MODULUS_LIMB_1: u64 = 0x1eab_fffe_b153_ffff;

const MODULUS_LIMB_2: u64 = 0x6730_d2a0_f6b0_f624;

const MODULUS_LIMB_3: u64 = 0x6477_4b84_f385_12bf;

const MODULUS_LIMB_4: u64 = 0x4b1b_a7b6_434b_acd7;

const MODULUS_LIMB_5: u64 = 0x1a01_11ea_397f_e69a;

/// An element of the field, held as its canonical representative.
#[derive(Clone, Copy, Debug)]
pub struct FieldElement {
    pub(crate) limbs: [u64; 6],
}

impl FieldElement {
    /// The canonical representative, a number in `[0, p)`.
    pub closed spec fn value(&self) -> int {
        limbs_value(self.limbs)
    }

    /// Every element is reduced: its limbs spell a number below `p`.
    #[verifier::type_invariant]
    pub open spec fn reduced(&self) -> bool {
        0 <= self.value() < modulus()
    }

    /// The limbs as a specification value.
    pub closed spec fn spec_limbs(&self) -> [u64; 6] {
        self.limbs
    }

    /// The element `x mod p`; every `u64` is already reduced.
    pub fn from_u64(x: u64) -> (e: FieldElement)
        ensures
            e.value() == x,
    {
        FieldElement { limbs: [x, 0, 0, 0, 0, 0] }
    }

    /// The additive identity.
    pub fn zero() -> (e: FieldElement)
        ensures
            e.value() == 0,
    {
        FieldElement::from_u64(0)
    }

    /// The multiplicative identity.
    pub fn one() -> (e: FieldElement)
        ensures
            e.value() == 1,
    {
        FieldElement::from_u64(1)
    }

    /// The element whose canonical representative has the given limbs, if
    /// they spell a number below `p`.
    pub fn from_limbs(limbs: [u64; 6]) -> (r: Option<FieldElement>)
        ensures
            r is Some <==> limbs_value(limbs) < modulus(),
            r matches Some(e) ==> e.value() == limbs_value(limbs) && e.spec_limbs() == limbs,
    {
        if below_modulus(&limbs) {
            Some(FieldElement { limbs })
        } else {
            None
        }
    }

    /// The limbs of the canonical representative, least significant first.
    pub fn limbs(&self) -> (l: [u64; 6])
        ensures
            l == self.spec_limbs(),
            limbs_value(l) == self.value(),
            0 <= limbs_value(l) < modulus(),
    {
        proof {
            use_type_invariant(self);
        }
        self.limbs
    }

    /// Whether this is the additive identity.
    pub fn is_zero(&self) -> (z: bool)
        ensures
            z <==> self.value() == 0,
    {
        self.limbs[0] == 0 && self.limbs[1] == 0 && self.limbs[2] == 0 && self.limbs[3] == 0
            && self.limbs[4] == 0 && self.limbs[5] == 0
    }

}

/// Whether the limbs spell a number below `p`: a comparison from the most
/// significant limb down.
fn below_modulus(limbs: &[u64; 6]) -> (b: bool)
    ensures
        b <==> limbs_value(*limbs) < modulus(),
{
    if limbs[5] != MODULUS_LIMB_5 {
        limbs[5] < MODULUS_LIMB_5
    } else if limbs[4] != MODULUS_LIMB_4 {
        limbs[4] < MODULUS_LIMB_4
    } else if limbs[3] != MODULUS_LIMB_3 {
        limbs[3] < MODULUS_LIMB_3
    } else if limbs[2] != MODULUS_LIMB_2 {
        limbs[2] < MODULUS_LIMB_2
    } else if limbs[1] != MODULUS_LIMB_1 {
        limbs[1] < MODULUS_LIMB_1
    } else {
        limbs[0] < MODULUS_LIMB_0
    }
}

/// Multiplication in the field, by `ark_ff`'s `Mul` for `Fp`: the product of
/// the two representatives, reduced modulo `p`. Both arguments go into
/// Montgomery form through `Fp::new`, which takes any reduced integer, and the
/// product comes back through `PrimeField::into_bigint`, which returns the
/// canonical representative.
#[verifier::external_body]
pub(crate) fn field_mul(a: &FieldElement, b: &FieldElement) -> (c: FieldElement)
    ensures
        c.value() == (a.value() * b.value()) % modulus(),
{
    let x = ark_bls12_381::Fq::new(ark_ff::BigInt::new(a.limbs));
    let y = ark_bls12_381::Fq::new(ark_ff::BigInt::new(b.limbs));
    FieldElement { limbs: (x * y).into_bigint().0 }
}

/// A field element drawn by `ark_std::rand::random`, that is by `ark_ff`'s
/// sampler for `Fp` on the thread-local generator. Nothing is claimed of the
/// draw beyond its being an element of the field.
#[verifier::external_body]
pub(crate) fn random_field_element() -> (r: FieldElement)
    ensures
        0 <= r.value() < modulus(),
{
    let drawn: ark_bls12_381::Fq = ark_std::rand::random();
    FieldElement { limbs: drawn.into_bigint().0 }
}

} // verus!
