//! Elements of the BLS12-381 scalar field, held as canonical little-endian bytes.
//!
//! The arithmetic itself is done by `dusk_plonk::bls12_381::BlsScalar`; this module
//! states what each operation returns over the natural number an element stands for.

use dusk_bytes::Serializable;
use dusk_plonk::bls12_381::BlsScalar;
use dusk_plonk::bls12_381::ROOT_OF_UNITY;
use vstd::arithmetic::div_mod::*;
use vstd::arithmetic::mul::*;
use vstd::prelude::*;

verus! {

/// The order of the scalar field.
pub open spec fn modulus() -> nat {
    0x73eda753299d7d483339d80809a1d80553bda402fffe5bfeffffffff00000001nat
}

/// The number that `bytes` spell in little-endian order.
pub open spec fn le_value(bytes: Seq<u8>) -> nat
    decreases bytes.len(),
{
    if bytes.len() == 0 {
        0
    } else {
        bytes[0] as nat + 256 * le_value(bytes.drop_first())
    }
}

/// Sum in the field.
pub open spec fn fadd(a: nat, b: nat) -> nat {
    (a + b) % modulus()
}

/// Difference in the field, for `b` below the modulus.
pub open spec fn fsub(a: nat, b: nat) -> nat {
    ((a + modulus() - b) % (modulus() as int)) as nat
}

/// Product in the field.
pub open spec fn fmul(a: nat, b: nat) -> nat {
    (a * b) % modulus()
}

/// `x` is a field element whose product with `a` is one.
pub open spec fn is_inverse(a: nat, x: nat) -> bool {
    x < modulus() && fmul(a, x) == 1
}

/// The multiplicative inverse of `a`, and zero where `a` has none.
pub open spec fn finv(a: nat) -> nat {
    if exists|x: nat| is_inverse(a, x) {
        choose|x: nat| is_inverse(a, x)
    } else {
        0
    }
}

/// `a` raised to the power `e` in the field.
pub open spec fn fpow(a: nat, e: nat) -> nat
    decreases e,
{
    if e == 0 {
        1
    } else {
        fmul(fpow(a, (e - 1) as nat), a)
    }
}

/// The generator of the subgroup of order 2^32 that `dusk_bls12_381` fixes: the
/// power of 7 whose exponent is the odd part of the modulus less one.
pub open spec fn two_adic_root() -> nat {
    fpow(7, ((modulus() - 1) / 0x1_0000_0000) as nat)
}

/// An element has at most one inverse.
pub proof fn lemma_inverse_unique(a: nat, x: nat, y: nat)
    requires
        is_inverse(a, x),
        is_inverse(a, y),
    ensures
        x == y,
{
    let m = modulus() as int;
    let (ai, xi, yi) = (a as int, x as int, y as int);
    // x = x * (a * y) = (x * a) * y = y, all modulo m
    assert((xi * ((ai * yi) % m)) % m == (xi * (ai * yi)) % m) by {
        lemma_mul_mod_noop_right(xi, ai * yi, m);
    }
    assert((((xi * ai) % m) * yi) % m == ((xi * ai) * yi) % m) by {
        lemma_mul_mod_noop_left(xi * ai, yi, m);
    }
    assert(xi * (ai * yi) == (xi * ai) * yi) by {
        lemma_mul_is_associative(xi, ai, yi);
    }
    assert(xi * ai == ai * xi) by {
        lemma_mul_is_commutative(xi, ai);
    }
    assert(xi * 1 == xi && 1 * yi == yi);
    assert(xi % m == xi) by {
        lemma_small_mod(x, modulus());
    }
    assert(yi % m == yi) by {
        lemma_small_mod(y, modulus());
    }
}

/// Whoever has an inverse has `finv` for it.
pub proof fn lemma_finv_is(a: nat, x: nat)
    requires
        is_inverse(a, x),
    ensures
        finv(a) == x,
{
    let c = choose|c: nat| is_inverse(a, c);
    lemma_inverse_unique(a, x, c);
}

/// `BlsScalar::from_bytes`, which `dusk_bytes::Serializable` declares: it accepts
/// exactly the little-endian encodings of numbers below the modulus.
#[verifier::external_body]
fn bls_is_canonical(bytes: &[u8; 32]) -> (r: bool)
    ensures
        r == (le_value(bytes@) < modulus()),
{
    BlsScalar::from_bytes(bytes).is_ok()
}

/// `+` on `BlsScalar`: the sum of two field elements, reduced. The arguments
/// must be canonical, or their decoding panics.
#[verifier::external_body]
fn bls_add(a: &[u8; 32], b: &[u8; 32]) -> (r: [u8; 32])
    requires
        le_value(a@) < modulus(),
        le_value(b@) < modulus(),
    ensures
        le_value(r@) == fadd(le_value(a@), le_value(b@)),
{
    (BlsScalar::from_bytes(a).unwrap() + BlsScalar::from_bytes(b).unwrap()).to_bytes()
}

/// `-` on `BlsScalar`: the difference of two field elements, reduced. The
/// arguments must be canonical, or their decoding panics.
#[verifier::external_body]
fn bls_sub(a: &[u8; 32], b: &[u8; 32]) -> (r: [u8; 32])
    requires
        le_value(a@) < modulus(),
        le_value(b@) < modulus(),
    ensures
        le_value(r@) == fsub(le_value(a@), le_value(b@)),
{
    (BlsScalar::from_bytes(a).unwrap() - BlsScalar::from_bytes(b).unwrap()).to_bytes()
}

/// `*` on `BlsScalar`: the product of two field elements, reduced. The
/// arguments must be canonical, or their decoding panics.
#[verifier::external_body]
fn bls_mul(a: &[u8; 32], b: &[u8; 32]) -> (r: [u8; 32])
    requires
        le_value(a@) < modulus(),
        le_value(b@) < modulus(),
    ensures
        le_value(r@) == fmul(le_value(a@), le_value(b@)),
{
    (BlsScalar::from_bytes(a).unwrap() * BlsScalar::from_bytes(b).unwrap()).to_bytes()
}

/// `BlsScalar::invert`: fails on zero only, and otherwise gives a field element
/// whose product with the argument is one. The argument must be canonical, or
/// its decoding panics.
#[verifier::external_body]
fn bls_invert(a: &[u8; 32]) -> (r: Option<[u8; 32]>)
    requires
        le_value(a@) < modulus(),
    ensures
        le_value(a@) == 0 ==> r is None,
        le_value(a@) != 0 ==> r is Some && is_inverse(le_value(a@), le_value(r->0@)),
{
    Option::<BlsScalar>::from(BlsScalar::from_bytes(a).unwrap().invert()).map(|s| s.to_bytes())
}

/// `ROOT_OF_UNITY` of `dusk_bls12_381`, in canonical bytes. Its documentation
/// gives it as `GENERATOR^t`, where `GENERATOR` is 7 and `t * 2^32 + 1` is the
/// modulus.
#[verifier::external_body]
fn bls_root_of_unity() -> (r: [u8; 32])
    ensures
        le_value(r@) == two_adic_root(),
{
    ROOT_OF_UNITY.to_bytes()
}

/// A field element. Its bytes are the little-endian encoding of a number below
/// the modulus, and that number is its view.
#[derive(Clone, Copy, Debug)]
pub struct Scalar {
    bytes: [u8; 32],
}

impl View for Scalar {
    type V = nat;

    closed spec fn view(&self) -> nat {
        le_value(self.bytes@)
    }
}

impl Scalar {
    /// Holds of every element: it is a number below the modulus.
    #[verifier::type_invariant]
    pub open spec fn canonical(self) -> bool {
        self@ < modulus()
    }

    /// The canonical encoding of the element.
    pub closed spec fn encoding(self) -> Seq<u8> {
        self.bytes@
    }

    /// Reads an element from its 32-byte encoding; `None` where the bytes spell a
    /// number that is not below the modulus.
    pub fn from_bytes(bytes: &[u8; 32]) -> (r: Option<Scalar>)
        ensures
            r is Some <==> le_value(bytes@) < modulus(),
            r matches Some(s) ==> s@ == le_value(bytes@) && s.encoding() == bytes@,
    {
        if bls_is_canonical(bytes) {
            Some(Scalar { bytes: *bytes })
        } else {
            None
        }
    }

    /// The 32-byte encoding of the element.
    pub fn to_bytes(&self) -> (r: [u8; 32])
        ensures
            r@ == self.encoding(),
            le_value(r@) == self@,
    {
        self.bytes
    }

    /// Zero.
    pub fn zero() -> (r: Scalar)
        ensures
            r@ == 0,
    {
        let bytes = [0u8; 32];
        proof {
            lemma_le_value_zeros(bytes@);
        }
        Scalar { bytes }
    }

    /// One.
    pub fn one() -> (r: Scalar)
        ensures
            r@ == 1,
    {
        let mut bytes = [0u8; 32];
        bytes[0] = 1u8;
        proof {
            lemma_le_value_zeros(bytes@.drop_first());
        }
        Scalar { bytes }
    }

    /// The generator of the subgroup of order 2^32.
    pub fn root_of_unity() -> (r: Scalar)
        ensures
            r@ == two_adic_root(),
    {
        Scalar { bytes: bls_root_of_unity() }
    }

    /// Whether two elements are the same number.
    pub fn equals(&self, other: &Scalar) -> (r: bool)
        ensures
            r == (self@ == other@),
    {
        let mut i: usize = 0;
        while i < 32
            invariant
                i <= 32,
                forall|j: int| 0 <= j < i ==> self.bytes@[j] == other.bytes@[j],
            decreases 32 - i,
        {
            if self.bytes[i] != other.bytes[i] {
                proof {
                    if self@ == other@ {
                        lemma_le_value_injective(self.bytes@, other.bytes@);
                    }
                }
                return false;
            }
            i += 1;
        }
        assert(self.bytes@ =~= other.bytes@);
        true
    }

    /// Whether the element is zero.
    pub fn is_zero(&self) -> (r: bool)
        ensures
            r == (self@ == 0),
    {
        let zero = Scalar::zero();
        self.equals(&zero)
    }

    /// The sum of two elements.
    pub fn plus(&self, other: &Scalar) -> (r: Scalar)
        ensures
            r@ == fadd(self@, other@),
    {
        proof {
            use_type_invariant(self);
            use_type_invariant(other);
            lemma_mod_bound((self@ + other@) as int, modulus() as int);
        }
        Scalar { bytes: bls_add(&self.bytes, &other.bytes) }
    }

    /// The difference of two elements.
    pub fn minus(&self, other: &Scalar) -> (r: Scalar)
        ensures
            r@ == fsub(self@, other@),
    {
        proof {
            use_type_invariant(self);
            use_type_invariant(other);
            lemma_mod_bound(self@ + modulus() - other@, modulus() as int);
        }
        Scalar { bytes: bls_sub(&self.bytes, &other.bytes) }
    }

    /// The product of two elements.
    pub fn times(&self, other: &Scalar) -> (r: Scalar)
        ensures
            r@ == fmul(self@, other@),
    {
        proof {
            use_type_invariant(self);
            use_type_invariant(other);
            lemma_mod_bound((self@ * other@) as int, modulus() as int);
        }
        Scalar { bytes: bls_mul(&self.bytes, &other.bytes) }
    }

    /// The multiplicative inverse; `None` for zero and for nothing else.
    pub fn inverse(&self) -> (r: Option<Scalar>)
        ensures
            r is None <==> self@ == 0,
            r matches Some(x) ==> is_inverse(self@, x@) && x@ == finv(self@),
    {
        proof {
            use_type_invariant(self);
        }
        match bls_invert(&self.bytes) {
            None => None,
            Some(bytes) => {
                proof {
                    lemma_finv_is(self@, le_value(bytes@));
                }
                Some(Scalar { bytes })
            },
        }
    }
}

/// The numbers that a sequence of elements stands for.
pub open spec fn values(elements: Seq<Scalar>) -> Seq<nat> {
    elements.map_values(|s: Scalar| s@)
}

/// Bytes that are all zero spell zero.
pub proof fn lemma_le_value_zeros(bytes: Seq<u8>)
    requires
        forall|i: int| 0 <= i < bytes.len() ==> bytes[i] == 0,
    ensures
        le_value(bytes) == 0,
    decreases bytes.len(),
{
    if bytes.len() > 0 {
        lemma_le_value_zeros(bytes.drop_first());
    }
}

/// Two encodings of one length that spell the same number are the same bytes.
pub proof fn lemma_le_value_injective(a: Seq<u8>, b: Seq<u8>)
    requires
        a.len() == b.len(),
        le_value(a) == le_value(b),
    ensures
        a == b,
    decreases a.len(),
{
    if a.len() > 0 {
        let (ta, tb) = (a.drop_first(), b.drop_first());
        assert(le_value(ta) == le_value(tb) && a[0] == b[0]) by {
            let (x, y) = (le_value(ta) as int, le_value(tb) as int);
            if x < y {
                assert(256 * y >= 256 * x + 256) by (nonlinear_arith)
                    requires
                        x < y,
                ;
            } else if y < x {
                assert(256 * x >= 256 * y + 256) by (nonlinear_arith)
                    requires
                        y < x,
                ;
            }
        }
        lemma_le_value_injective(ta, tb);
        assert(b =~= seq![b[0]] + tb);
    } else {
    }
}

} // verus!
