//! The pairing engine: scalars, the groups G1 and G2, and the pairing into
//! the target group, all of BLS12-381.
//!
//! A scalar or a group element is held by its canonical encoding. The
//! engine's arithmetic is done by the `bls12_381` crate; what it returns is
//! named by the functions `g1_sum`, `g1_scaled`, `g1_hash`, `pairing_value`
//! and their like, and every contract of this crate is stated over those.

use crate::bytes::{array_from_slice, bytes_equal, le_value, lemma_le_value_zero, vec_from_array};
use bls12_381::hash_to_curve::{ExpandMsgXmd, HashToCurve};
use bls12_381::{Bls12, G1Affine, G1Projective, G2Affine, G2Projective, Gt};
use ff::Field;
use pairing::Engine;
use rand::rngs::StdRng;
use rand::SeedableRng;
use vstd::prelude::*;

verus! {

/// Number of bytes in an encoded scalar.
pub const SCALAR_LENGTH: usize = 32;

/// Number of bytes in an encoded element of G1.
pub const G1_LENGTH: usize = 48;

/// Number of bytes in an encoded element of G2.
pub const G2_LENGTH: usize = 96;

/// Domain separation tag under which messages are hashed to G1.
pub const HASH_DOMAIN: &'static str = "BLS_SIG_BLS12381G1_XMD:SHA-256_SSWU_RO_NUL_";

/// The prime order of G1, G2 and the target group, which is the modulus of
/// the scalar field.
pub open spec fn group_order() -> nat {
    0x73eda753299d7d483339d80809a1d80553bda402fffe5bfeffffffff00000001nat
}

/// A canonical scalar encoding: 32 bytes that hold, in little-endian order,
/// a number below the group order.
pub open spec fn scalar_canonical(b: Seq<u8>) -> bool {
    b.len() == SCALAR_LENGTH && le_value(b) < group_order()
}

/// Encoding of the fixed generator of G1.
pub open spec fn g1_generator() -> Seq<u8> {
    seq![
        0x97u8, 0xf1u8, 0xd3u8, 0xa7u8, 0x31u8, 0x97u8, 0xd7u8, 0x94u8,
        0x26u8, 0x95u8, 0x63u8, 0x8cu8, 0x4fu8, 0xa9u8, 0xacu8, 0x0fu8,
        0xc3u8, 0x68u8, 0x8cu8, 0x4fu8, 0x97u8, 0x74u8, 0xb9u8, 0x05u8,
        0xa1u8, 0x4eu8, 0x3au8, 0x3fu8, 0x17u8, 0x1bu8, 0xacu8, 0x58u8,
        0x6cu8, 0x55u8, 0xe8u8, 0x3fu8, 0xf9u8, 0x7au8, 0x1au8, 0xefu8,
        0xfbu8, 0x3au8, 0xf0u8, 0x0au8, 0xdbu8, 0x22u8, 0xc6u8, 0xbbu8,
    ]
}

/// Encoding of the fixed generator of G2.
pub open spec fn g2_generator() -> Seq<u8> {
    seq![
        0x93u8, 0xe0u8, 0x2bu8, 0x60u8, 0x52u8, 0x71u8, 0x9fu8, 0x60u8,
        0x7du8, 0xacu8, 0xd3u8, 0xa0u8, 0x88u8, 0x27u8, 0x4fu8, 0x65u8,
        0x59u8, 0x6bu8, 0xd0u8, 0xd0u8, 0x99u8, 0x20u8, 0xb6u8, 0x1au8,
        0xb5u8, 0xdau8, 0x61u8, 0xbbu8, 0xdcu8, 0x7fu8, 0x50u8, 0x49u8,
        0x33u8, 0x4cu8, 0xf1u8, 0x12u8, 0x13u8, 0x94u8, 0x5du8, 0x57u8,
        0xe5u8, 0xacu8, 0x7du8, 0x05u8, 0x5du8, 0x04u8, 0x2bu8, 0x7eu8,
        0x02u8, 0x4au8, 0xa2u8, 0xb2u8, 0xf0u8, 0x8fu8, 0x0au8, 0x91u8,
        0x26u8, 0x08u8, 0x05u8, 0x27u8, 0x2du8, 0xc5u8, 0x10u8, 0x51u8,
        0xc6u8, 0xe4u8, 0x7au8, 0xd4u8, 0xfau8, 0x40u8, 0x3bu8, 0x02u8,
        0xb4u8, 0x51u8, 0x0bu8, 0x64u8, 0x7au8, 0xe3u8, 0xd1u8, 0x77u8,
        0x0bu8, 0xacu8, 0x03u8, 0x26u8, 0xa8u8, 0x05u8, 0xbbu8, 0xefu8,
        0xd4u8, 0x80u8, 0x56u8, 0xc8u8, 0xc1u8, 0x21u8, 0xbdu8, 0xb8u8,
    ]
}

/// Encoding of the point at infinity with `len` bytes: the compression and
/// infinity flags, then zeros.
pub open spec fn infinity_encoding(len: nat) -> Seq<u8> {
    Seq::new(
        len,
        |i: int|
            if i == 0 {
                0xc0u8
            } else {
                0u8
            },
    )
}

/// Encoding of the identity of G1.
pub open spec fn g1_identity() -> Seq<u8> {
    infinity_encoding(48)
}

/// Encoding of the identity of G2.
pub open spec fn g2_identity() -> Seq<u8> {
    infinity_encoding(96)
}

/// Whether `G1Affine::from_compressed` accepts these 48 bytes: they encode a
/// point of the curve that lies in G1.
pub uninterp spec fn g1_valid(b: Seq<u8>) -> bool;

/// Whether `G2Affine::from_compressed` accepts these 96 bytes.
pub uninterp spec fn g2_valid(b: Seq<u8>) -> bool;

/// Encoding of the sum of two elements of G1.
pub uninterp spec fn g1_sum(a: Seq<u8>, b: Seq<u8>) -> Seq<u8>;

/// Encoding of the sum of two elements of G2.
pub uninterp spec fn g2_sum(a: Seq<u8>, b: Seq<u8>) -> Seq<u8>;

/// Encoding of the element `p` of G1 multiplied by the scalar `k`.
pub uninterp spec fn g1_scaled(p: Seq<u8>, k: nat) -> Seq<u8>;

/// Encoding of the element `p` of G2 multiplied by the scalar `k`.
pub uninterp spec fn g2_scaled(p: Seq<u8>, k: nat) -> Seq<u8>;

/// Encoding of the element of G1 that `message` hashes to under `domain`.
pub uninterp spec fn g1_hash(message: Seq<u8>, domain: Seq<char>) -> Seq<u8>;

/// The pairing of an element of G1 with one of G2.
pub uninterp spec fn pairing_value(p: Seq<u8>, q: Seq<u8>) -> Gt;

/// The product of two elements of the target group.
pub uninterp spec fn target_product(a: Gt, b: Gt) -> Gt;

/// The scalar drawn first from the standard generator seeded with `seed`.
pub uninterp spec fn seeded_scalar(seed: u64) -> Seq<u8>;

/// `bls12_381::Gt`, an element of the target group. Nothing is read from it:
/// it is produced by a pairing, multiplied and compared.
#[verifier::external_type_specification]
#[verifier::external_body]
pub struct ExGt(Gt);

/// `rand::rngs::StdRng`, the generator from which scalars are drawn.
#[verifier::external_type_specification]
#[verifier::external_body]
pub struct ExStdRng(StdRng);

/// `Scalar::from_bytes`: succeeds exactly when the 32 bytes, read in
/// little-endian order, are below the modulus.
#[verifier::external_body]
fn scalar_decodes(b: &[u8; 32]) -> (ok: bool)
    ensures
        ok == scalar_canonical(b@),
{
    bool::from(bls12_381::Scalar::from_bytes(b).is_some())
}

/// `Field::random` for `Scalar`, then `Scalar::to_bytes`: some scalar, in its
/// canonical encoding.
#[verifier::external_body]
fn scalar_random(rng: &mut StdRng) -> (r: [u8; 32])
    ensures
        scalar_canonical(r@),
{
    bls12_381::Scalar::random(rng).to_bytes()
}

/// `SeedableRng::seed_from_u64` for `StdRng` and the first `Field::random`
/// drawn from it: a function of the seed alone.
#[verifier::external_body]
fn scalar_from_seed(seed: u64) -> (r: [u8; 32])
    ensures
        r@ == seeded_scalar(seed),
        scalar_canonical(r@),
{
    bls12_381::Scalar::random(StdRng::seed_from_u64(seed)).to_bytes()
}

/// `Add` of `Scalar`, between `Scalar::from_bytes` of the arguments and
/// `Scalar::to_bytes` of the result: the sum modulo the group order.
#[verifier::external_body]
fn scalar_add(a: &[u8; 32], b: &[u8; 32]) -> (r: [u8; 32])
    requires
        scalar_canonical(a@),
        scalar_canonical(b@),
    ensures
        scalar_canonical(r@),
        le_value(r@) == (le_value(a@) + le_value(b@)) % group_order(),
{
    let x = bls12_381::Scalar::from_bytes(a).unwrap();
    let y = bls12_381::Scalar::from_bytes(b).unwrap();
    (x + y).to_bytes()
}

/// `Mul` of `Scalar`, between `Scalar::from_bytes` of the arguments and
/// `Scalar::to_bytes` of the result: the product modulo the group order.
#[verifier::external_body]
fn scalar_mul(a: &[u8; 32], b: &[u8; 32]) -> (r: [u8; 32])
    requires
        scalar_canonical(a@),
        scalar_canonical(b@),
    ensures
        scalar_canonical(r@),
        le_value(r@) == (le_value(a@) * le_value(b@)) % group_order(),
{
    let x = bls12_381::Scalar::from_bytes(a).unwrap();
    let y = bls12_381::Scalar::from_bytes(b).unwrap();
    (x * y).to_bytes()
}

/// `G1Affine::from_compressed`: whether the bytes encode an element of G1.
#[verifier::external_body]
fn g1_decodes(b: &[u8; 48]) -> (ok: bool)
    ensures
        ok == g1_valid(b@),
{
    bool::from(G1Affine::from_compressed(b).is_some())
}

/// `G1Affine::generator`, compressed: the x-coordinate that the design notes
/// of `bls12_381` give, in big-endian order, with the compression flag set
/// and the sort flag not, since its y-coordinate is the smaller of the two.
#[verifier::external_body]
fn g1_generator_bytes() -> (r: [u8; 48])
    ensures
        r@ == g1_generator(),
        g1_valid(r@),
{
    G1Affine::generator().to_compressed()
}

/// `G1Affine::identity`, compressed: the compression and infinity flags over
/// a coordinate of zeros.
#[verifier::external_body]
fn g1_identity_bytes() -> (r: [u8; 48])
    ensures
        r@ == g1_identity(),
        g1_valid(r@),
{
    G1Affine::identity().to_compressed()
}

/// `Add` of `G1Projective` and `G1Affine`, between `from_compressed` of the
/// arguments and `to_compressed` of the result. The sum is again an element
/// of G1.
#[verifier::external_body]
fn g1_add(a: &[u8; 48], b: &[u8; 48]) -> (r: [u8; 48])
    requires
        g1_valid(a@),
        g1_valid(b@),
    ensures
        r@ == g1_sum(a@, b@),
        g1_valid(r@),
{
    let x = G1Affine::from_compressed(a).unwrap();
    let y = G1Affine::from_compressed(b).unwrap();
    G1Affine::from(G1Projective::from(x) + y).to_compressed()
}

/// `Mul` of `G1Affine` and `Scalar`, between the decoding of the arguments
/// and `to_compressed` of the result. The product is again an element of G1.
#[verifier::external_body]
fn g1_mul(p: &[u8; 48], s: &[u8; 32]) -> (r: [u8; 48])
    requires
        g1_valid(p@),
        scalar_canonical(s@),
    ensures
        r@ == g1_scaled(p@, le_value(s@)),
        g1_valid(r@),
{
    let x = G1Affine::from_compressed(p).unwrap();
    let k = bls12_381::Scalar::from_bytes(s).unwrap();
    G1Affine::from(x * k).to_compressed()
}

/// `HashToCurve::hash_to_curve` of `G1Projective` with the message expansion
/// `ExpandMsgXmd` over SHA-256, then `to_compressed`. The result is an
/// element of G1.
#[verifier::external_body]
fn g1_hash_to_curve(message: &[u8], domain: &str) -> (r: [u8; 48])
    ensures
        r@ == g1_hash(message@, domain@),
        g1_valid(r@),
{
    let p = <G1Projective as HashToCurve<ExpandMsgXmd<sha2::Sha256>>>::hash_to_curve(
        message,
        domain.as_bytes(),
    );
    G1Affine::from(p).to_compressed()
}

/// `G2Affine::from_compressed`: whether the bytes encode an element of G2.
#[verifier::external_body]
fn g2_decodes(b: &[u8; 96]) -> (ok: bool)
    ensures
        ok == g2_valid(b@),
{
    bool::from(G2Affine::from_compressed(b).is_some())
}

/// `G2Affine::generator`, compressed: the x-coordinate that the design notes
/// of `bls12_381` give, its second component first, each in big-endian
/// order, with the compression flag set and the sort flag not.
#[verifier::external_body]
fn g2_generator_bytes() -> (r: [u8; 96])
    ensures
        r@ == g2_generator(),
        g2_valid(r@),
{
    G2Affine::generator().to_compressed()
}

/// `G2Affine::identity`, compressed: the compression and infinity flags over
/// a coordinate of zeros.
#[verifier::external_body]
fn g2_identity_bytes() -> (r: [u8; 96])
    ensures
        r@ == g2_identity(),
        g2_valid(r@),
{
    G2Affine::identity().to_compressed()
}

/// `Add` of `G2Projective` and `G2Affine`, between `from_compressed` of the
/// arguments and `to_compressed` of the result. The sum is again an element
/// of G2.
#[verifier::external_body]
fn g2_add(a: &[u8; 96], b: &[u8; 96]) -> (r: [u8; 96])
    requires
        g2_valid(a@),
        g2_valid(b@),
    ensures
        r@ == g2_sum(a@, b@),
        g2_valid(r@),
{
    let x = G2Affine::from_compressed(a).unwrap();
    let y = G2Affine::from_compressed(b).unwrap();
    G2Affine::from(G2Projective::from(x) + y).to_compressed()
}

/// `Mul` of `G2Affine` and `Scalar`, between the decoding of the arguments
/// and `to_compressed` of the result. The product is again an element of G2.
#[verifier::external_body]
fn g2_mul(p: &[u8; 96], s: &[u8; 32]) -> (r: [u8; 96])
    requires
        g2_valid(p@),
        scalar_canonical(s@),
    ensures
        r@ == g2_scaled(p@, le_value(s@)),
        g2_valid(r@),
{
    let x = G2Affine::from_compressed(p).unwrap();
    let k = bls12_381::Scalar::from_bytes(s).unwrap();
    G2Affine::from(x * k).to_compressed()
}

/// `Engine::pairing` of the `pairing` crate for `Bls12`, on the decoded
/// arguments.
#[verifier::external_body]
fn pairing_of(p: &[u8; 48], q: &[u8; 96]) -> (t: Gt)
    requires
        g1_valid(p@),
        g2_valid(q@),
    ensures
        t == pairing_value(p@, q@),
{
    let x = G1Affine::from_compressed(p).unwrap();
    let y = G2Affine::from_compressed(q).unwrap();
    <Bls12 as Engine>::pairing(&x, &y)
}

/// `Gt::identity`, the one of the target group. It is what the pairing gives
/// when one of its arguments is the identity.
#[verifier::external_body]
pub(crate) fn target_one() -> (t: Gt)
    ensures
        t == pairing_value(g1_identity(), g2_generator()),
{
    Gt::identity()
}

/// `Add` of `Gt`: the group operation of the target group, which is a
/// multiplication in the field that holds it.
#[verifier::external_body]
pub(crate) fn target_mul(a: &Gt, b: &Gt) -> (t: Gt)
    ensures
        t == target_product(*a, *b),
{
    a + b
}

/// `PartialEq` of `Gt`: equal exactly when both are the same element.
#[verifier::external_body]
pub(crate) fn target_eq(a: &Gt, b: &Gt) -> (same: bool)
    ensures
        same == (*a == *b),
{
    a == b
}

/// `rayon::join` on two pairings: both are computed, possibly on two
/// threads, and returned in the order given.
#[verifier::external_body]
pub(crate) fn pair_both(a: &G1Point, b: &G2Point, c: &G1Point, d: &G2Point) -> (t: (Gt, Gt))
    ensures
        t.0 == pairing_value(a@, b@),
        t.1 == pairing_value(c@, d@),
{
    rayon::join(|| pair(a, b), || pair(c, d))
}

/// An element of the scalar field.
#[derive(Clone, Copy, Debug)]
pub struct Scalar {
    bytes: [u8; 32],
}

impl View for Scalar {
    type V = Seq<u8>;

    closed spec fn view(&self) -> Seq<u8> {
        self.bytes@
    }
}

impl Scalar {
    /// Every scalar holds a canonical encoding.
    #[verifier::type_invariant]
    pub open spec fn wf(self) -> bool {
        scalar_canonical(self@)
    }

    /// The number below the group order that this scalar is.
    pub open spec fn value(self) -> nat {
        le_value(self@)
    }

    /// The scalar zero.
    pub fn zero() -> (r: Scalar)
        ensures
            r.value() == 0,
            r.wf(),
    {
        let bytes = [0u8; 32];
        proof {
            lemma_le_value_zero(bytes@);
        }
        Scalar { bytes }
    }

    /// Draws a scalar from `rng`.
    pub fn generate_scalar(rng: &mut StdRng) -> (r: Scalar)
        ensures
            r.wf(),
    {
        Scalar { bytes: scalar_random(rng) }
    }

    /// The scalar that the standard generator gives first when seeded with
    /// `seed`.
    pub fn from_seed(seed: u64) -> (r: Scalar)
        ensures
            r@ == seeded_scalar(seed),
            r.wf(),
    {
        Scalar { bytes: scalar_from_seed(seed) }
    }

    /// Decodes a scalar. `None` unless `b` is a canonical encoding.
    pub fn bytes_to_scalar(b: &[u8]) -> (r: Option<Scalar>)
        ensures
            r.is_some() == scalar_canonical(b@),
            r matches Some(s) ==> s@ == b@ && s.wf(),
    {
        if b.len() != SCALAR_LENGTH {
            return None;
        }
        let bytes: [u8; 32] = array_from_slice(b);
        if scalar_decodes(&bytes) {
            Some(Scalar { bytes })
        } else {
            None
        }
    }

    /// The canonical encoding.
    pub fn scalar_to_bytes(&self) -> (b: Vec<u8>)
        ensures
            b@ == self@,
            scalar_canonical(b@),
    {
        proof {
            use_type_invariant(self);
        }
        vec_from_array(&self.bytes)
    }

    /// Adds `other` to this scalar, modulo the group order.
    pub fn add_assign(&mut self, other: &Scalar)
        ensures
            final(self).value() == (old(self).value() + other.value()) % group_order(),
            final(self).wf(),
    {
        proof {
            use_type_invariant(&*self);
            use_type_invariant(other);
        }
        self.bytes = scalar_add(&self.bytes, &other.bytes);
    }

    /// Multiplies this scalar by `other`, modulo the group order.
    pub fn mul_assign(&mut self, other: &Scalar)
        ensures
            final(self).value() == (old(self).value() * other.value()) % group_order(),
            final(self).wf(),
    {
        proof {
            use_type_invariant(&*self);
            use_type_invariant(other);
        }
        self.bytes = scalar_mul(&self.bytes, &other.bytes);
    }

    /// Whether both are the same scalar.
    pub(crate) fn same(&self, other: &Scalar) -> (r: bool)
        ensures
            r == (self@ == other@),
    {
        bytes_equal(self.bytes.as_slice(), other.bytes.as_slice())
    }
}

impl PartialEq for Scalar {
    fn eq(&self, other: &Self) -> (same: bool) {
        self.same(other)
    }
}

impl Eq for Scalar {}

impl vstd::std_specs::cmp::PartialEqSpecImpl for Scalar {
    open spec fn obeys_eq_spec() -> bool {
        true
    }

    open spec fn eq_spec(&self, other: &Self) -> bool {
        self@ == other@
    }
}

/// An element of G1.
#[derive(Clone, Copy, Debug)]
pub struct G1Point {
    bytes: [u8; 48],
}

impl View for G1Point {
    type V = Seq<u8>;

    closed spec fn view(&self) -> Seq<u8> {
        self.bytes@
    }
}

impl G1Point {
    /// Every point holds the encoding of an element of G1.
    #[verifier::type_invariant]
    pub open spec fn wf(self) -> bool {
        self@.len() == G1_LENGTH && g1_valid(self@)
    }

    /// The identity of G1.
    pub fn zero_point() -> (r: G1Point)
        ensures
            r@ == g1_identity(),
            r.wf(),
    {
        G1Point { bytes: g1_identity_bytes() }
    }

    /// The fixed generator of G1.
    pub fn one_point() -> (r: G1Point)
        ensures
            r@ == g1_generator(),
            r.wf(),
    {
        G1Point { bytes: g1_generator_bytes() }
    }

    /// The sum of this point and `other`.
    pub fn plus_point(&self, other: &G1Point) -> (r: G1Point)
        ensures
            r@ == g1_sum(self@, other@),
            r.wf(),
    {
        proof {
            use_type_invariant(self);
            use_type_invariant(other);
        }
        G1Point { bytes: g1_add(&self.bytes, &other.bytes) }
    }

    /// This point multiplied by `scalar`.
    pub fn mul_by_scalar(&self, scalar: &Scalar) -> (r: G1Point)
        ensures
            r@ == g1_scaled(self@, scalar.value()),
            r.wf(),
    {
        proof {
            use_type_invariant(self);
            use_type_invariant(scalar);
        }
        G1Point { bytes: g1_mul(&self.bytes, &scalar.bytes) }
    }

    /// The point that `message` hashes to.
    pub fn hash_to_group(message: &[u8]) -> (r: G1Point)
        ensures
            r@ == g1_hash(message@, HASH_DOMAIN@),
            r.wf(),
    {
        G1Point { bytes: g1_hash_to_curve(message, HASH_DOMAIN) }
    }

    /// Decodes a point. `None` unless `b` is 48 bytes that encode an element
    /// of G1.
    pub fn bytes_to_curve(b: &[u8]) -> (r: Option<G1Point>)
        ensures
            r.is_some() == (b@.len() == G1_LENGTH && g1_valid(b@)),
            r matches Some(p) ==> p@ == b@ && p.wf(),
    {
        if b.len() != G1_LENGTH {
            return None;
        }
        let bytes: [u8; 48] = array_from_slice(b);
        if g1_decodes(&bytes) {
            Some(G1Point { bytes })
        } else {
            None
        }
    }

    /// The encoding of this point.
    pub fn curve_to_bytes(&self) -> (b: Vec<u8>)
        ensures
            b@ == self@,
            b@.len() == G1_LENGTH,
            g1_valid(b@),
    {
        proof {
            use_type_invariant(self);
        }
        vec_from_array(&self.bytes)
    }

    /// Whether both are the same point.
    pub(crate) fn same(&self, other: &G1Point) -> (r: bool)
        ensures
            r == (self@ == other@),
    {
        bytes_equal(self.bytes.as_slice(), other.bytes.as_slice())
    }
}

impl PartialEq for G1Point {
    fn eq(&self, other: &Self) -> (same: bool) {
        self.same(other)
    }
}

impl Eq for G1Point {}

impl vstd::std_specs::cmp::PartialEqSpecImpl for G1Point {
    open spec fn obeys_eq_spec() -> bool {
        true
    }

    open spec fn eq_spec(&self, other: &Self) -> bool {
        self@ == other@
    }
}

/// An element of G2.
#[derive(Clone, Copy, Debug)]
pub struct G2Point {
    bytes: [u8; 96],
}

impl View for G2Point {
    type V = Seq<u8>;

    closed spec fn view(&self) -> Seq<u8> {
        self.bytes@
    }
}

impl G2Point {
    /// Every point holds the encoding of an element of G2.
    #[verifier::type_invariant]
    pub open spec fn wf(self) -> bool {
        self@.len() == G2_LENGTH && g2_valid(self@)
    }

    /// The identity of G2.
    pub fn zero_point() -> (r: G2Point)
        ensures
            r@ == g2_identity(),
            r.wf(),
    {
        G2Point { bytes: g2_identity_bytes() }
    }

    /// The fixed generator of G2.
    pub fn one_point() -> (r: G2Point)
        ensures
            r@ == g2_generator(),
            r.wf(),
    {
        G2Point { bytes: g2_generator_bytes() }
    }

    /// The sum of this point and `other`.
    pub fn plus_point(&self, other: &G2Point) -> (r: G2Point)
        ensures
            r@ == g2_sum(self@, other@),
            r.wf(),
    {
        proof {
            use_type_invariant(self);
            use_type_invariant(other);
        }
        G2Point { bytes: g2_add(&self.bytes, &other.bytes) }
    }

    /// This point multiplied by `scalar`.
    pub fn mul_by_scalar(&self, scalar: &Scalar) -> (r: G2Point)
        ensures
            r@ == g2_scaled(self@, scalar.value()),
            r.wf(),
    {
        proof {
            use_type_invariant(self);
            use_type_invariant(scalar);
        }
        G2Point { bytes: g2_mul(&self.bytes, &scalar.bytes) }
    }

    /// Decodes a point. `None` unless `b` is 96 bytes that encode an element
    /// of G2.
    pub fn bytes_to_curve(b: &[u8]) -> (r: Option<G2Point>)
        ensures
            r.is_some() == (b@.len() == G2_LENGTH && g2_valid(b@)),
            r matches Some(p) ==> p@ == b@ && p.wf(),
    {
        if b.len() != G2_LENGTH {
            return None;
        }
        let bytes: [u8; 96] = array_from_slice(b);
        if g2_decodes(&bytes) {
            Some(G2Point { bytes })
        } else {
            None
        }
    }

    /// The encoding of this point.
    pub fn curve_to_bytes(&self) -> (b: Vec<u8>)
        ensures
            b@ == self@,
            b@.len() == G2_LENGTH,
            g2_valid(b@),
    {
        proof {
            use_type_invariant(self);
        }
        vec_from_array(&self.bytes)
    }

    /// Whether both are the same point.
    pub(crate) fn same(&self, other: &G2Point) -> (r: bool)
        ensures
            r == (self@ == other@),
    {
        bytes_equal(self.bytes.as_slice(), other.bytes.as_slice())
    }
}

impl PartialEq for G2Point {
    fn eq(&self, other: &Self) -> (same: bool) {
        self.same(other)
    }
}

impl Eq for G2Point {}

impl vstd::std_specs::cmp::PartialEqSpecImpl for G2Point {
    open spec fn obeys_eq_spec() -> bool {
        true
    }

    open spec fn eq_spec(&self, other: &Self) -> bool {
        self@ == other@
    }
}

/// The pairing of `p` with `q`.
pub fn pair(p: &G1Point, q: &G2Point) -> (t: Gt)
    ensures
        t == pairing_value(p@, q@),
{
    proof {
        use_type_invariant(p);
        use_type_invariant(q);
    }
    pairing_of(&p.bytes, &q.bytes)
}

} // verus!
