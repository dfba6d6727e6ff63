//! The aggregatable BLS signature: a secret key is a scalar, a public key an
//! element of G2, a signature an element of G1.

use crate::duplicates::{
    duplicate_digests, has_duplicates, lemma_repeated_message_is_found, message_views,
};
use crate::engine::{
    g1_hash, g1_identity, g1_scaled, g1_sum, g1_valid, g2_generator, g2_identity, g2_scaled,
    g2_sum, g2_valid, pair, pair_both, pairing_value, scalar_canonical, seeded_scalar,
    target_eq, target_mul, target_one, target_product, G1Point, G2Point, Scalar, G1_LENGTH,
    G2_LENGTH, HASH_DOMAIN, SCALAR_LENGTH,
};
use bls12_381::Gt;
use rand::rngs::StdRng;
use rayon::iter::{IntoParallelRefIterator, ParallelIterator};
use vstd::prelude::*;

verus! {

/// Number of bytes in an encoded public key.
pub const PUBLIC_KEY_SIZE: usize = 96;

/// Number of bytes in an encoded secret key.
pub const SECRET_KEY_SIZE: usize = 32;

/// Number of bytes in an encoded signature.
pub const SIGNATURE_SIZE: usize = 48;

/// Why bytes were not decoded.
#[derive(Clone, Copy, Debug, PartialEq, Eq, Structural)]
pub enum AggregateSigError {
    /// The input has not the length of the encoding.
    LengthError,
    /// The bytes are no canonical scalar.
    FieldDecodingError,
    /// The bytes encode no element of the group.
    CurveDecodingError,
}

/// A secret key: one scalar.
#[derive(Clone, Copy, Debug)]
pub struct SecretKey {
    scalar: Scalar,
}

impl View for SecretKey {
    type V = Seq<u8>;

    closed spec fn view(&self) -> Seq<u8> {
        self.scalar@
    }
}

/// A public key: one element of G2.
#[derive(Clone, Copy, Debug)]
pub struct PublicKey {
    point: G2Point,
}

impl View for PublicKey {
    type V = Seq<u8>;

    closed spec fn view(&self) -> Seq<u8> {
        self.point@
    }
}

/// A signature: one element of G1.
#[derive(Clone, Copy, Debug)]
pub struct Signature {
    point: G1Point,
}

impl View for Signature {
    type V = Seq<u8>;

    closed spec fn view(&self) -> Seq<u8> {
        self.point@
    }
}

/// What `SecretKey::from_bytes` makes of `b`.
pub open spec fn decode_secret_key(b: Seq<u8>) -> Result<Seq<u8>, AggregateSigError> {
    if b.len() != SECRET_KEY_SIZE {
        Err(AggregateSigError::LengthError)
    } else if !scalar_canonical(b) {
        Err(AggregateSigError::FieldDecodingError)
    } else {
        Ok(b)
    }
}

/// What `PublicKey::from_bytes` makes of `b`.
pub open spec fn decode_public_key(b: Seq<u8>) -> Result<Seq<u8>, AggregateSigError> {
    if b.len() != PUBLIC_KEY_SIZE {
        Err(AggregateSigError::LengthError)
    } else if !g2_valid(b) {
        Err(AggregateSigError::CurveDecodingError)
    } else {
        Ok(b)
    }
}

/// What `Signature::from_bytes` makes of `b`.
pub open spec fn decode_signature(b: Seq<u8>) -> Result<Seq<u8>, AggregateSigError> {
    if b.len() != SIGNATURE_SIZE {
        Err(AggregateSigError::LengthError)
    } else if !g1_valid(b) {
        Err(AggregateSigError::CurveDecodingError)
    } else {
        Ok(b)
    }
}

/// The signature of the key `sk` on `message`: the hash of the message,
/// multiplied by the key.
pub open spec fn signature_of(sk: Seq<u8>, message: Seq<u8>) -> Seq<u8> {
    g1_scaled(g1_hash(message, HASH_DOMAIN@), crate::bytes::le_value(sk))
}

/// The public key of the secret key `sk`: the generator of G2, multiplied by
/// the key.
pub open spec fn public_key_of(sk: Seq<u8>) -> Seq<u8> {
    g2_scaled(g2_generator(), crate::bytes::le_value(sk))
}

/// Whether `signature` is accepted for `message` under the key `pk`: the
/// pairing of the signature with the generator equals that of the hashed
/// message with the key.
pub open spec fn accepts(pk: Seq<u8>, message: Seq<u8>, signature: Seq<u8>) -> bool {
    pairing_value(signature, g2_generator()) == pairing_value(
        g1_hash(message, HASH_DOMAIN@),
        pk,
    )
}

impl SecretKey {
    /// Every secret key holds a canonical scalar.
    #[verifier::type_invariant]
    pub open spec fn wf(self) -> bool {
        scalar_canonical(self@)
    }

    /// Draws a secret key from `rng`.
    pub fn generate(rng: &mut StdRng) -> (sk: SecretKey)
        ensures
            sk.wf(),
    {
        let scalar = Scalar::generate_scalar(rng);
        SecretKey { scalar }
    }

    /// The secret key that the standard generator gives first when seeded
    /// with `seed`: the same key for the same seed.
    pub fn generate_from_seed(seed: u64) -> (sk: SecretKey)
        ensures
            sk@ == seeded_scalar(seed),
            sk.wf(),
    {
        let scalar = Scalar::from_seed(seed);
        SecretKey { scalar }
    }

    /// Decodes a secret key from exactly 32 bytes.
    pub fn from_bytes(b: &[u8]) -> (r: Result<SecretKey, AggregateSigError>)
        ensures
            match r {
                Ok(sk) => decode_secret_key(b@) == Ok::<Seq<u8>, AggregateSigError>(sk@) && sk.wf(),
                Err(e) => decode_secret_key(b@) == Err::<Seq<u8>, AggregateSigError>(e),
            },
    {
        if b.len() != SECRET_KEY_SIZE {
            return Err(AggregateSigError::LengthError);
        }
        match Scalar::bytes_to_scalar(b) {
            Some(scalar) => Ok(SecretKey { scalar }),
            None => Err(AggregateSigError::FieldDecodingError),
        }
    }

    /// The 32 bytes that encode this key.
    pub fn to_bytes(&self) -> (b: Vec<u8>)
        ensures
            b@ == self@,
            b@.len() == SECRET_KEY_SIZE,
            decode_secret_key(b@) == Ok::<Seq<u8>, AggregateSigError>(self@),
    {
        self.scalar.scalar_to_bytes()
    }

    /// Signs `m`. The signature is a function of the key and the message
    /// alone: no randomness enters.
    pub fn sign(&self, m: &[u8]) -> (signature: Signature)
        ensures
            signature@ == signature_of(self@, m@),
            signature.wf(),
    {
        let g1_hash = G1Point::hash_to_group(m);
        let point = g1_hash.mul_by_scalar(&self.scalar);
        Signature { point }
    }

    /// Number of bytes in an encoded secret key.
    pub fn len() -> (n: usize)
        ensures
            n == SECRET_KEY_SIZE,
    {
        SCALAR_LENGTH
    }

    /// Whether both are the same key.
    pub(crate) fn same(&self, other: &SecretKey) -> (r: bool)
        ensures
            r == (self@ == other@),
    {
        self.scalar.same(&other.scalar)
    }
}

impl PartialEq for SecretKey {
    fn eq(&self, other: &Self) -> (same: bool) {
        self.same(other)
    }
}

impl Eq for SecretKey {}

impl vstd::std_specs::cmp::PartialEqSpecImpl for SecretKey {
    open spec fn obeys_eq_spec() -> bool {
        true
    }

    open spec fn eq_spec(&self, other: &Self) -> bool {
        self@ == other@
    }
}

impl PublicKey {
    /// Every public key holds an element of G2.
    #[verifier::type_invariant]
    pub open spec fn wf(self) -> bool {
        self@.len() == PUBLIC_KEY_SIZE && g2_valid(self@)
    }

    /// The public key that belongs to `sk`.
    pub fn from_secret(sk: SecretKey) -> (pk: PublicKey)
        ensures
            pk@ == public_key_of(sk@),
            pk.wf(),
    {
        let point = G2Point::one_point().mul_by_scalar(&sk.scalar);
        PublicKey { point }
    }

    /// Verifies `signature` on the message `m` under this key.
    pub fn verify(&self, m: &[u8], signature: Signature) -> (ok: bool)
        ensures
            ok == accepts(self@, m@, signature@),
    {
        let g1_hash = G1Point::hash_to_group(m);
        let generator = G2Point::one_point();
        let (pair1, pair2) = pair_both(&signature.point, &generator, &g1_hash, &self.point);
        target_eq(&pair1, &pair2)
    }

    /// Decodes a public key from exactly 96 bytes.
    pub fn from_bytes(b: &[u8]) -> (r: Result<PublicKey, AggregateSigError>)
        ensures
            match r {
                Ok(pk) => decode_public_key(b@) == Ok::<Seq<u8>, AggregateSigError>(pk@) && pk.wf(),
                Err(e) => decode_public_key(b@) == Err::<Seq<u8>, AggregateSigError>(e),
            },
    {
        if b.len() != PUBLIC_KEY_SIZE {
            return Err(AggregateSigError::LengthError);
        }
        match G2Point::bytes_to_curve(b) {
            Some(point) => Ok(PublicKey { point }),
            None => Err(AggregateSigError::CurveDecodingError),
        }
    }

    /// The 96 bytes that encode this key.
    pub fn to_bytes(&self) -> (b: Vec<u8>)
        ensures
            b@ == self@,
            b@.len() == PUBLIC_KEY_SIZE,
            decode_public_key(b@) == Ok::<Seq<u8>, AggregateSigError>(self@),
    {
        self.point.curve_to_bytes()
    }

    /// Number of bytes in an encoded public key.
    pub fn len() -> (n: usize)
        ensures
            n == PUBLIC_KEY_SIZE,
    {
        G2_LENGTH
    }

    /// Whether both are the same key.
    pub(crate) fn same(&self, other: &PublicKey) -> (r: bool)
        ensures
            r == (self@ == other@),
    {
        self.point.same(&other.point)
    }
}

impl PartialEq for PublicKey {
    fn eq(&self, other: &Self) -> (same: bool) {
        self.same(other)
    }
}

impl Eq for PublicKey {}

impl vstd::std_specs::cmp::PartialEqSpecImpl for PublicKey {
    open spec fn obeys_eq_spec() -> bool {
        true
    }

    open spec fn eq_spec(&self, other: &Self) -> bool {
        self@ == other@
    }
}

impl Signature {
    /// Every signature holds an element of G1.
    #[verifier::type_invariant]
    pub open spec fn wf(self) -> bool {
        self@.len() == SIGNATURE_SIZE && g1_valid(self@)
    }

    /// The signature that is the identity of G1. It is the neutral element
    /// of aggregation and signs nothing.
    pub fn empty() -> (signature: Signature)
        ensures
            signature@ == g1_identity(),
            signature.wf(),
    {
        Signature { point: G1Point::zero_point() }
    }

    /// Aggregates this signature with `to_aggregate`: the sum of both in G1.
    pub fn aggregate(&self, to_aggregate: Signature) -> (signature: Signature)
        ensures
            signature@ == g1_sum(self@, to_aggregate@),
            signature.wf(),
    {
        Signature { point: self.point.plus_point(&to_aggregate.point) }
    }

    /// Decodes a signature from exactly 48 bytes.
    pub fn from_bytes(b: &[u8]) -> (r: Result<Signature, AggregateSigError>)
        ensures
            match r {
                Ok(s) => decode_signature(b@) == Ok::<Seq<u8>, AggregateSigError>(s@) && s.wf(),
                Err(e) => decode_signature(b@) == Err::<Seq<u8>, AggregateSigError>(e),
            },
    {
        if b.len() != SIGNATURE_SIZE {
            return Err(AggregateSigError::LengthError);
        }
        match G1Point::bytes_to_curve(b) {
            Some(point) => Ok(Signature { point }),
            None => Err(AggregateSigError::CurveDecodingError),
        }
    }

    /// The 48 bytes that encode this signature.
    pub fn to_bytes(&self) -> (b: Vec<u8>)
        ensures
            b@ == self@,
            b@.len() == SIGNATURE_SIZE,
            decode_signature(b@) == Ok::<Seq<u8>, AggregateSigError>(self@),
    {
        self.point.curve_to_bytes()
    }

    /// Number of bytes in an encoded signature.
    pub fn len() -> (n: usize)
        ensures
            n == SIGNATURE_SIZE,
    {
        G1_LENGTH
    }

    /// Whether both are the same signature.
    pub(crate) fn same(&self, other: &Signature) -> (r: bool)
        ensures
            r == (self@ == other@),
    {
        self.point.same(&other.point)
    }
}

impl PartialEq for Signature {
    fn eq(&self, other: &Self) -> (same: bool) {
        self.same(other)
    }
}

impl Eq for Signature {}

impl vstd::std_specs::cmp::PartialEqSpecImpl for Signature {
    open spec fn obeys_eq_spec() -> bool {
        true
    }

    open spec fn eq_spec(&self, other: &Self) -> bool {
        self@ == other@
    }
}

/// A batch as the contracts see it: each message with the encoding of the
/// public key that stands beside it.
pub open spec fn batch_views(m_pk_pairs: Seq<(&[u8], PublicKey)>) -> Seq<(Seq<u8>, Seq<u8>)> {
    m_pk_pairs.map_values(|x: (&[u8], PublicKey)| (x.0@, x.1@))
}

/// The messages of a batch, in its order.
pub open spec fn batch_messages(batch: Seq<(Seq<u8>, Seq<u8>)>) -> Seq<Seq<u8>> {
    batch.map_values(|x: (Seq<u8>, Seq<u8>)| x.0)
}

/// The pairing of a hashed message with a public key.
pub open spec fn hashed_pairing_value(message: Seq<u8>, pk: Seq<u8>) -> Gt {
    pairing_value(g1_hash(message, HASH_DOMAIN@), pk)
}

/// The product, in the target group, of the pairings of all entries of the
/// batch. The empty product is the one of the target group.
pub open spec fn pairing_product(batch: Seq<(Seq<u8>, Seq<u8>)>) -> Gt
    decreases batch.len(),
{
    if batch.len() == 0 {
        pairing_value(g1_identity(), g2_generator())
    } else {
        target_product(
            pairing_product(batch.drop_last()),
            hashed_pairing_value(batch.last().0, batch.last().1),
        )
    }
}

/// Whether `signature` is accepted as the aggregate of one signature per
/// entry of the batch: no message occurs twice, and the pairing of the
/// signature with the generator equals the product over the batch.
pub open spec fn accepts_aggregate(batch: Seq<(Seq<u8>, Seq<u8>)>, signature: Seq<u8>) -> bool {
    !duplicate_digests(batch_messages(batch)) && pairing_value(signature, g2_generator())
        == pairing_product(batch)
}

/// The sum in G2 of the public keys, from the identity on.
pub open spec fn key_sum(pks: Seq<Seq<u8>>) -> Seq<u8>
    decreases pks.len(),
{
    if pks.len() == 0 {
        g2_identity()
    } else {
        g2_sum(key_sum(pks.drop_last()), pks.last())
    }
}

/// The encodings of the public keys.
pub open spec fn key_views(pks: Seq<PublicKey>) -> Seq<Seq<u8>> {
    pks.map_values(|pk: PublicKey| pk@)
}

/// The pairing of the hash of `m` with the key `pk`.
fn hashed_pairing(m: &[u8], pk: &PublicKey) -> (t: Gt)
    ensures
        t == hashed_pairing_value(m@, pk@),
{
    let g1_hash = G1Point::hash_to_group(m);
    pair(&g1_hash, &pk.point)
}

/// `par_iter`, `map` and `collect` of rayon: the pairing of every entry,
/// computed by the pool's threads and gathered in the order of the batch.
#[verifier::external_body]
fn pairings_of_batch(m_pk_pairs: &[(&[u8], PublicKey)]) -> (terms: Vec<Gt>)
    ensures
        terms@.len() == m_pk_pairs@.len(),
        forall|i: int|
            0 <= i < terms@.len() ==> #[trigger] terms@[i] == hashed_pairing_value(
                m_pk_pairs@[i].0@,
                m_pk_pairs@[i].1@,
            ),
{
    m_pk_pairs.par_iter().map(|x| hashed_pairing(x.0, &x.1)).collect()
}

/// Verifies an aggregate of signatures by distinct signers on distinct
/// messages, one signature per entry of `m_pk_pairs`. A batch in which a
/// message occurs twice is rejected before any pairing is computed.
pub fn verify_aggregate_sig(m_pk_pairs: &[(&[u8], PublicKey)], signature: Signature) -> (ok: bool)
    ensures
        ok == accepts_aggregate(batch_views(m_pk_pairs@), signature@),
        duplicate_digests(batch_messages(batch_views(m_pk_pairs@))) ==> !ok,
{
    let n = m_pk_pairs.len();
    let ghost batch = batch_views(m_pk_pairs@);
    let mut messages: Vec<&[u8]> = Vec::with_capacity(n);
    let mut k: usize = 0;
    while k < n
        invariant
            k <= n,
            n == m_pk_pairs@.len(),
            messages@.len() == k,
            forall|i: int| 0 <= i < k ==> #[trigger] messages@[i] == m_pk_pairs@[i].0,
        decreases n - k,
    {
        messages.push(m_pk_pairs[k].0);
        k += 1;
    }
    assert(message_views(messages@) =~= batch_messages(batch));
    if has_duplicates(messages.as_slice()) {
        return false;
    }
    let terms = pairings_of_batch(m_pk_pairs);
    let mut product = target_one();
    let mut i: usize = 0;
    while i < n
        invariant
            i <= n,
            n == m_pk_pairs@.len(),
            n == terms@.len(),
            batch == batch_views(m_pk_pairs@),
            forall|i: int|
                0 <= i < n ==> #[trigger] terms@[i] == hashed_pairing_value(
                    m_pk_pairs@[i].0@,
                    m_pk_pairs@[i].1@,
                ),
            product == pairing_product(batch.take(i as int)),
        decreases n - i,
    {
        proof {
            assert(batch.take(i + 1).drop_last() =~= batch.take(i as int));
            assert(batch.take(i + 1).last() == batch[i as int]);
        }
        product = target_mul(&product, &terms[i]);
        i += 1;
    }
    assert(batch.take(n as int) =~= batch);
    let generator = G2Point::one_point();
    let signed = pair(&signature.point, &generator);
    target_eq(&signed, &product)
}

/// Verifies an aggregate of signatures by the holders of `pks` on the one
/// message `m`. The keys are trusted to belong to their holders; they are
/// summed in G2, and the sum is checked as a single key.
pub fn verify_aggregate_sig_trusted_keys(m: &[u8], pks: &[PublicKey], signature: Signature) -> (ok:
    bool)
    ensures
        ok == accepts(key_sum(key_views(pks@)), m@, signature@),
{
    let n = pks.len();
    let ghost keys = key_views(pks@);
    let mut sum = G2Point::zero_point();
    let mut i: usize = 0;
    while i < n
        invariant
            i <= n,
            n == pks@.len(),
            keys == key_views(pks@),
            sum@ == key_sum(keys.take(i as int)),
        decreases n - i,
    {
        proof {
            assert(keys.take(i + 1).drop_last() =~= keys.take(i as int));
            assert(keys.take(i + 1).last() == keys[i as int]);
        }
        sum = sum.plus_point(&pks[i].point);
        i += 1;
    }
    assert(keys.take(n as int) =~= keys);
    let g1_hash = G1Point::hash_to_group(m);
    let generator = G2Point::one_point();
    let (pair1, pair2) = pair_both(&signature.point, &generator, &g1_hash, &sum);
    target_eq(&pair1, &pair2)
}

/// Decoding inverts encoding: the bytes of a secret key are the fixed number
/// of bytes, and they decode to that key.
pub proof fn lemma_secret_key_round_trip(sk: SecretKey)
    requires
        sk.wf(),
    ensures
        sk@.len() == SECRET_KEY_SIZE,
        decode_secret_key(sk@) == Ok::<Seq<u8>, AggregateSigError>(sk@),
{
}

/// Decoding inverts encoding: the bytes of a public key are the fixed number
/// of bytes, and they decode to that key.
pub proof fn lemma_public_key_round_trip(pk: PublicKey)
    requires
        pk.wf(),
    ensures
        pk@.len() == PUBLIC_KEY_SIZE,
        decode_public_key(pk@) == Ok::<Seq<u8>, AggregateSigError>(pk@),
{
}

/// Decoding inverts encoding: the bytes of a signature are the fixed number
/// of bytes, and they decode to that signature.
pub proof fn lemma_signature_round_trip(signature: Signature)
    requires
        signature.wf(),
    ensures
        signature@.len() == SIGNATURE_SIZE,
        decode_signature(signature@) == Ok::<Seq<u8>, AggregateSigError>(signature@),
{
}

/// Signing is a function of the key and the message: the same key and the
/// same message give the same signature.
pub proof fn lemma_signing_is_deterministic(sk1: SecretKey, sk2: SecretKey, m1: Seq<u8>, m2: Seq<u8>)
    requires
        sk1@ == sk2@,
        m1 == m2,
    ensures
        signature_of(sk1@, m1) == signature_of(sk2@, m2),
{
}

/// A batch in which one message stands at two places is never accepted,
/// whatever the keys and the signature.
pub proof fn lemma_repeated_message_is_rejected(
    batch: Seq<(Seq<u8>, Seq<u8>)>,
    signature: Seq<u8>,
    i: int,
    j: int,
)
    requires
        0 <= i < batch.len(),
        0 <= j < batch.len(),
        i != j,
        batch[i].0 == batch[j].0,
    ensures
        !accepts_aggregate(batch, signature),
{
    lemma_repeated_message_is_found(batch_messages(batch), i, j);
}

} // verus!
