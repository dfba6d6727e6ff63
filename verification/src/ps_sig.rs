//! The Pointcheval-Sanders signature over several attributes: a secret key
//! is a vector of scalars `y_1 .. y_n` and one more scalar `x`, a signature
//! a pair of elements of G1.

use crate::bytes::le_value;
use crate::engine::{
    g1_generator, g1_scaled, g1_sum, group_order, scalar_canonical, G1Point, Scalar,
    SCALAR_LENGTH,
};
use rand::rngs::StdRng;
use vstd::arithmetic::div_mod::{lemma_add_mod_noop, lemma_fundamental_div_mod, lemma_small_mod};
use vstd::prelude::*;
use vstd::slice::slice_subrange;

verus! {

/// What went wrong.
#[derive(Clone, Copy, Debug, PartialEq, Eq, Structural)]
pub enum InternalError {
    /// Some block of the input is no canonical scalar.
    FieldDecodingError,
    /// The input is no whole number of scalars, or holds more attributes
    /// than the key has room for.
    SecretKeyLengthError,
}

/// An error of signing or decoding.
#[derive(Clone, Copy, Debug, PartialEq, Eq, Structural)]
pub struct SignatureError(pub InternalError);

/// Attributes that the signer sees: at most as many scalars as the key has.
#[derive(Clone, Debug)]
pub struct KnownMessage(pub Vec<Scalar>);

/// A commitment to an attribute that the signer does not see.
#[derive(Clone, Copy, Debug)]
pub struct UnknownMessage(pub G1Point);

/// A signature: an element `h` of G1 and a multiple of it.
#[derive(Clone, Copy, Debug)]
pub struct Signature(pub G1Point, pub G1Point);

/// A secret key.
#[derive(Debug)]
pub struct SecretKey {
    ys: Vec<Scalar>,
    x: Scalar,
}

/// The encodings of a vector of scalars.
pub open spec fn scalar_views(scalars: Seq<Scalar>) -> Seq<Seq<u8>> {
    scalars.map_values(|s: Scalar| s@)
}

/// The numbers that a vector of encodings holds.
pub open spec fn scalar_values(encodings: Seq<Seq<u8>>) -> Seq<nat> {
    encodings.map_values(|b: Seq<u8>| le_value(b))
}

impl View for KnownMessage {
    type V = Seq<Seq<u8>>;

    open spec fn view(&self) -> Seq<Seq<u8>> {
        scalar_views(self.0@)
    }
}

impl View for SecretKey {
    type V = (Seq<Seq<u8>>, Seq<u8>);

    closed spec fn view(&self) -> (Seq<Seq<u8>>, Seq<u8>) {
        (scalar_views(self.ys@), self.x@)
    }
}

/// A key as its view shows it: every scalar in canonical encoding.
pub open spec fn well_formed(key: (Seq<Seq<u8>>, Seq<u8>)) -> bool {
    &&& forall|i: int| 0 <= i < key.0.len() ==> scalar_canonical(#[trigger] key.0[i])
    &&& scalar_canonical(key.1)
}

/// The encodings one after the other.
pub open spec fn concatenation(blocks: Seq<Seq<u8>>) -> Seq<u8>
    decreases blocks.len(),
{
    if blocks.len() == 0 {
        Seq::empty()
    } else {
        concatenation(blocks.drop_last()) + blocks.last()
    }
}

/// The encoding of a key: `y_1 .. y_n`, then `x`.
pub open spec fn encoding(key: (Seq<Seq<u8>>, Seq<u8>)) -> Seq<u8> {
    concatenation(key.0) + key.1
}

/// The `i`-th block of 32 bytes of `b`.
pub open spec fn block(b: Seq<u8>, i: int) -> Seq<u8> {
    b.subrange(32 * i, 32 * i + 32)
}

/// The first `count` blocks of `b`.
pub open spec fn blocks(b: Seq<u8>, count: int) -> Seq<Seq<u8>> {
    Seq::new(count as nat, |i: int| block(b, i))
}

/// What decoding makes of `b`: a key of `b.len() / 32 - 1` attributes, if
/// `b` is a positive number of blocks that are all canonical scalars.
pub open spec fn decoding(b: Seq<u8>) -> Result<(Seq<Seq<u8>>, Seq<u8>), SignatureError> {
    if b.len() == 0 || b.len() % 32 != 0 {
        Err(SignatureError(InternalError::SecretKeyLengthError))
    } else if exists|i: int| 0 <= i < b.len() / 32 && !scalar_canonical(#[trigger] block(b, i)) {
        Err(SignatureError(InternalError::FieldDecodingError))
    } else {
        Ok((blocks(b, b.len() / 32 - 1), block(b, b.len() / 32 - 1)))
    }
}

/// The sum of the products `m_i * y_i` over the attributes of the message.
pub open spec fn inner_product(ms: Seq<nat>, ys: Seq<nat>) -> nat
    decreases ms.len(),
{
    if ms.len() == 0 {
        0
    } else {
        inner_product(ms.drop_last(), ys) + ms.last() * ys[ms.len() - 1]
    }
}

/// The exponent `z = x + sum of m_i * y_i` in the scalar field.
pub open spec fn signing_exponent(key: (Seq<Seq<u8>>, Seq<u8>), message: Seq<Seq<u8>>) -> nat {
    (le_value(key.1) + inner_product(scalar_values(message), scalar_values(key.0)))
        % group_order()
}

/// The signature on known attributes under the randomness `r`: `h = g^r`
/// with its power `h^z`.
pub open spec fn known_signature(
    key: (Seq<Seq<u8>>, Seq<u8>),
    message: Seq<Seq<u8>>,
    r: nat,
) -> (Seq<u8>, Seq<u8>) {
    let h = g1_scaled(g1_generator(), r);
    (h, g1_scaled(h, signing_exponent(key, message)))
}

/// The signature on a commitment under the randomness `r`: `g^r` with
/// `(g^x + commitment)^r`.
pub open spec fn unknown_signature(
    key: (Seq<Seq<u8>>, Seq<u8>),
    commitment: Seq<u8>,
    r: nat,
) -> (Seq<u8>, Seq<u8>) {
    (
        g1_scaled(g1_generator(), r),
        g1_scaled(g1_sum(g1_scaled(g1_generator(), le_value(key.1)), commitment), r),
    )
}

impl View for Signature {
    type V = (Seq<u8>, Seq<u8>);

    open spec fn view(&self) -> (Seq<u8>, Seq<u8>) {
        (self.0@, self.1@)
    }
}

proof fn lemma_concatenation_length(parts: Seq<Seq<u8>>)
    requires
        forall|i: int| 0 <= i < parts.len() ==> (#[trigger] parts[i]).len() == 32,
    ensures
        concatenation(parts).len() == 32 * parts.len(),
    decreases parts.len(),
{
    if parts.len() > 0 {
        lemma_concatenation_length(parts.drop_last());
    }
}

proof fn lemma_concatenation_block(parts: Seq<Seq<u8>>, rest: Seq<u8>, i: int)
    requires
        forall|i: int| 0 <= i < parts.len() ==> (#[trigger] parts[i]).len() == 32,
        0 <= i < parts.len(),
    ensures
        block(concatenation(parts) + rest, i) == parts[i],
    decreases parts.len(),
{
    let front = parts.drop_last();
    lemma_concatenation_length(front);
    if i == parts.len() - 1 {
        assert(block(concatenation(parts) + rest, i) =~= parts.last());
    } else {
        lemma_concatenation_block(front, parts.last() + rest, i);
        assert(concatenation(parts) + rest =~= concatenation(front) + (parts.last() + rest));
    }
}

/// A key is decoded from its own encoding.
pub proof fn lemma_decoding_inverts_encoding(key: (Seq<Seq<u8>>, Seq<u8>))
    requires
        well_formed(key),
    ensures
        decoding(encoding(key)) == Ok::<(Seq<Seq<u8>>, Seq<u8>), SignatureError>(key),
        encoding(key).len() == 32 * (key.0.len() + 1),
{
    let b = encoding(key);
    let n = key.0.len() as int;
    lemma_concatenation_length(key.0);
    assert(b.len() == 32 * (n + 1));
    assert(b.len() % 32 == 0 && b.len() / 32 == n + 1) by {
        lemma_fundamental_div_mod(b.len() as int, 32);
    }
    assert(block(b, n) =~= key.1);
    assert forall|i: int| 0 <= i < n implies block(b, i) == key.0[i] by {
        lemma_concatenation_block(key.0, key.1, i);
    }
    assert(blocks(b, n) =~= key.0);
    assert forall|i: int| 0 <= i < n + 1 implies scalar_canonical(#[trigger] block(b, i)) by {
        if i < n {
            assert(block(b, i) == key.0[i]);
        }
    }
}

impl SecretKey {
    /// Number of attributes that this key signs at most.
    pub fn capacity(&self) -> (n: usize)
        ensures
            n == self@.0.len(),
    {
        self.ys.len()
    }

    /// The encoding of one scalar.
    pub fn value_to_bytes(scalar: &Scalar) -> (b: Vec<u8>)
        ensures
            b@ == scalar@,
            scalar_canonical(b@),
    {
        scalar.scalar_to_bytes()
    }

    /// The encoding of the key: the scalars `y_1 .. y_n`, then `x`, 32 bytes
    /// each.
    pub fn to_bytes(&self) -> (bytes: Vec<u8>)
        ensures
            bytes@ == encoding(self@),
            bytes@.len() == 32 * (self@.0.len() + 1),
            well_formed(self@),
            decoding(bytes@) == Ok::<(Seq<Seq<u8>>, Seq<u8>), SignatureError>(self@),
    {
        let mut bytes: Vec<u8> = Vec::new();
        let n = self.ys.len();
        let ghost views = scalar_views(self.ys@);
        let mut i: usize = 0;
        while i < n
            invariant
                i <= n,
                n == self.ys@.len(),
                views == scalar_views(self.ys@),
                bytes@ == concatenation(views.take(i as int)),
                forall|k: int| 0 <= k < i ==> scalar_canonical(#[trigger] views[k]),
            decreases n - i,
        {
            let v = Self::value_to_bytes(&self.ys[i]);
            proof {
                assert(views.take(i + 1).drop_last() =~= views.take(i as int));
                assert(views.take(i + 1).last() == views[i as int]);
            }
            bytes.extend_from_slice(v.as_slice());
            i += 1;
        }
        let u = Self::value_to_bytes(&self.x);
        bytes.extend_from_slice(u.as_slice());
        proof {
            assert(views.take(n as int) =~= views);
            assert(bytes@ == encoding(self@));
            lemma_decoding_inverts_encoding(self@);
            assert(decoding(bytes@) == Ok::<(Seq<Seq<u8>>, Seq<u8>), SignatureError>(self@));
        }
        bytes
    }

    /// Decodes a key. The input has to be a positive number of blocks of 32
    /// bytes, each a canonical scalar; the last block is `x`.
    pub fn from_bytes(bytes: &[u8]) -> (r: Result<SecretKey, SignatureError>)
        ensures
            match r {
                Ok(key) => decoding(bytes@) == Ok::<(Seq<Seq<u8>>, Seq<u8>), SignatureError>(key@)
                    && well_formed(key@),
                Err(e) => decoding(bytes@) == Err::<(Seq<Seq<u8>>, Seq<u8>), SignatureError>(e),
            },
    {
        let l = bytes.len();
        if l == 0 || l < SCALAR_LENGTH || l % SCALAR_LENGTH != 0 {
            return Err(SignatureError(InternalError::SecretKeyLengthError));
        }
        let vlen = (l / SCALAR_LENGTH) - 1;
        let mut vs: Vec<Scalar> = Vec::new();
        let mut i: usize = 0;
        while i < vlen
            invariant
                i <= vlen,
                l == bytes@.len(),
                l % 32 == 0,
                vlen == l / 32 - 1,
                vs@.len() == i,
                forall|k: int| 0 <= k < i ==> (#[trigger] vs@[k])@ == block(bytes@, k),
                forall|k: int| 0 <= k < i ==> scalar_canonical(#[trigger] block(bytes@, k)),
            decreases vlen - i,
        {
            proof {
                lemma_fundamental_div_mod(l as int, 32);
            }
            let j = i * SCALAR_LENGTH;
            let k = j + SCALAR_LENGTH;
            match Scalar::bytes_to_scalar(slice_subrange(bytes, j, k)) {
                None => {
                    assert(!scalar_canonical(block(bytes@, i as int)));
                    return Err(SignatureError(InternalError::FieldDecodingError));
                },
                Some(fr) => vs.push(fr),
            }
            i += 1;
        }
        proof {
            lemma_fundamental_div_mod(l as int, 32);
        }
        match Scalar::bytes_to_scalar(slice_subrange(bytes, l - SCALAR_LENGTH, l)) {
            None => {
                assert(!scalar_canonical(block(bytes@, vlen as int)));
                Err(SignatureError(InternalError::FieldDecodingError))
            },
            Some(fr) => {
                assert(scalar_views(vs@) =~= blocks(bytes@, vlen as int));
                assert forall|k: int| 0 <= k < l / 32 implies scalar_canonical(
                    #[trigger] block(bytes@, k),
                ) by {
                    if k == vlen {
                        assert(block(bytes@, k) == fr@);
                    }
                }
                Ok(SecretKey { ys: vs, x: fr })
            },
        }
    }

    /// Draws a key for `n` attributes from `csprng`.
    pub fn generate(n: usize, csprng: &mut StdRng) -> (key: SecretKey)
        ensures
            key@.0.len() == n,
            well_formed(key@),
    {
        let mut vs: Vec<Scalar> = Vec::new();
        let mut i: usize = 0;
        while i < n
            invariant
                i <= n,
                vs@.len() == i,
                forall|k: int| 0 <= k < i ==> (#[trigger] vs@[k]).wf(),
            decreases n - i,
        {
            vs.push(Scalar::generate_scalar(csprng));
            i += 1;
        }
        let x = Scalar::generate_scalar(csprng);
        SecretKey { ys: vs, x }
    }

    /// The exponent `z = x + sum of m_i * y_i` for a message that the key
    /// has room for.
    fn exponent(&self, message: &KnownMessage) -> (z: Scalar)
        requires
            message@.len() <= self@.0.len(),
        ensures
            z.value() == signing_exponent(self@, message@),
            z.wf(),
    {
        let ys = &self.ys;
        let ms = &message.0;
        let ghost m_values = scalar_values(message@);
        let ghost y_values = scalar_values(self@.0);
        let mut acc = Scalar::zero();
        let mut i: usize = 0;
        while i < ms.len()
            invariant
                i <= ms@.len(),
                ms@.len() <= ys@.len(),
                m_values == scalar_values(scalar_views(ms@)),
                y_values == scalar_values(scalar_views(ys@)),
                acc.value() == inner_product(m_values.take(i as int), y_values) % group_order(),
            decreases ms@.len() - i,
        {
            let mut r = ms[i];
            r.mul_assign(&ys[i]);
            proof {
                let q = group_order() as int;
                let earlier = inner_product(m_values.take(i as int), y_values) as int;
                let term = (m_values[i as int] * y_values[i as int]) as int;
                assert(m_values.take(i + 1).drop_last() =~= m_values.take(i as int));
                assert(m_values.take(i + 1).last() == m_values[i as int]);
                assert(inner_product(m_values.take(i + 1), y_values) == earlier + term);
                lemma_add_mod_noop(earlier, term, q);
            }
            acc.add_assign(&r);
            i += 1;
        }
        proof {
            let q = group_order() as int;
            let sum = inner_product(m_values, y_values) as int;
            assert(m_values.take(ms@.len() as int) =~= m_values);
            use_type_invariant(&self.x);
            lemma_small_mod(self.x.value(), group_order());
            lemma_add_mod_noop(sum, self.x.value() as int, q);
        }
        acc.add_assign(&self.x);
        acc
    }

    /// Signs the attributes of `message` with the randomness `r`. Fails,
    /// before anything is computed, if the message holds more attributes
    /// than the key.
    pub fn sign_known_message_with(&self, message: &KnownMessage, r: &Scalar) -> (result: Result<
        Signature,
        SignatureError,
    >)
        ensures
            message@.len() > self@.0.len() ==> result == Err::<Signature, SignatureError>(
                SignatureError(InternalError::SecretKeyLengthError),
            ),
            message@.len() <= self@.0.len() ==> result.is_ok() && result.unwrap()@
                == known_signature(self@, message@, r.value()),
    {
        if message.0.len() > self.ys.len() {
            return Err(SignatureError(InternalError::SecretKeyLengthError));
        }
        let z = self.exponent(message);
        let h = G1Point::one_point().mul_by_scalar(r);
        Ok(Signature(h, h.mul_by_scalar(&z)))
    }

    /// Signs the attributes of `message` with randomness drawn from
    /// `csprng`: some `h = g^r` with its power `h^z`. Fails if the message
    /// holds more attributes than the key.
    pub fn sign_known_message(&self, message: &KnownMessage, csprng: &mut StdRng) -> (result:
        Result<Signature, SignatureError>)
        ensures
            message@.len() > self@.0.len() ==> result == Err::<Signature, SignatureError>(
                SignatureError(InternalError::SecretKeyLengthError),
            ),
            message@.len() <= self@.0.len() ==> result.is_ok() && exists|r: nat|
                r < group_order() && result.unwrap()@ == #[trigger] known_signature(
                    self@,
                    message@,
                    r,
                ),
    {
        if message.0.len() > self.ys.len() {
            return Err(SignatureError(InternalError::SecretKeyLengthError));
        }
        let r = Scalar::generate_scalar(csprng);
        proof {
            use_type_invariant(&r);
        }
        self.sign_known_message_with(message, &r)
    }

    /// Signs the commitment `message` with the randomness `r`.
    pub fn sign_unknown_message_with(&self, message: &UnknownMessage, r: &Scalar) -> (result:
        Result<Signature, SignatureError>)
        ensures
            result.is_ok(),
            result.unwrap()@ == unknown_signature(self@, message.0@, r.value()),
    {
        let sk = G1Point::one_point().mul_by_scalar(&self.x);
        let a = G1Point::one_point().mul_by_scalar(r);
        let m = message.0;
        let xmr = sk.plus_point(&m).mul_by_scalar(r);
        Ok(Signature(a, xmr))
    }

    /// Signs the commitment `message` with randomness drawn from `csprng`.
    /// The signer learns nothing of the committed attribute.
    pub fn sign_unknown_message(&self, message: &UnknownMessage, csprng: &mut StdRng) -> (result:
        Result<Signature, SignatureError>)
        ensures
            result.is_ok(),
            exists|r: nat|
                r < group_order() && result.unwrap()@ == #[trigger] unknown_signature(
                    self@,
                    message.0@,
                    r,
                ),
    {
        let r = Scalar::generate_scalar(csprng);
        proof {
            use_type_invariant(&r);
        }
        self.sign_unknown_message_with(message, &r)
    }

    /// Whether both keys hold the same scalars.
    fn same(&self, other: &SecretKey) -> (r: bool)
        ensures
            r == (self@ == other@),
    {
        if self.ys.len() != other.ys.len() {
            assert(self@.0.len() != other@.0.len());
            return false;
        }
        let mut i: usize = 0;
        while i < self.ys.len()
            invariant
                i <= self.ys@.len(),
                self.ys@.len() == other.ys@.len(),
                forall|k: int| 0 <= k < i ==> (#[trigger] self.ys@[k])@ == other.ys@[k]@,
            decreases self.ys@.len() - i,
        {
            if !self.ys[i].same(&other.ys[i]) {
                assert(self@.0[i as int] != other@.0[i as int]);
                return false;
            }
            i += 1;
        }
        assert(self@.0 =~= other@.0);
        self.x.same(&other.x)
    }
}

impl PartialEq for SecretKey {
    fn eq(&self, other: &Self) -> (same: bool) {
        self.same(other)
    }
}

impl Eq for SecretKey {}

impl vstd::std_specs::cmp::PartialEqSpecImpl for SecretKey {
    open spec fn obeys_eq_spec() -> bool {
        true
    }

    open spec fn eq_spec(&self, other: &Self) -> bool {
        self@ == other@
    }
}

} // verus!
