//! The signatures of a transaction, by credential and key, and their binary
//! encoding.
//!
//! In the encoding, every count is one byte, every index is one byte, and a
//! signature is its length in two bytes, most significant first, followed by
//! its bytes. Credentials and keys stand in increasing order of their
//! indices.

use std::collections::BTreeMap;
use vstd::prelude::*;
use vstd::slice::{slice_subrange, slice_to_vec};

verus! {

/// A single signature. Its length is encoded in two bytes, and thus the
/// largest size is 65535 bytes.
#[derive(Clone, Debug)]
pub struct Signature {
    pub sig: Vec<u8>,
}

/// Transaction signature structure: for every credential that signs, by its
/// index, the signatures of its keys, by their indices.
#[derive(Clone, PartialEq, Eq, Debug)]
pub struct TransactionSignature {
    pub signatures: BTreeMap<u8, BTreeMap<u8, Signature>>,
}

/// Why bytes are no transaction signature.
#[derive(Clone, Copy, Debug, PartialEq, Eq, Structural)]
pub enum ParseError {
    /// The input ends before the value does.
    UnexpectedEnd,
    /// Number of signatures must not be 0.
    NoCredentials,
    /// Credential indices must be strictly increasing.
    CredentialOrder,
    /// Each credential must have at least one signature.
    NoSignatures,
    /// Key indices must be strictly increasing.
    KeyOrder,
}

impl View for Signature {
    type V = Seq<u8>;

    open spec fn view(&self) -> Seq<u8> {
        self.sig@
    }
}

/// The signatures of one credential as the contracts see them.
pub open spec fn key_views(keys: Map<u8, Signature>) -> Map<u8, Seq<u8>> {
    Map::new(|k: u8| keys.contains_key(k), |k: u8| keys[k]@)
}

impl View for TransactionSignature {
    type V = Map<u8, Map<u8, Seq<u8>>>;

    open spec fn view(&self) -> Map<u8, Map<u8, Seq<u8>>> {
        Map::new(
            |c: u8| self.signatures@.contains_key(c),
            |c: u8| key_views(self.signatures@[c]@),
        )
    }
}

/// How many indices from `from` on are keys of the map.
pub open spec fn count_from<V>(m: Map<u8, V>, from: int) -> nat
    decreases 256 - from,
{
    if from >= 256 || from < 0 {
        0
    } else if m.contains_key(from as u8) {
        1 + count_from(m, from + 1)
    } else {
        count_from(m, from + 1)
    }
}

/// The two bytes of a length, most significant first. A length beyond two
/// bytes loses what is above.
pub open spec fn length_bytes(n: nat) -> Seq<u8> {
    seq![((n / 256) % 256) as u8, (n % 256) as u8]
}

/// The encoding of a signature.
pub open spec fn encoded_signature(sig: Seq<u8>) -> Seq<u8> {
    length_bytes(sig.len()) + sig
}

/// The encoding of the keys from `from` on with their signatures.
pub open spec fn encoded_keys(keys: Map<u8, Seq<u8>>, from: int) -> Seq<u8>
    decreases 256 - from,
{
    if from >= 256 || from < 0 {
        Seq::empty()
    } else if keys.contains_key(from as u8) {
        seq![from as u8] + encoded_signature(keys[from as u8]) + encoded_keys(keys, from + 1)
    } else {
        encoded_keys(keys, from + 1)
    }
}

/// The encoding of one credential: its index, the count of its keys, and
/// the keys.
pub open spec fn encoded_credential(index: u8, keys: Map<u8, Seq<u8>>) -> Seq<u8> {
    seq![index, (count_from(keys, 0) % 256) as u8] + encoded_keys(keys, 0)
}

/// The encoding of the credentials from `from` on.
pub open spec fn encoded_credentials(m: Map<u8, Map<u8, Seq<u8>>>, from: int) -> Seq<u8>
    decreases 256 - from,
{
    if from >= 256 || from < 0 {
        Seq::empty()
    } else if m.contains_key(from as u8) {
        encoded_credential(from as u8, m[from as u8]) + encoded_credentials(m, from + 1)
    } else {
        encoded_credentials(m, from + 1)
    }
}

/// The encoding of a transaction signature: the count of its credentials,
/// and the credentials.
pub open spec fn encoded_transaction_signature(m: Map<u8, Map<u8, Seq<u8>>>) -> Seq<u8> {
    seq![(count_from(m, 0) % 256) as u8] + encoded_credentials(m, 0)
}

/// The signature that stands at `at` in `b`, and the place behind it.
pub open spec fn parsed_signature(b: Seq<u8>, at: int) -> Result<(Seq<u8>, int), ParseError> {
    if at < 0 || at + 2 > b.len() {
        Err(ParseError::UnexpectedEnd)
    } else {
        let len = b[at] * 256 + b[at + 1];
        if at + 2 + len > b.len() {
            Err(ParseError::UnexpectedEnd)
        } else {
            Ok((b.subrange(at + 2, at + 2 + len), at + 2 + len))
        }
    }
}

/// Reads `count` keys with their signatures from `at` on and adds them to
/// `acc`. Every key has to be larger than the one before it, which is
/// `last`.
pub open spec fn parsed_keys(
    b: Seq<u8>,
    at: int,
    count: nat,
    last: Option<u8>,
    acc: Map<u8, Seq<u8>>,
) -> Result<(Map<u8, Seq<u8>>, int), ParseError>
    decreases count,
{
    if count == 0 {
        Ok((acc, at))
    } else if at < 0 || at >= b.len() {
        Err(ParseError::UnexpectedEnd)
    } else {
        match parsed_signature(b, at + 1) {
            Err(e) => Err(e),
            Ok((sig, next)) => if last is Some && b[at] <= last->Some_0 {
                Err(ParseError::KeyOrder)
            } else {
                parsed_keys(b, next, (count - 1) as nat, Some(b[at]), acc.insert(b[at], sig))
            },
        }
    }
}

/// Reads `count` credentials from `at` on and adds them to `acc`. Every
/// index has to be larger than the one before it, which is `last`, and
/// every credential has to hold a key.
pub open spec fn parsed_credentials(
    b: Seq<u8>,
    at: int,
    count: nat,
    last: Option<u8>,
    acc: Map<u8, Map<u8, Seq<u8>>>,
) -> Result<(Map<u8, Map<u8, Seq<u8>>>, int), ParseError>
    decreases count,
{
    if count == 0 {
        Ok((acc, at))
    } else if at < 0 || at >= b.len() {
        Err(ParseError::UnexpectedEnd)
    } else if last is Some && b[at] <= last->Some_0 {
        Err(ParseError::CredentialOrder)
    } else if at + 1 >= b.len() {
        Err(ParseError::UnexpectedEnd)
    } else if b[at + 1] == 0 {
        Err(ParseError::NoSignatures)
    } else {
        match parsed_keys(b, at + 2, b[at + 1] as nat, None, Map::empty()) {
            Err(e) => Err(e),
            Ok((keys, next)) => parsed_credentials(
                b,
                next,
                (count - 1) as nat,
                Some(b[at]),
                acc.insert(b[at], keys),
            ),
        }
    }
}

/// The transaction signature that stands at `at` in `b`, and the place
/// behind it: a count that is not zero, and as many credentials.
pub open spec fn parsed_transaction_signature(b: Seq<u8>, at: int) -> Result<
    (Map<u8, Map<u8, Seq<u8>>>, int),
    ParseError,
> {
    if at < 0 || at >= b.len() {
        Err(ParseError::UnexpectedEnd)
    } else if b[at] == 0 {
        Err(ParseError::NoCredentials)
    } else {
        parsed_credentials(b, at + 1, b[at] as nat, None, Map::empty())
    }
}

/// A transaction signature that is read back from its encoding: it holds
/// between 1 and 255 credentials, each of them between 1 and 255 keys, and
/// no signature is longer than 65535 bytes.
pub open spec fn encodable(m: Map<u8, Map<u8, Seq<u8>>>) -> bool {
    &&& m.dom().finite()
    &&& 1 <= m.len() <= 255
    &&& forall|c: u8| #[trigger]
        m.contains_key(c) ==> {
            &&& m[c].dom().finite()
            &&& 1 <= m[c].len() <= 255
            &&& forall|k: u8| #[trigger] m[c].contains_key(k) ==> m[c][k].len() <= 65535
        }
}

/// The keys of a map from `from` on.
spec fn keys_from<V>(m: Map<u8, V>, from: int) -> Set<u8> {
    m.dom().filter(|k: u8| k >= from)
}

proof fn lemma_count_from_is_len<V>(m: Map<u8, V>, from: int)
    requires
        m.dom().finite(),
        0 <= from <= 256,
    ensures
        keys_from(m, from).finite(),
        count_from(m, from) == keys_from(m, from).len(),
        count_from(m, from) <= 256 - from,
    decreases 256 - from,
{
    m.dom().lemma_len_filter(|k: u8| k >= from);
    if from >= 256 {
        assert(keys_from(m, from) =~= Set::<u8>::empty());
    } else {
        lemma_count_from_is_len(m, from + 1);
        let rest = keys_from(m, from + 1);
        if m.contains_key(from as u8) {
            assert(keys_from(m, from) =~= rest.insert(from as u8));
        } else {
            assert(keys_from(m, from) =~= rest);
        }
    }
}

/// A map by one byte has as many keys as `count_from` counts, and not more
/// than 256.
pub proof fn lemma_count_is_len<V>(m: Map<u8, V>)
    requires
        m.dom().finite(),
    ensures
        count_from(m, 0) == m.len(),
        m.len() <= 256,
{
    lemma_count_from_is_len(m, 0);
    assert(keys_from(m, 0) =~= m.dom());
}

impl Signature {
    /// The bytes of the signature.
    pub fn as_ref(&self) -> (bytes: &[u8])
        ensures
            bytes@ == self@,
    {
        self.sig.as_slice()
    }

    /// Appends the encoding of the signature to `out`.
    pub fn serial(&self, out: &mut Vec<u8>)
        ensures
            final(out)@ == old(out)@ + encoded_signature(self@),
    {
        let len = self.sig.len();
        out.push(((len / 256) % 256) as u8);
        out.push((len % 256) as u8);
        out.extend_from_slice(self.sig.as_slice());
        assert(out@ =~= old(out)@ + encoded_signature(self@));
    }

    /// Reads the signature that stands at `at` in `source`. Returns it with
    /// the place behind it.
    pub fn deserial(source: &[u8], at: usize) -> (r: Result<(Signature, usize), ParseError>)
        ensures
            match r {
                Ok((signature, next)) => parsed_signature(source@, at as int) == Ok::<
                    (Seq<u8>, int),
                    ParseError,
                >((signature@, next as int)),
                Err(e) => parsed_signature(source@, at as int) == Err::<(Seq<u8>, int), ParseError>(
                    e,
                ),
            },
    {
        if at > source.len() || source.len() - at < 2 {
            return Err(ParseError::UnexpectedEnd);
        }
        let high: usize = source[at] as usize;
        let low: usize = source[at + 1] as usize;
        let len = high * 256 + low;
        if source.len() - at - 2 < len {
            return Err(ParseError::UnexpectedEnd);
        }
        let sig = slice_to_vec(slice_subrange(source, at + 2, at + 2 + len));
        Ok((Signature { sig }, at + 2 + len))
    }

    /// Whether both signatures hold the same bytes.
    fn same(&self, other: &Signature) -> (r: bool)
        ensures
            r == (self@ == other@),
    {
        crate::bytes::bytes_equal(self.sig.as_slice(), other.sig.as_slice())
    }
}

impl PartialEq for Signature {
    fn eq(&self, other: &Self) -> (same: bool) {
        self.same(other)
    }
}

impl Eq for Signature {}

impl vstd::std_specs::cmp::PartialEqSpecImpl for Signature {
    open spec fn obeys_eq_spec() -> bool {
        true
    }

    open spec fn eq_spec(&self, other: &Self) -> bool {
        self@ == other@
    }
}

/// Appends the encoding of the keys of one credential to `out`.
fn serial_keys(keys: &BTreeMap<u8, Signature>, out: &mut Vec<u8>)
    ensures
        final(out)@ == old(out)@ + encoded_keys(key_views(keys@), 0),
{
    broadcast use vstd::std_specs::btree::group_btree_axioms;

    let ghost views = key_views(keys@);
    let mut k: usize = 0;
    assert(out@ + encoded_keys(views, 0) =~= old(out)@ + encoded_keys(views, 0));
    while k < 256
        invariant
            k <= 256,
            views == key_views(keys@),
            out@ + encoded_keys(views, k as int) == old(out)@ + encoded_keys(views, 0),
        decreases 256 - k,
    {
        let ghost before = out@;
        match keys.get(&(k as u8)) {
            Some(signature) => {
                out.push(k as u8);
                signature.serial(out);
                assert(out@ + encoded_keys(views, k + 1) =~= before + encoded_keys(
                    views,
                    k as int,
                ));
            },
            None => {},
        }
        k += 1;
    }
    assert(out@ + encoded_keys(views, 256) =~= out@);
}

/// Reads `count` keys with their signatures from `at` on.
fn deserial_keys(source: &[u8], at: usize, count: u8) -> (r: Result<
    (BTreeMap<u8, Signature>, usize),
    ParseError,
>)
    ensures
        match r {
            Ok((keys, next)) => parsed_keys(source@, at as int, count as nat, None, Map::empty())
                == Ok::<(Map<u8, Seq<u8>>, int), ParseError>((key_views(keys@), next as int)),
            Err(e) => parsed_keys(source@, at as int, count as nat, None, Map::empty()) == Err::<
                (Map<u8, Seq<u8>>, int),
                ParseError,
            >(e),
        },
{
    broadcast use vstd::std_specs::btree::group_btree_axioms;

    let mut out: BTreeMap<u8, Signature> = BTreeMap::new();
    let mut last: Option<u8> = None;
    let mut pos = at;
    let mut i: u8 = 0;
    assert(key_views(out@) =~= Map::<u8, Seq<u8>>::empty());
    while i < count
        invariant
            i <= count,
            parsed_keys(source@, at as int, count as nat, None, Map::empty()) == parsed_keys(
                source@,
                pos as int,
                (count - i) as nat,
                last,
                key_views(out@),
            ),
        decreases count - i,
    {
        if pos >= source.len() {
            return Err(ParseError::UnexpectedEnd);
        }
        let k = source[pos];
        match Signature::deserial(source, pos + 1) {
            Err(e) => {
                return Err(e);
            },
            Ok((signature, next)) => {
                match last {
                    Some(l) => {
                        if k <= l {
                            return Err(ParseError::KeyOrder);
                        }
                    },
                    None => {},
                }
                let ghost before = key_views(out@);
                let ghost sig = signature@;
                out.insert(k, signature);
                assert(key_views(out@) =~= before.insert(k, sig));
                last = Some(k);
                pos = next;
            },
        }
        i += 1;
    }
    Ok((out, pos))
}

impl TransactionSignature {
    /// Reads the transaction signature that stands at `at` in `source`.
    /// Returns it with the place behind it.
    pub fn deserial(source: &[u8], at: usize) -> (r: Result<
        (TransactionSignature, usize),
        ParseError,
    >)
        ensures
            match r {
                Ok((ts, next)) => parsed_transaction_signature(source@, at as int) == Ok::<
                    (Map<u8, Map<u8, Seq<u8>>>, int),
                    ParseError,
                >((ts@, next as int)),
                Err(e) => parsed_transaction_signature(source@, at as int) == Err::<
                    (Map<u8, Map<u8, Seq<u8>>>, int),
                    ParseError,
                >(e),
            },
    {
        broadcast use vstd::std_specs::btree::group_btree_axioms;

        if at >= source.len() {
            return Err(ParseError::UnexpectedEnd);
        }
        let num_creds = source[at];
        if num_creds == 0 {
            return Err(ParseError::NoCredentials);
        }
        let mut out = TransactionSignature { signatures: BTreeMap::new() };
        let mut last: Option<u8> = None;
        let mut pos = at + 1;
        let mut i: u8 = 0;
        assert(out@ =~= Map::<u8, Map<u8, Seq<u8>>>::empty());
        while i < num_creds
            invariant
                i <= num_creds,
                parsed_transaction_signature(source@, at as int) == parsed_credentials(
                    source@,
                    pos as int,
                    (num_creds - i) as nat,
                    last,
                    out@,
                ),
            decreases num_creds - i,
        {
            if pos >= source.len() {
                return Err(ParseError::UnexpectedEnd);
            }
            let idx = source[pos];
            match last {
                Some(l) => {
                    if idx <= l {
                        return Err(ParseError::CredentialOrder);
                    }
                },
                None => {},
            }
            if pos + 1 >= source.len() {
                return Err(ParseError::UnexpectedEnd);
            }
            let inner_len = source[pos + 1];
            if inner_len == 0 {
                return Err(ParseError::NoSignatures);
            }
            match deserial_keys(source, pos + 2, inner_len) {
                Err(e) => {
                    return Err(e);
                },
                Ok((inner_map, next)) => {
                    let ghost before = out@;
                    let ghost keys = key_views(inner_map@);
                    out.signatures.insert(idx, inner_map);
                    assert(out@ =~= before.insert(idx, keys));
                    last = Some(idx);
                    pos = next;
                },
            }
            i += 1;
        }
        Ok((out, pos))
    }

    /// A transaction signature without any signature.
    pub fn new() -> (ts: TransactionSignature)
        ensures
            ts@ == Map::<u8, Map<u8, Seq<u8>>>::empty(),
    {
        let ts = TransactionSignature { signatures: BTreeMap::new() };
        assert(ts@ =~= Map::<u8, Map<u8, Seq<u8>>>::empty());
        ts
    }

    /// The number of signatures of the credentials from `from` on.
    pub open spec fn total(m: Map<u8, Map<u8, Seq<u8>>>, from: int) -> nat
        decreases 256 - from,
    {
        if from >= 256 || from < 0 {
            0
        } else if m.contains_key(from as u8) {
            m[from as u8].len() + Self::total(m, from + 1)
        } else {
            Self::total(m, from + 1)
        }
    }

    /// The total number of signatures.
    pub fn num_signatures(&self) -> (n: u32)
        ensures
            n == Self::total(self@, 0),
    {
        broadcast use vstd::std_specs::btree::group_btree_axioms;

        let ghost m = self@;
        let mut x: usize = 0;
        let mut c: usize = 0;
        while c < 256
            invariant
                c <= 256,
                m == self@,
                x <= 256 * c,
                x + Self::total(m, c as int) == Self::total(m, 0),
            decreases 256 - c,
        {
            match self.signatures.get(&(c as u8)) {
                Some(sigs) => {
                    proof {
                        lemma_count_is_len(sigs@);
                        assert(key_views(sigs@).dom() =~= sigs@.dom());
                    }
                    x = x + sigs.len();
                },
                None => {},
            }
            c += 1;
        }
        x as u32
    }

    /// Appends the encoding of the transaction signature to `out`. If the
    /// transaction signature is encodable, it is read back from there.
    pub fn serial(&self, out: &mut Vec<u8>)
        ensures
            final(out)@ == old(out)@ + encoded_transaction_signature(self@),
            encodable(self@) ==> parsed_transaction_signature(final(out)@, old(out)@.len() as int)
                == Ok::<(Map<u8, Map<u8, Seq<u8>>>, int), ParseError>(
                (self@, final(out)@.len() as int),
            ),
    {
        broadcast use vstd::std_specs::btree::group_btree_axioms;

        let ghost m = self@;
        let l = self.signatures.len();
        proof {
            lemma_count_is_len(self.signatures@);
            lemma_same_count(self.signatures@, m, 0);
        }
        out.push((l % 256) as u8);
        let ghost start = out@;
        let mut c: usize = 0;
        assert(out@ + encoded_credentials(m, 0) =~= start + encoded_credentials(m, 0));
        while c < 256
            invariant
                c <= 256,
                m == self@,
                out@ + encoded_credentials(m, c as int) == start + encoded_credentials(m, 0),
            decreases 256 - c,
        {
            let ghost before = out@;
            match self.signatures.get(&(c as u8)) {
                Some(keys) => {
                    proof {
                        lemma_count_is_len(keys@);
                        lemma_same_count(keys@, key_views(keys@), 0);
                    }
                    out.push(c as u8);
                    out.push((keys.len() % 256) as u8);
                    serial_keys(keys, out);
                    assert(out@ + encoded_credentials(m, c + 1) =~= before + encoded_credentials(
                        m,
                        c as int,
                    ));
                },
                None => {},
            }
            c += 1;
        }
        assert(out@ + encoded_credentials(m, 256) =~= out@);
        assert(out@ =~= old(out)@ + encoded_transaction_signature(m));
        proof {
            if encodable(m) {
                lemma_decoding_inverts_encoding(old(out)@, m, Seq::empty());
                assert(out@ =~= old(out)@ + encoded_transaction_signature(m) + Seq::<u8>::empty());
            }
        }
    }
}

/// Two maps with the same keys count the same.
proof fn lemma_same_count<V, W>(a: Map<u8, V>, b: Map<u8, W>, from: int)
    requires
        forall|k: u8| a.contains_key(k) == b.contains_key(k),
        0 <= from <= 256,
    ensures
        count_from(a, from) == count_from(b, from),
    decreases 256 - from,
{
    if from < 256 {
        lemma_same_count(a, b, from + 1);
    }
}

/// A signature is read back from its encoding, wherever that stands.
proof fn lemma_parse_encoded_signature(prefix: Seq<u8>, sig: Seq<u8>, suffix: Seq<u8>)
    requires
        sig.len() <= 65535,
    ensures
        parsed_signature(prefix + encoded_signature(sig) + suffix, prefix.len() as int) == Ok::<
            (Seq<u8>, int),
            ParseError,
        >((sig, (prefix.len() + 2 + sig.len()) as int)),
{
    let b = prefix + encoded_signature(sig) + suffix;
    let at = prefix.len() as int;
    assert(b[at] == length_bytes(sig.len())[0]);
    assert(b[at + 1] == length_bytes(sig.len())[1]);
    assert(b[at] * 256 + b[at + 1] == sig.len());
    assert(b.subrange(at + 2, at + 2 + sig.len()) =~= sig);
}

/// The keys of a credential are read back from their encoding.
proof fn lemma_parse_encoded_keys(
    prefix: Seq<u8>,
    keys: Map<u8, Seq<u8>>,
    from: int,
    suffix: Seq<u8>,
    last: Option<u8>,
    acc: Map<u8, Seq<u8>>,
)
    requires
        0 <= from <= 256,
        forall|k: u8| #[trigger] keys.contains_key(k) ==> keys[k].len() <= 65535,
        last is Some ==> last->Some_0 < from,
        forall|k: u8| acc.contains_key(k) == (keys.contains_key(k) && k < from),
        forall|k: u8| acc.contains_key(k) ==> acc[k] == keys[k],
    ensures
        parsed_keys(
            prefix + encoded_keys(keys, from) + suffix,
            prefix.len() as int,
            count_from(keys, from),
            last,
            acc,
        ) == Ok::<(Map<u8, Seq<u8>>, int), ParseError>(
            (keys, (prefix.len() + encoded_keys(keys, from).len()) as int),
        ),
    decreases 256 - from,
{
    let b = prefix + encoded_keys(keys, from) + suffix;
    if from >= 256 {
        assert(acc =~= keys);
    } else if keys.contains_key(from as u8) {
        let k = from as u8;
        let sig = keys[k];
        let rest = encoded_keys(keys, from + 1);
        let longer = prefix + seq![k];
        assert(b =~= longer + encoded_signature(sig) + (rest + suffix));
        lemma_parse_encoded_signature(longer, sig, rest + suffix);
        assert(b[prefix.len() as int] == k);
        let next = longer + encoded_signature(sig);
        let more = acc.insert(k, sig);
        assert(b =~= next + rest + suffix);
        lemma_parse_encoded_keys(next, keys, from + 1, suffix, Some(k), more);
    } else {
        lemma_parse_encoded_keys(prefix, keys, from + 1, suffix, last, acc);
    }
}

/// The credentials are read back from their encoding.
proof fn lemma_parse_encoded_credentials(
    prefix: Seq<u8>,
    m: Map<u8, Map<u8, Seq<u8>>>,
    from: int,
    suffix: Seq<u8>,
    last: Option<u8>,
    acc: Map<u8, Map<u8, Seq<u8>>>,
)
    requires
        0 <= from <= 256,
        forall|c: u8| #[trigger]
            m.contains_key(c) ==> {
                &&& m[c].dom().finite()
                &&& 1 <= m[c].len() <= 255
                &&& forall|k: u8| #[trigger] m[c].contains_key(k) ==> m[c][k].len() <= 65535
            },
        last is Some ==> last->Some_0 < from,
        forall|c: u8| acc.contains_key(c) == (m.contains_key(c) && c < from),
        forall|c: u8| acc.contains_key(c) ==> acc[c] == m[c],
    ensures
        parsed_credentials(
            prefix + encoded_credentials(m, from) + suffix,
            prefix.len() as int,
            count_from(m, from),
            last,
            acc,
        ) == Ok::<(Map<u8, Map<u8, Seq<u8>>>, int), ParseError>(
            (m, (prefix.len() + encoded_credentials(m, from).len()) as int),
        ),
    decreases 256 - from,
{
    let b = prefix + encoded_credentials(m, from) + suffix;
    if from >= 256 {
        assert(acc =~= m);
    } else if m.contains_key(from as u8) {
        let c = from as u8;
        let keys = m[c];
        let rest = encoded_credentials(m, from + 1);
        lemma_count_is_len(keys);
        let count = (count_from(keys, 0) % 256) as u8;
        assert(count == keys.len());
        let header = prefix + seq![c, count];
        assert(b =~= header + encoded_keys(keys, 0) + (rest + suffix));
        lemma_parse_encoded_keys(header, keys, 0, rest + suffix, None, Map::empty());
        assert(b[prefix.len() as int] == c);
        assert(b[prefix.len() as int + 1] == count);
        let next = header + encoded_keys(keys, 0);
        assert(b =~= next + rest + suffix);
        lemma_parse_encoded_credentials(next, m, from + 1, suffix, Some(c), acc.insert(c, keys));
    } else {
        lemma_parse_encoded_credentials(prefix, m, from + 1, suffix, last, acc);
    }
}

/// An encodable transaction signature is read back from its encoding,
/// wherever that stands, and the reading ends where the encoding ends.
pub proof fn lemma_decoding_inverts_encoding(
    prefix: Seq<u8>,
    m: Map<u8, Map<u8, Seq<u8>>>,
    suffix: Seq<u8>,
)
    requires
        encodable(m),
    ensures
        parsed_transaction_signature(
            prefix + encoded_transaction_signature(m) + suffix,
            prefix.len() as int,
        ) == Ok::<(Map<u8, Map<u8, Seq<u8>>>, int), ParseError>(
            (m, (prefix.len() + encoded_transaction_signature(m).len()) as int),
        ),
{
    let b = prefix + encoded_transaction_signature(m) + suffix;
    lemma_count_is_len(m);
    let count = (count_from(m, 0) % 256) as u8;
    assert(count == m.len());
    let header = prefix + seq![count];
    assert(b =~= header + encoded_credentials(m, 0) + suffix);
    assert(b[prefix.len() as int] == count);
    lemma_parse_encoded_credentials(header, m, 0, suffix, None, Map::empty());
}

} // verus!
