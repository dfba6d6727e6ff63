//! The boundary to a host runtime. Keys and signatures are kept in a
//! [`Table`] and are named by handles; every operation of the scheme is
//! offered over handles and plain bytes. An operation that cannot be done,
//! because a handle names nothing or bytes do not decode, returns `None` or
//! `false` and leaves the table as it was.

use crate::aggregate_sig::{
    accepts, key_sum, public_key_of, signature_of, verify_aggregate_sig_trusted_keys, PublicKey,
    SecretKey, Signature,
};
use crate::bytes::{compare_bytes, lex_order};
use crate::engine::{g1_identity, g1_sum, seeded_scalar};
use crate::handles::{Arena, Handle};
use rand::rngs::StdRng;
use vstd::prelude::*;

verus! {

/// The keys and signatures that the host runtime holds.
pub struct Table {
    /// The secret keys.
    pub secret_keys: Arena<SecretKey>,
    /// The public keys.
    pub public_keys: Arena<PublicKey>,
    /// The signatures.
    pub signatures: Arena<Signature>,
}

impl Table {
    /// A table that holds nothing.
    pub fn new() -> (table: Table)
        ensures
            table.secret_keys@ == Map::<Handle, SecretKey>::empty(),
            table.public_keys@ == Map::<Handle, PublicKey>::empty(),
            table.signatures@ == Map::<Handle, Signature>::empty(),
            !table.secret_keys.full(),
            !table.public_keys.full(),
            !table.signatures.full(),
    {
        Table { secret_keys: Arena::new(), public_keys: Arena::new(), signatures: Arena::new() }
    }
}

/// A secret key with the encoding `encoding` was stored under `handle`, or
/// the table of secret keys was full.
pub open spec fn stored_secret_key(
    before: Table,
    after: Table,
    handle: Option<Handle>,
    encoding: Seq<u8>,
) -> bool {
    &&& after.public_keys == before.public_keys
    &&& after.signatures == before.signatures
    &&& exists|key: SecretKey|
        key@ == encoding && #[trigger] before.secret_keys.stored(after.secret_keys, handle, key)
}

/// A public key with the encoding `encoding` was stored under `handle`, or
/// the table of public keys was full.
pub open spec fn stored_public_key(
    before: Table,
    after: Table,
    handle: Option<Handle>,
    encoding: Seq<u8>,
) -> bool {
    &&& after.secret_keys == before.secret_keys
    &&& after.signatures == before.signatures
    &&& exists|key: PublicKey|
        key@ == encoding && #[trigger] before.public_keys.stored(after.public_keys, handle, key)
}

/// A signature with the encoding `encoding` was stored under `handle`, or the
/// table of signatures was full.
pub open spec fn stored_signature(
    before: Table,
    after: Table,
    handle: Option<Handle>,
    encoding: Seq<u8>,
) -> bool {
    &&& after.secret_keys == before.secret_keys
    &&& after.public_keys == before.public_keys
    &&& exists|signature: Signature|
        signature@ == encoding && #[trigger] before.signatures.stored(
            after.signatures,
            handle,
            signature,
        )
}

/// The encodings of the public keys that `pks` names.
pub open spec fn named_keys(table: Table, pks: Seq<Handle>) -> Seq<Seq<u8>> {
    Seq::new(pks.len(), |i: int| table.public_keys@[pks[i]]@)
}

/// Whether every handle of `pks` names a public key.
pub open spec fn all_named(table: Table, pks: Seq<Handle>) -> bool {
    forall|i: int| 0 <= i < pks.len() ==> table.public_keys@.contains_key(#[trigger] pks[i])
}

/// Puts a secret key into the table.
fn store_secret_key(table: &mut Table, key: SecretKey) -> (handle: Option<Handle>)
    ensures
        stored_secret_key(*old(table), *final(table), handle, key@),
{
    let handle = table.secret_keys.allocate(key);
    assert(old(table).secret_keys.stored(table.secret_keys, handle, key));
    handle
}

/// Puts a public key into the table.
fn store_public_key(table: &mut Table, key: PublicKey) -> (handle: Option<Handle>)
    ensures
        stored_public_key(*old(table), *final(table), handle, key@),
{
    let handle = table.public_keys.allocate(key);
    assert(old(table).public_keys.stored(table.public_keys, handle, key));
    handle
}

/// Puts a signature into the table.
fn store_signature(table: &mut Table, signature: Signature) -> (handle: Option<Handle>)
    ensures
        stored_signature(*old(table), *final(table), handle, signature@),
{
    let handle = table.signatures.allocate(signature);
    assert(old(table).signatures.stored(table.signatures, handle, signature));
    handle
}

/// Draws a secret key from `rng` and stores it.
pub fn bls_generate_secretkey(table: &mut Table, rng: &mut StdRng) -> (handle: Option<Handle>)
    ensures
        exists|encoding: Seq<u8>| #[trigger]
            stored_secret_key(*old(table), *final(table), handle, encoding),
{
    let key = SecretKey::generate(rng);
    store_secret_key(table, key)
}

/// Stores the secret key that belongs to `seed`: the same key for the same
/// seed.
pub fn bls_generate_secretkey_from_seed(table: &mut Table, seed: usize) -> (handle: Option<Handle>)
    ensures
        stored_secret_key(*old(table), *final(table), handle, seeded_scalar(seed as u64)),
{
    let key = SecretKey::generate_from_seed(seed as u64);
    store_secret_key(table, key)
}

/// Stores the public key of the secret key `sk`.
pub fn bls_derive_publickey(table: &mut Table, sk: Handle) -> (handle: Option<Handle>)
    ensures
        match old(table).secret_keys@.get(sk) {
            Some(key) => stored_public_key(*old(table), *final(table), handle, public_key_of(key@)),
            None => handle.is_none() && *final(table) == *old(table),
        },
{
    let key = match table.secret_keys.get(sk) {
        Some(key) => *key,
        None => {
            return None;
        },
    };
    store_public_key(table, PublicKey::from_secret(key))
}

/// Decodes a secret key and stores it.
pub fn bls_sk_from_bytes(table: &mut Table, bytes: &[u8]) -> (handle: Option<Handle>)
    ensures
        match crate::aggregate_sig::decode_secret_key(bytes@) {
            Ok(encoding) => stored_secret_key(*old(table), *final(table), handle, encoding),
            Err(_) => handle.is_none() && *final(table) == *old(table),
        },
{
    match SecretKey::from_bytes(bytes) {
        Ok(key) => store_secret_key(table, key),
        Err(_) => None,
    }
}

/// Decodes a public key and stores it.
pub fn bls_pk_from_bytes(table: &mut Table, bytes: &[u8]) -> (handle: Option<Handle>)
    ensures
        match crate::aggregate_sig::decode_public_key(bytes@) {
            Ok(encoding) => stored_public_key(*old(table), *final(table), handle, encoding),
            Err(_) => handle.is_none() && *final(table) == *old(table),
        },
{
    match PublicKey::from_bytes(bytes) {
        Ok(key) => store_public_key(table, key),
        Err(_) => None,
    }
}

/// Decodes a signature and stores it.
pub fn bls_sig_from_bytes(table: &mut Table, bytes: &[u8]) -> (handle: Option<Handle>)
    ensures
        match crate::aggregate_sig::decode_signature(bytes@) {
            Ok(encoding) => stored_signature(*old(table), *final(table), handle, encoding),
            Err(_) => handle.is_none() && *final(table) == *old(table),
        },
{
    match Signature::from_bytes(bytes) {
        Ok(signature) => store_signature(table, signature),
        Err(_) => None,
    }
}

/// The encoding of the secret key `sk`.
pub fn bls_sk_to_bytes(table: &Table, sk: Handle) -> (bytes: Option<Vec<u8>>)
    ensures
        match bytes {
            Some(b) => table.secret_keys@.contains_key(sk) && b@ == table.secret_keys@[sk]@
                && b@.len() == 32,
            None => !table.secret_keys@.contains_key(sk),
        },
{
    match table.secret_keys.get(sk) {
        Some(key) => Some(key.to_bytes()),
        None => None,
    }
}

/// The encoding of the public key `pk`.
pub fn bls_pk_to_bytes(table: &Table, pk: Handle) -> (bytes: Option<Vec<u8>>)
    ensures
        match bytes {
            Some(b) => table.public_keys@.contains_key(pk) && b@ == table.public_keys@[pk]@
                && b@.len() == 96,
            None => !table.public_keys@.contains_key(pk),
        },
{
    match table.public_keys.get(pk) {
        Some(key) => Some(key.to_bytes()),
        None => None,
    }
}

/// The encoding of the signature `sig`.
pub fn bls_sig_to_bytes(table: &Table, sig: Handle) -> (bytes: Option<Vec<u8>>)
    ensures
        match bytes {
            Some(b) => table.signatures@.contains_key(sig) && b@ == table.signatures@[sig]@
                && b@.len() == 48,
            None => !table.signatures@.contains_key(sig),
        },
{
    match table.signatures.get(sig) {
        Some(signature) => Some(signature.to_bytes()),
        None => None,
    }
}

/// Releases the secret key `sk`. `false` if the handle names none, as it
/// does after a release.
pub fn bls_free_sk(table: &mut Table, sk: Handle) -> (done: bool)
    ensures
        done == old(table).secret_keys@.contains_key(sk),
        done ==> final(table).secret_keys@ == old(table).secret_keys@.remove(sk),
        done ==> final(table).secret_keys.released(sk),
        !done ==> final(table).secret_keys == old(table).secret_keys,
        old(table).secret_keys.keeps_released(final(table).secret_keys),
        final(table).public_keys == old(table).public_keys,
        final(table).signatures == old(table).signatures,
{
    table.secret_keys.release(sk)
}

/// Releases the public key `pk`. `false` if the handle names none, as it
/// does after a release.
pub fn bls_free_pk(table: &mut Table, pk: Handle) -> (done: bool)
    ensures
        done == old(table).public_keys@.contains_key(pk),
        done ==> final(table).public_keys@ == old(table).public_keys@.remove(pk),
        done ==> final(table).public_keys.released(pk),
        !done ==> final(table).public_keys == old(table).public_keys,
        old(table).public_keys.keeps_released(final(table).public_keys),
        final(table).secret_keys == old(table).secret_keys,
        final(table).signatures == old(table).signatures,
{
    table.public_keys.release(pk)
}

/// Releases the signature `sig`. `false` if the handle names none, as it
/// does after a release.
pub fn bls_free_sig(table: &mut Table, sig: Handle) -> (done: bool)
    ensures
        done == old(table).signatures@.contains_key(sig),
        done ==> final(table).signatures@ == old(table).signatures@.remove(sig),
        done ==> final(table).signatures.released(sig),
        !done ==> final(table).signatures == old(table).signatures,
        old(table).signatures.keeps_released(final(table).signatures),
        final(table).secret_keys == old(table).secret_keys,
        final(table).public_keys == old(table).public_keys,
{
    table.signatures.release(sig)
}

/// 1 if both handles name secret keys that are the same, else 0.
pub fn bls_sk_eq(table: &Table, one: Handle, two: Handle) -> (same: u8)
    ensures
        same == 0 || same == 1,
        same == 1 <==> table.secret_keys@.contains_key(one) && table.secret_keys@.contains_key(two)
            && table.secret_keys@[one]@ == table.secret_keys@[two]@,
{
    match (table.secret_keys.get(one), table.secret_keys.get(two)) {
        (Some(a), Some(b)) => if a.same(b) {
            1
        } else {
            0
        },
        _ => 0,
    }
}

/// 1 if both handles name public keys that are the same, else 0.
pub fn bls_pk_eq(table: &Table, one: Handle, two: Handle) -> (same: u8)
    ensures
        same == 0 || same == 1,
        same == 1 <==> table.public_keys@.contains_key(one) && table.public_keys@.contains_key(two)
            && table.public_keys@[one]@ == table.public_keys@[two]@,
{
    match (table.public_keys.get(one), table.public_keys.get(two)) {
        (Some(a), Some(b)) => if a.same(b) {
            1
        } else {
            0
        },
        _ => 0,
    }
}

/// 1 if both handles name signatures that are the same, else 0.
pub fn bls_sig_eq(table: &Table, one: Handle, two: Handle) -> (same: u8)
    ensures
        same == 0 || same == 1,
        same == 1 <==> table.signatures@.contains_key(one) && table.signatures@.contains_key(two)
            && table.signatures@[one]@ == table.signatures@[two]@,
{
    match (table.signatures.get(one), table.signatures.get(two)) {
        (Some(a), Some(b)) => if a.same(b) {
            1
        } else {
            0
        },
        _ => 0,
    }
}

/// The order of two secret keys, which is the lexicographic order of their
/// encodings: -1, 0 or 1. `None` if a handle names no secret key.
pub fn bls_sk_cmp(table: &Table, one: Handle, two: Handle) -> (order: Option<i32>)
    ensures
        match order {
            Some(o) => table.secret_keys@.contains_key(one) && table.secret_keys@.contains_key(two)
                && o == lex_order(table.secret_keys@[one]@, table.secret_keys@[two]@),
            None => !(table.secret_keys@.contains_key(one) && table.secret_keys@.contains_key(two)),
        },
{
    match (table.secret_keys.get(one), table.secret_keys.get(two)) {
        (Some(a), Some(b)) => {
            let x = a.to_bytes();
            let y = b.to_bytes();
            Some(compare_bytes(x.as_slice(), y.as_slice()))
        },
        _ => None,
    }
}

/// The order of two public keys, which is the lexicographic order of their
/// encodings: -1, 0 or 1. `None` if a handle names no public key.
pub fn bls_pk_cmp(table: &Table, one: Handle, two: Handle) -> (order: Option<i32>)
    ensures
        match order {
            Some(o) => table.public_keys@.contains_key(one) && table.public_keys@.contains_key(two)
                && o == lex_order(table.public_keys@[one]@, table.public_keys@[two]@),
            None => !(table.public_keys@.contains_key(one) && table.public_keys@.contains_key(two)),
        },
{
    match (table.public_keys.get(one), table.public_keys.get(two)) {
        (Some(a), Some(b)) => {
            let x = a.to_bytes();
            let y = b.to_bytes();
            Some(compare_bytes(x.as_slice(), y.as_slice()))
        },
        _ => None,
    }
}

/// The order of two signatures, which is the lexicographic order of their
/// encodings: -1, 0 or 1. `None` if a handle names no signature.
pub fn bls_sig_cmp(table: &Table, one: Handle, two: Handle) -> (order: Option<i32>)
    ensures
        match order {
            Some(o) => table.signatures@.contains_key(one) && table.signatures@.contains_key(two)
                && o == lex_order(table.signatures@[one]@, table.signatures@[two]@),
            None => !(table.signatures@.contains_key(one) && table.signatures@.contains_key(two)),
        },
{
    match (table.signatures.get(one), table.signatures.get(two)) {
        (Some(a), Some(b)) => {
            let x = a.to_bytes();
            let y = b.to_bytes();
            Some(compare_bytes(x.as_slice(), y.as_slice()))
        },
        _ => None,
    }
}

/// Signs `m` with the secret key `sk` and stores the signature.
pub fn bls_sign(table: &mut Table, m: &[u8], sk: Handle) -> (handle: Option<Handle>)
    ensures
        match old(table).secret_keys@.get(sk) {
            Some(key) => stored_signature(
                *old(table),
                *final(table),
                handle,
                signature_of(key@, m@),
            ),
            None => handle.is_none() && *final(table) == *old(table),
        },
{
    let signature = match table.secret_keys.get(sk) {
        Some(key) => key.sign(m),
        None => {
            return None;
        },
    };
    store_signature(table, signature)
}

/// Verifies the signature `sig` on `m` under the public key `pk`. `false`
/// if a handle names nothing.
pub fn bls_verify(table: &Table, m: &[u8], pk: Handle, sig: Handle) -> (ok: bool)
    ensures
        ok == (table.public_keys@.contains_key(pk) && table.signatures@.contains_key(sig)
            && accepts(table.public_keys@[pk]@, m@, table.signatures@[sig]@)),
{
    match (table.public_keys.get(pk), table.signatures.get(sig)) {
        (Some(key), Some(signature)) => key.verify(m, *signature),
        _ => false,
    }
}

/// Aggregates the signatures `sig1` and `sig2` and stores the aggregate.
pub fn bls_aggregate(table: &mut Table, sig1: Handle, sig2: Handle) -> (handle: Option<Handle>)
    ensures
        match (old(table).signatures@.get(sig1), old(table).signatures@.get(sig2)) {
            (Some(a), Some(b)) => stored_signature(
                *old(table),
                *final(table),
                handle,
                g1_sum(a@, b@),
            ),
            _ => handle.is_none() && *final(table) == *old(table),
        },
{
    let aggregate = match (table.signatures.get(sig1), table.signatures.get(sig2)) {
        (Some(a), Some(b)) => a.aggregate(*b),
        _ => {
            return None;
        },
    };
    store_signature(table, aggregate)
}

/// Verifies the signature `sig` as an aggregate on the one message `m` of
/// signatures under the public keys `pks`. `false` if a handle names
/// nothing.
pub fn bls_verify_aggregate(table: &Table, m: &[u8], pks: &[Handle], sig: Handle) -> (ok: bool)
    ensures
        ok == (all_named(*table, pks@) && table.signatures@.contains_key(sig) && accepts(
            key_sum(named_keys(*table, pks@)),
            m@,
            table.signatures@[sig]@,
        )),
{
    let n = pks.len();
    let mut keys: Vec<PublicKey> = Vec::with_capacity(n);
    let mut i: usize = 0;
    while i < n
        invariant
            i <= n,
            n == pks@.len(),
            keys@.len() == i,
            forall|k: int|
                0 <= k < i ==> table.public_keys@.contains_key(#[trigger] pks@[k]) && keys@[k]
                    == table.public_keys@[pks@[k]],
        decreases n - i,
    {
        match table.public_keys.get(pks[i]) {
            Some(key) => keys.push(*key),
            None => {
                return false;
            },
        }
        i += 1;
    }
    match table.signatures.get(sig) {
        Some(signature) => {
            assert(crate::aggregate_sig::key_views(keys@) =~= named_keys(*table, pks@));
            verify_aggregate_sig_trusted_keys(m, keys.as_slice(), *signature)
        },
        None => false,
    }
}

/// Stores the empty signature, the identity of G1.
pub fn bls_empty_sig(table: &mut Table) -> (handle: Option<Handle>)
    ensures
        stored_signature(*old(table), *final(table), handle, g1_identity()),
{
    store_signature(table, Signature::empty())
}

} // verus!
