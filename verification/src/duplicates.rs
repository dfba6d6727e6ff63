//! Detection of repeated messages in a batch, by their SHA-512 digests.

use crate::bytes::{
    compare_bytes, lemma_lex_order_antisymmetric, lemma_lex_order_equal, lex_order,
};
use sha2::{Digest, Sha512};
use vstd::prelude::*;
use vstd::slice::slice_subrange;

verus! {

/// Number of leading bytes of a digest by which messages are told apart.
/// It is one less than the digest's 64 bytes: two messages whose digests
/// differ in the last byte alone count as the same message.
pub const COMPARED_LENGTH: usize = 63;

/// The SHA-512 digest of `m`.
pub uninterp spec fn sha512_digest(m: Seq<u8>) -> Seq<u8>;

/// The part of the digest of `m` that is compared.
pub open spec fn digest_prefix(m: Seq<u8>) -> Seq<u8> {
    sha512_digest(m).take(COMPARED_LENGTH as int)
}

/// Whether two messages of the batch, at different places, have the same
/// compared digest bytes.
pub open spec fn duplicate_digests(messages: Seq<Seq<u8>>) -> bool {
    exists|i: int, j: int|
        0 <= i < j < messages.len() && digest_prefix(#[trigger] messages[i]) == digest_prefix(
            #[trigger] messages[j],
        )
}

/// The views of the messages of a batch.
pub open spec fn message_views(messages: Seq<&[u8]>) -> Seq<Seq<u8>> {
    messages.map_values(|m: &[u8]| m@)
}

/// `Sha512` of the `sha2` crate over the whole message: its 64-byte digest.
#[verifier::external_body]
fn hash_message(m: &[u8]) -> (hash: [u8; 64])
    ensures
        hash@ == sha512_digest(m@),
{
    let mut hash: [u8; 64] = [0u8; 64];
    hash.copy_from_slice(&Sha512::digest(m));
    hash
}

/// The compared bytes of a digest.
spec fn compared(digest: [u8; 64]) -> Seq<u8> {
    digest@.take(COMPARED_LENGTH as int)
}

/// The order of digests: lexicographic on the compared bytes.
spec fn before_or_equal(x: [u8; 64], y: [u8; 64]) -> bool {
    lex_order(compared(x), compared(y)) <= 0
}

/// The first `count` digests stand in order.
spec fn sorted_up_to(s: Seq<[u8; 64]>, count: int) -> bool {
    forall|a: int, b: int| 0 <= a < b < count ==> before_or_equal(#[trigger] s[a], #[trigger] s[b])
}

/// `after` holds the digests of `before` in another order: `to_old` sends a
/// place of `after` to the place in `before` that it came from, and `to_new`
/// sends it back.
spec fn rearranged(
    before: Seq<[u8; 64]>,
    after: Seq<[u8; 64]>,
    to_old: Seq<int>,
    to_new: Seq<int>,
) -> bool {
    &&& after.len() == before.len()
    &&& to_old.len() == before.len()
    &&& to_new.len() == before.len()
    &&& forall|k: int|
        0 <= k < after.len() ==> 0 <= #[trigger] to_old[k] < before.len() && after[k]
            == before[to_old[k]] && to_new[to_old[k]] == k
    &&& forall|i: int|
        0 <= i < before.len() ==> 0 <= #[trigger] to_new[i] < before.len() && to_old[to_new[i]]
            == i
}

proof fn lemma_lex_order_transitive(a: Seq<u8>, b: Seq<u8>, c: Seq<u8>)
    requires
        lex_order(a, b) <= 0,
        lex_order(b, c) <= 0,
    ensures
        lex_order(a, c) <= 0,
    decreases a.len(),
{
    if a.len() > 0 && b.len() > 0 && c.len() > 0 && a[0] == b[0] && b[0] == c[0] {
        lemma_lex_order_transitive(a.drop_first(), b.drop_first(), c.drop_first());
    }
}

/// How `x` stands to `y` in the order of digests.
fn prefix_order(x: &[u8; 64], y: &[u8; 64]) -> (order: i32)
    ensures
        order == lex_order(compared(*x), compared(*y)),
{
    let a = slice_subrange(x.as_slice(), 0, COMPARED_LENGTH);
    let b = slice_subrange(y.as_slice(), 0, COMPARED_LENGTH);
    compare_bytes(a, b)
}

/// Sorts the digests by their compared bytes.
fn sort_digests(v: &mut Vec<[u8; 64]>) -> (maps: Ghost<(Seq<int>, Seq<int>)>)
    ensures
        rearranged(old(v)@, final(v)@, maps@.0, maps@.1),
        sorted_up_to(final(v)@, final(v)@.len() as int),
{
    let n = v.len();
    let ghost before = v@;
    let ghost mut to_old: Seq<int> = Seq::new(n as nat, |k: int| k);
    let ghost mut to_new: Seq<int> = Seq::new(n as nat, |k: int| k);
    let mut i: usize = 0;
    while i < n
        invariant
            i <= n,
            v@.len() == n,
            rearranged(before, v@, to_old, to_new),
            sorted_up_to(v@, i as int),
        decreases n - i,
    {
        let mut j: usize = i;
        while j > 0 && prefix_order(&v[j], &v[j - 1]) < 0
            invariant
                j <= i < n,
                v@.len() == n,
                rearranged(before, v@, to_old, to_new),
                forall|a: int, b: int|
                    0 <= a < b <= i && b != j ==> before_or_equal(
                        #[trigger] v@[a],
                        #[trigger] v@[b],
                    ),
            decreases j,
        {
            let x = v[j];
            let y = v[j - 1];
            let ghost was = v@;
            v.set(j, y);
            v.set(j - 1, x);
            proof {
                let from_x = to_old[j as int];
                let from_y = to_old[j - 1];
                to_old = to_old.update(j as int, from_y).update(j - 1, from_x);
                to_new = to_new.update(from_y, j as int).update(from_x, j - 1);
                assert forall|a: int, b: int| 0 <= a < b <= i && b != j - 1 implies before_or_equal(
                    #[trigger] v@[a],
                    #[trigger] v@[b],
                ) by {
                    if b == j {
                        if a < j - 1 {
                            assert(before_or_equal(was[a], was[j - 1]));
                        }
                    } else if a == j {
                        assert(before_or_equal(was[j - 1], was[b]));
                    } else if a == j - 1 {
                        assert(before_or_equal(was[j as int], was[b]));
                    } else {
                        assert(before_or_equal(was[a], was[b]));
                    }
                }
            }
            j -= 1;
        }
        proof {
            assert forall|a: int, b: int| 0 <= a < b < i + 1 implies before_or_equal(
                #[trigger] v@[a],
                #[trigger] v@[b],
            ) by {
                if b == j {
                    lemma_lex_order_antisymmetric(compared(v@[j as int]), compared(v@[j - 1]));
                    if a < j - 1 {
                        assert(before_or_equal(v@[a], v@[j - 1]));
                        lemma_lex_order_transitive(
                            compared(v@[a]),
                            compared(v@[j - 1]),
                            compared(v@[j as int]),
                        );
                    }
                }
            }
        }
        i += 1;
    }
    Ghost((to_old, to_new))
}

/// Whether the batch holds a message twice. Every message is hashed, the
/// digests are sorted, and neighbours are compared on their first 63 bytes.
pub fn has_duplicates(messages: &[&[u8]]) -> (found: bool)
    ensures
        found == duplicate_digests(message_views(messages@)),
{
    let n = messages.len();
    let ghost views = message_views(messages@);
    let mut digests: Vec<[u8; 64]> = Vec::with_capacity(n);
    let mut k: usize = 0;
    while k < n
        invariant
            k <= n,
            n == messages@.len(),
            views == message_views(messages@),
            digests@.len() == k,
            forall|i: int| 0 <= i < k ==> (#[trigger] digests@[i])@ == sha512_digest(views[i]),
        decreases n - k,
    {
        digests.push(hash_message(messages[k]));
        k += 1;
    }
    let ghost unsorted = digests@;
    let maps = sort_digests(&mut digests);
    let ghost to_old = maps@.0;
    let ghost to_new = maps@.1;
    let mut i: usize = 1;
    while i < n
        invariant
            1 <= i,
            n == digests@.len(),
            views == message_views(messages@),
            n == views.len(),
            n == unsorted.len(),
            rearranged(unsorted, digests@, to_old, to_new),
            forall|k: int| 0 <= k < n ==> (#[trigger] unsorted[k])@ == sha512_digest(views[k]),
            forall|k: int|
                1 <= k < i ==> compared(#[trigger] digests@[k]) != compared(digests@[k - 1]),
        decreases n - i,
    {
        if prefix_order(&digests[i - 1], &digests[i]) == 0 {
            proof {
                lemma_lex_order_equal(compared(digests@[i - 1]), compared(digests@[i as int]));
                let a = to_old[i - 1];
                let b = to_old[i as int];
                assert(to_new[a] == i - 1 && to_new[b] == i);
                assert(a != b);
                assert(digests@[i - 1] == unsorted[a]);
                assert(digests@[i as int] == unsorted[b]);
                assert(unsorted[a]@ == sha512_digest(views[a]));
                assert(unsorted[b]@ == sha512_digest(views[b]));
                assert(digest_prefix(views[a]) == digest_prefix(views[b]));
                lemma_repeated_digest_is_found(views, a, b);
            }
            return true;
        }
        proof {
            lemma_lex_order_equal(compared(digests@[i - 1]), compared(digests@[i as int]));
        }
        i += 1;
    }
    proof {
        assert forall|a: int, b: int| 0 <= a < b < n implies digest_prefix(#[trigger] views[a])
            != digest_prefix(#[trigger] views[b]) by {
            if digest_prefix(views[a]) == digest_prefix(views[b]) {
                lemma_no_equal_digests_apart(unsorted, digests@, to_old, to_new, a, b);
                assert(unsorted[a]@ == sha512_digest(views[a]));
                assert(unsorted[b]@ == sha512_digest(views[b]));
            }
        }
    }
    false
}

/// In a sorted rearrangement whose neighbours all differ, no two digests of
/// the batch agree on the compared bytes.
proof fn lemma_no_equal_digests_apart(
    before: Seq<[u8; 64]>,
    after: Seq<[u8; 64]>,
    to_old: Seq<int>,
    to_new: Seq<int>,
    a: int,
    b: int,
)
    requires
        rearranged(before, after, to_old, to_new),
        sorted_up_to(after, after.len() as int),
        forall|k: int|
            1 <= k < after.len() ==> compared(#[trigger] after[k]) != compared(after[k - 1]),
        0 <= a < before.len(),
        0 <= b < before.len(),
        a != b,
    ensures
        compared(before[a]) != compared(before[b]),
{
    let p = to_new[a];
    let q = to_new[b];
    assert(to_old[p] == a && to_old[q] == b);
    assert(after[p] == before[a] && after[q] == before[b]);
    if compared(before[a]) == compared(before[b]) {
        let low = if p < q { p } else { q };
        let high = if p < q { q } else { p };
        assert(low < high);
        let x = compared(after[low]);
        let next = compared(after[low + 1]);
        let y = compared(after[high]);
        assert(x == y);
        assert(before_or_equal(after[low], after[low + 1]));
        if low + 1 < high {
            assert(before_or_equal(after[low + 1], after[high]));
        } else {
            lemma_lex_order_equal(next, y);
        }
        lemma_lex_order_antisymmetric(x, next);
        lemma_lex_order_equal(x, next);
        assert(compared(after[low + 1]) != compared(after[low]));
    }
}

/// Two places of the batch whose compared digest bytes agree are a duplicate.
proof fn lemma_repeated_digest_is_found(messages: Seq<Seq<u8>>, i: int, j: int)
    requires
        0 <= i < messages.len(),
        0 <= j < messages.len(),
        i != j,
        digest_prefix(messages[i]) == digest_prefix(messages[j]),
    ensures
        duplicate_digests(messages),
{
    if i < j {
        assert(digest_prefix(messages[i]) == digest_prefix(messages[j]));
    } else {
        assert(digest_prefix(messages[j]) == digest_prefix(messages[i]));
    }
}

/// A batch that holds the same message at two places has duplicate digests,
/// so no batch with a repeated message passes the check for duplicates.
pub proof fn lemma_repeated_message_is_found(messages: Seq<Seq<u8>>, i: int, j: int)
    requires
        0 <= i < messages.len(),
        0 <= j < messages.len(),
        i != j,
        messages[i] == messages[j],
    ensures
        duplicate_digests(messages),
{
    lemma_repeated_digest_is_found(messages, i, j);
}

} // verus!
