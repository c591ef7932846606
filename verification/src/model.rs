//! Mathematical model of reading: windows of a byte sequence, big-endian
//! values, tags and needle occurrences, with the laws that relate them.

use vstd::prelude::*;

verus! {

/// The `len` bytes of `data` that start at `pos`, when all of them exist.
pub open spec fn window(data: Seq<u8>, pos: int, len: int) -> Option<Seq<u8>> {
    if 0 <= pos && 0 <= len && pos + len <= data.len() {
        Some(data.subrange(pos, pos + len))
    } else {
        None
    }
}

/// `256` raised to the power `n`.
pub open spec fn pow256(n: nat) -> nat
    decreases n,
{
    if n == 0 {
        1
    } else {
        256 * pow256((n - 1) as nat)
    }
}

/// The unsigned integer that `s` encodes in big-endian byte order.
pub open spec fn be_value(s: Seq<u8>) -> nat
    decreases s.len(),
{
    if s.len() == 0 {
        0
    } else {
        be_value(s.drop_last()) * 256 + (s.last() as nat)
    }
}

/// `tag` stands in `data` at `pos`; an empty tag stands anywhere.
pub open spec fn tag_at(data: Seq<u8>, pos: int, tag: Seq<u8>) -> bool {
    tag.len() == 0 || window(data, pos, tag.len() as int) == Some(tag)
}

/// `needle` occurs in `hay` starting at index `i`.
pub open spec fn occurs_at(hay: Seq<u8>, needle: Seq<u8>, i: int) -> bool {
    0 <= i && i + needle.len() <= hay.len() && hay.subrange(i, i + needle.len()) == needle
}

/// `needle` occurs somewhere in `hay`.
pub open spec fn occurs(hay: Seq<u8>, needle: Seq<u8>) -> bool {
    exists|i: int| occurs_at(hay, needle, i)
}

/// `i` is the first index at which `needle` occurs in `hay`.
pub open spec fn is_first_occurrence(hay: Seq<u8>, needle: Seq<u8>, i: int) -> bool {
    &&& occurs_at(hay, needle, i)
    &&& forall|j: int| 0 <= j < i ==> !occurs_at(hay, needle, j)
}

/// `i` is the last index at which `needle` occurs in `hay`.
pub open spec fn is_last_occurrence(hay: Seq<u8>, needle: Seq<u8>, i: int) -> bool {
    &&& occurs_at(hay, needle, i)
    &&& forall|j: int| i < j <= hay.len() ==> !occurs_at(hay, needle, j)
}

/// Law: a window is the run of bytes it names: it exists exactly when the run
/// lies inside the data, and then holds `len` bytes, the `j`-th being byte
/// `pos + j` of the data.
pub proof fn law_window_is_the_run(data: Seq<u8>, pos: int, len: int)
    ensures
        window(data, pos, len) is Some <==> (0 <= pos && 0 <= len && pos + len <= data.len()),
        window(data, pos, len) matches Some(s) ==> s.len() == len && forall|j: int|
            0 <= j < len ==> #[trigger] s[j] == data[pos + j],
{
}

/// Law: a tag stands at a position exactly when it is empty, or when each of
/// its bytes equals, byte for byte, the data's byte at that position plus
/// its index.
pub proof fn law_tag_at_is_bytewise(data: Seq<u8>, pos: int, tag: Seq<u8>)
    ensures
        tag_at(data, pos, tag) <==> (tag.len() == 0 || (0 <= pos && pos + tag.len() <= data.len()
            && forall|j: int| 0 <= j < tag.len() ==> data[pos + j] == #[trigger] tag[j])),
{
    if tag.len() > 0 && 0 <= pos && pos + tag.len() <= data.len() {
        if forall|j: int| 0 <= j < tag.len() ==> data[pos + j] == #[trigger] tag[j] {
            assert(data.subrange(pos, pos + tag.len()) =~= tag);
        }
        if tag_at(data, pos, tag) {
            assert forall|j: int| 0 <= j < tag.len() implies data[pos + j] == #[trigger] tag[j] by {
                assert(data.subrange(pos, pos + tag.len())[j] == tag[j]);
            }
        }
    }
}

/// Law: a needle occurs at an index exactly when it fits there and each of
/// its bytes equals, byte for byte, the haystack's byte at that index plus
/// its own index.
pub proof fn law_occurs_at_is_bytewise(hay: Seq<u8>, needle: Seq<u8>, i: int)
    ensures
        occurs_at(hay, needle, i) <==> (0 <= i && i + needle.len() <= hay.len() && forall|j: int|
            0 <= j < needle.len() ==> hay[i + j] == #[trigger] needle[j]),
{
    if 0 <= i && i + needle.len() <= hay.len() {
        if forall|j: int| 0 <= j < needle.len() ==> hay[i + j] == #[trigger] needle[j] {
            assert(hay.subrange(i, i + needle.len()) =~= needle);
        }
        if occurs_at(hay, needle, i) {
            assert forall|j: int| 0 <= j < needle.len() implies hay[i + j] == #[trigger] needle[j] by {
                assert(hay.subrange(i, i + needle.len())[j] == needle[j]);
            }
        }
    }
}

/// Law: the first occurrence is the least index at which the needle occurs.
pub proof fn law_first_occurrence_is_least(hay: Seq<u8>, needle: Seq<u8>, i: int)
    ensures
        is_first_occurrence(hay, needle, i) <==> (occurs_at(hay, needle, i) && forall|j: int|
            #[trigger] occurs_at(hay, needle, j) ==> i <= j),
{
}

/// Law: the last occurrence is the greatest index at which the needle occurs.
pub proof fn law_last_occurrence_is_greatest(hay: Seq<u8>, needle: Seq<u8>, i: int)
    ensures
        is_last_occurrence(hay, needle, i) <==> (occurs_at(hay, needle, i) && forall|j: int|
            #[trigger] occurs_at(hay, needle, j) ==> j <= i),
{
}

/// Law: a needle occurs in a haystack exactly when it occurs at some index,
/// and then it has a first and a last occurrence.
pub proof fn law_occurrence_has_first_and_last(hay: Seq<u8>, needle: Seq<u8>, i: int)
    ensures
        occurs_at(hay, needle, i) ==> occurs(hay, needle),
        occurs(hay, needle) ==> (exists|k: int| is_first_occurrence(hay, needle, k)) && (exists|
            k: int,
        | is_last_occurrence(hay, needle, k)),
{
    if occurs(hay, needle) {
        let w = choose|w: int| occurs_at(hay, needle, w);
        lemma_first_below(hay, needle, w);
        lemma_last_above(hay, needle, w);
    }
}

/// Where the needle occurs at `i`, it occurs first at some index up to `i`.
proof fn lemma_first_below(hay: Seq<u8>, needle: Seq<u8>, i: int)
    requires
        occurs_at(hay, needle, i),
    ensures
        exists|k: int| k <= i && is_first_occurrence(hay, needle, k),
    decreases i,
{
    if exists|j: int| 0 <= j < i && occurs_at(hay, needle, j) {
        let j = choose|j: int| 0 <= j < i && occurs_at(hay, needle, j);
        lemma_first_below(hay, needle, j);
    } else {
        assert(is_first_occurrence(hay, needle, i));
    }
}

/// Where the needle occurs at `i`, it occurs last at some index from `i` on.
proof fn lemma_last_above(hay: Seq<u8>, needle: Seq<u8>, i: int)
    requires
        occurs_at(hay, needle, i),
    ensures
        exists|k: int| k >= i && is_last_occurrence(hay, needle, k),
    decreases hay.len() - i,
{
    if exists|j: int| i < j <= hay.len() && occurs_at(hay, needle, j) {
        let j = choose|j: int| i < j <= hay.len() && occurs_at(hay, needle, j);
        lemma_last_above(hay, needle, j);
    } else {
        assert(is_last_occurrence(hay, needle, i));
    }
}

/// A big-endian value of `n` bytes is below `256^n`.
pub proof fn lemma_be_value_bound(s: Seq<u8>)
    ensures
        be_value(s) < pow256(s.len()),
    decreases s.len(),
{
    if s.len() > 0 {
        lemma_be_value_bound(s.drop_last());
    }
}

/// `pow256` grows with its argument.
pub proof fn lemma_pow256_monotone(a: nat, b: nat)
    requires
        a <= b,
    ensures
        pow256(a) <= pow256(b),
    decreases b,
{
    if a < b {
        lemma_pow256_monotone(a, (b - 1) as nat);
    }
}

/// Reading a big-endian number from the concatenation of two byte runs gives
/// the first run's value shifted by the second run's width, plus the second.
pub proof fn lemma_be_value_concat(a: Seq<u8>, b: Seq<u8>)
    ensures
        be_value(a + b) == be_value(a) * pow256(b.len()) + be_value(b),
    decreases b.len(),
{
    if b.len() == 0 {
        assert(a + b =~= a);
        assert(pow256(0) == 1);
        assert(be_value(a) * 1 == be_value(a));
    } else {
        let bl = b.drop_last();
        assert((a + b).drop_last() =~= a + bl);
        assert((a + b).last() == b.last());
        lemma_be_value_concat(a, bl);
        assert(be_value(a + b) == be_value(a + bl) * 256 + (b.last() as nat));
        assert(be_value(b) == be_value(bl) * 256 + (b.last() as nat));
        assert(pow256(b.len()) == 256 * pow256(bl.len()));
        let x = be_value(a);
        let p = pow256(bl.len());
        let y = be_value(bl);
        let l = b.last() as nat;
        assert((x * p + y) * 256 + l == x * (256 * p) + (y * 256 + l)) by (nonlinear_arith);
        assert(be_value(a + b) == (x * p + y) * 256 + l);
        assert(be_value(a + b) == x * pow256(b.len()) + be_value(b));
    }
}

/// Law: reading `a` bytes and then `b` bytes reads the same bytes, in the same
/// order, as one read of `a + b` bytes.
pub proof fn law_reads_compose(data: Seq<u8>, pos: int, a: int, b: int)
    requires
        0 <= a,
        0 <= b,
        window(data, pos, a + b) is Some,
    ensures
        window(data, pos, a) is Some,
        window(data, pos + a, b) is Some,
        window(data, pos, a + b)->0 == window(data, pos, a)->0 + window(data, pos + a, b)->0,
{
    assert(data.subrange(pos, pos + a + b) =~= data.subrange(pos, pos + a) + data.subrange(
        pos + a,
        pos + a + b,
    ));
}

/// Law: the big-endian value of `2k` bytes is the value of the first `k`
/// bytes times `256^k` plus the value of the last `k`; so a 32-bit read is two
/// 16-bit reads combined, and a 64-bit read is two 32-bit reads combined.
pub proof fn law_be_value_halves(data: Seq<u8>, pos: int, k: int)
    requires
        0 <= k,
        window(data, pos, 2 * k) is Some,
    ensures
        be_value(window(data, pos, 2 * k)->0) == be_value(window(data, pos, k)->0) * pow256(
            k as nat,
        ) + be_value(window(data, pos + k, k)->0),
{
    law_reads_compose(data, pos, k, k);
    lemma_be_value_concat(window(data, pos, k)->0, window(data, pos + k, k)->0);
}

/// Law: a 16-bit big-endian read is the first byte times 256 plus the second.
pub proof fn law_be_value_two_bytes(s: Seq<u8>)
    requires
        s.len() == 2,
    ensures
        be_value(s) == s[0] * 256 + s[1],
{
    let s1 = s.drop_last();
    assert(s1.drop_last() =~= Seq::<u8>::empty());
    assert(s1.last() == s[0]);
    assert(be_value(s1.drop_last()) == 0);
    assert(be_value(s1) == s[0]);
}

/// An occurrence in a part of `data` is an occurrence in `data` that lies
/// inside that part.
pub proof fn lemma_occurs_in_subrange(data: Seq<u8>, needle: Seq<u8>, lo: int, hi: int, i: int)
    requires
        0 <= lo <= hi <= data.len(),
    ensures
        occurs_at(data.subrange(lo, hi), needle, i) <==> (0 <= i && occurs_at(data, needle, lo + i)
            && lo + i + needle.len() <= hi),
{
    if 0 <= i && i + needle.len() <= hi - lo {
        assert(data.subrange(lo, hi).subrange(i, i + needle.len()) =~= data.subrange(
            lo + i,
            lo + i + needle.len(),
        ));
    }
}

} // verus!
