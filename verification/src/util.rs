//! Searching a byte slice for the first or last occurrence of a needle.

use vstd::prelude::*;
use crate::model::{
    be_value, is_first_occurrence, is_last_occurrence, lemma_pow256_monotone,
    occurs, occurs_at, pow256,
};

verus! {

/// Whether `needle` stands in `hay` at index `i`.
fn matches_at(hay: &[u8], needle: &[u8], i: usize) -> (r: bool)
    requires
        i + needle@.len() <= hay@.len(),
    ensures
        r == occurs_at(hay@, needle@, i as int),
{
    let m = needle.len();
    let n = hay.len();
    let mut k: usize = 0;
    while k < m
        invariant
            k <= m,
            m == needle@.len(),
            n == hay@.len(),
            i + m <= n,
            forall|j: int| 0 <= j < k ==> hay@[i + j] == needle@[j],
        decreases m - k,
    {
        if hay[i + k] != needle[k] {
            assert(hay@.subrange(i as int, i + m)[k as int] != needle@[k as int]);
            return false;
        }
        k = k + 1;
    }
    assert(hay@.subrange(i as int, i + m) =~= needle@);
    true
}

/// Returns the index of the first occurrence of `needle` in `haystack`.
/// An empty needle occurs at index 0.
pub fn find_needle(haystack: &[u8], needle: &[u8]) -> (r: Option<usize>)
    ensures
        match r {
            Some(i) => is_first_occurrence(haystack@, needle@, i as int),
            None => !occurs(haystack@, needle@),
        },
{
    let n = haystack.len();
    let m = needle.len();
    if m > n {
        assert forall|j: int| !occurs_at(haystack@, needle@, j) by {}
        return None;
    }
    let last = n - m;
    let mut i: usize = 0;
    loop
        invariant
            n == haystack@.len(),
            m == needle@.len(),
            last == n - m,
            i <= last,
            forall|j: int| 0 <= j < i ==> !occurs_at(haystack@, needle@, j),
        decreases last - i,
    {
        if matches_at(haystack, needle, i) {
            return Some(i);
        }
        if i == last {
            assert forall|j: int| !occurs_at(haystack@, needle@, j) by {
                if 0 <= j <= i {
                }
            }
            return None;
        }
        i = i + 1;
    }
}

/// Returns the index of the last occurrence of `needle` in `haystack`.
/// An empty needle occurs last at index `haystack.len()`.
pub fn findr_needle(haystack: &[u8], needle: &[u8]) -> (r: Option<usize>)
    ensures
        match r {
            Some(i) => is_last_occurrence(haystack@, needle@, i as int),
            None => !occurs(haystack@, needle@),
        },
{
    let n = haystack.len();
    let m = needle.len();
    if m > n {
        assert forall|j: int| !occurs_at(haystack@, needle@, j) by {}
        return None;
    }
    let mut i: usize = n - m;
    loop
        invariant
            n == haystack@.len(),
            m == needle@.len(),
            i + m <= n,
            forall|j: int| i < j <= n ==> !occurs_at(haystack@, needle@, j),
        decreases i,
    {
        if matches_at(haystack, needle, i) {
            return Some(i);
        }
        if i == 0 {
            assert forall|j: int| !occurs_at(haystack@, needle@, j) by {
                if 0 <= j <= n {
                }
            }
            return None;
        }
        i = i - 1;
    }
}

/// The unsigned integer that at most eight bytes encode in big-endian order.
pub fn be_uint(bytes: &[u8]) -> (r: u64)
    requires
        bytes@.len() <= 8,
    ensures
        r == be_value(bytes@),
{
    let n = bytes.len();
    let mut acc: u64 = 0;
    let mut i: usize = 0;
    assert(bytes@.take(0) =~= Seq::<u8>::empty());
    while i < n
        invariant
            n == bytes@.len(),
            n <= 8,
            i <= n,
            acc == be_value(bytes@.take(i as int)),
            acc < pow256(i as nat),
        decreases n - i,
    {
        proof {
            lemma_pow256_monotone((i + 1) as nat, 8);
            reveal_with_fuel(pow256, 9);
            assert(pow256(8) == 0x1_0000_0000_0000_0000);
            assert(bytes@.take(i + 1).drop_last() =~= bytes@.take(i as int));
        }
        acc = acc * 256 + bytes[i] as u64;
        i = i + 1;
    }
    assert(bytes@.take(n as int) =~= bytes@);
    acc
}

} // verus!
