//! Facts about searching and replacing in text: where `find_from` lands, how a
//! search moves with text put in front, and when `replace` works piece by piece.
use vstd::prelude::*;

use crate::text::{find, find_from, lemma_find_from_bounds, matches_at, replace};

verus! {

/// A search from `i` lands on the first occurrence at or after `i`.
pub proof fn lemma_find_from_is(s: Seq<char>, p: Seq<char>, i: int, k: int)
    requires
        0 <= i <= k,
        p.len() > 0,
        matches_at(s, k, p),
        forall|j: int| i <= j < k ==> !#[trigger] matches_at(s, j, p),
    ensures
        find_from(s, p, i) == Some(k),
    decreases k - i,
{
    if i < k {
        assert(!matches_at(s, i, p));
        lemma_find_from_is(s, p, i + 1, k);
    }
}

/// A search from `i` finds nothing where nothing occurs at or after `i`.
pub proof fn lemma_find_from_none(s: Seq<char>, p: Seq<char>, i: int)
    requires
        0 <= i,
        p.len() > 0,
        forall|j: int| i <= j ==> !#[trigger] matches_at(s, j, p),
    ensures
        find_from(s, p, i) is None,
    decreases s.len() - i,
{
    if i + p.len() <= s.len() {
        assert(!matches_at(s, i, p));
        lemma_find_from_none(s, p, i + 1);
    }
}

/// An occurrence in the second part of a concatenation is one in that part.
pub proof fn lemma_matches_shift(a: Seq<char>, b: Seq<char>, p: Seq<char>, j: int)
    requires
        0 <= j,
    ensures
        matches_at(a + b, a.len() + j, p) == matches_at(b, j, p),
{
    if j + p.len() <= b.len() {
        assert((a + b).subrange(a.len() + j, a.len() + j + p.len()) =~= b.subrange(j, j + p.len()));
    }
}

/// An occurrence that ends within the first part of a concatenation is one in
/// that part.
pub proof fn lemma_matches_prefix(a: Seq<char>, b: Seq<char>, p: Seq<char>, j: int)
    requires
        0 <= j,
        j + p.len() <= a.len(),
    ensures
        matches_at(a + b, j, p) == matches_at(a, j, p),
{
    assert((a + b).subrange(j, j + p.len()) =~= a.subrange(j, j + p.len()));
}

/// A search in the second part of a concatenation, from past the first, is a
/// search in that part, moved.
pub proof fn lemma_find_shift(a: Seq<char>, b: Seq<char>, p: Seq<char>, k: int)
    requires
        0 <= k,
        p.len() > 0,
    ensures
        find_from(a + b, p, a.len() + k) == (match find_from(b, p, k) {
            Some(v) => Some(v + a.len()),
            None => None,
        }),
    decreases b.len() - k,
{
    lemma_matches_shift(a, b, p, k);
    if k + p.len() <= b.len() && !matches_at(b, k, p) {
        lemma_find_shift(a, b, p, k + 1);
    }
}

/// No occurrence of `p` starts in `a` and runs on into `b`.
pub open spec fn no_straddle(a: Seq<char>, b: Seq<char>, p: Seq<char>) -> bool {
    forall|j: int| 0 <= j < a.len() && j + p.len() > a.len() ==> !#[trigger] matches_at(a + b, j, p)
}

/// Without an occurrence across the seam, replacing in a concatenation replaces
/// in each part.
pub proof fn lemma_replace_concat(a: Seq<char>, b: Seq<char>, p: Seq<char>, r: Seq<char>)
    requires
        p.len() > 0,
        no_straddle(a, b, p),
    ensures
        replace(a + b, p, r) == replace(a, p, r) + replace(b, p, r),
    decreases a.len(),
{
    if a.len() == 0 {
        assert(a + b =~= b);
        assert(replace(a, p, r) =~= a);
        assert(replace(a, p, r) + replace(b, p, r) =~= replace(b, p, r));
        return;
    }
    lemma_find_from_bounds(a, p, 0);
    lemma_find_from_bounds(a + b, p, 0);
    match find(a, p) {
        Some(i) => {
            // The first occurrence in `a` is the first in `a + b`.
            assert forall|j: int| 0 <= j < i implies !#[trigger] matches_at(a + b, j, p) by {
                if j + p.len() <= a.len() {
                    lemma_matches_prefix(a, b, p, j);
                }
            }
            lemma_matches_prefix(a, b, p, i);
            lemma_find_from_is(a + b, p, 0, i);
            let a2 = a.skip(i + p.len());
            assert((a + b).skip(i + p.len()) =~= a2 + b);
            assert((a + b).take(i) =~= a.take(i));
            assert forall|j: int| 0 <= j < a2.len() && j + p.len() > a2.len() implies !#[trigger] matches_at(
                a2 + b,
                j,
                p,
            ) by {
                let jj = j + i + p.len();
                assert(a2 + b =~= (a + b).skip(i + p.len()));
                if matches_at(a2 + b, j, p) {
                    assert((a2 + b).subrange(j, j + p.len()) =~= (a + b).subrange(jj, jj + p.len()));
                    assert(matches_at(a + b, jj, p));
                }
            }
            lemma_replace_concat(a2, b, p, r);
            assert(replace(a + b, p, r) == a.take(i) + r + replace(a2 + b, p, r));
            assert(replace(a, p, r) == a.take(i) + r + replace(a2, p, r));
            assert(a.take(i) + r + (replace(a2, p, r) + replace(b, p, r)) =~= a.take(i) + r + replace(
                a2,
                p,
                r,
            ) + replace(b, p, r));
        },
        None => {
            // Nothing in `a`, nothing across the seam: the first occurrence, if
            // any, is in `b`.
            assert forall|j: int| 0 <= j < a.len() implies !#[trigger] matches_at(a + b, j, p) by {
                if j + p.len() <= a.len() {
                    lemma_matches_prefix(a, b, p, j);
                }
            }
            lemma_find_shift(a, b, p, 0);
            lemma_find_from_bounds(b, p, 0);
            assert(replace(a, p, r) == a);
            match find(b, p) {
                None => {
                    assert forall|j: int| 0 <= j implies !#[trigger] matches_at(a + b, j, p) by {
                        if j >= a.len() {
                            lemma_matches_shift(a, b, p, j - a.len());
                        }
                    }
                    lemma_find_from_none(a + b, p, 0);
                    assert(replace(b, p, r) == b);
                },
                Some(k) => {
                    assert forall|j: int| 0 <= j < a.len() + k implies !#[trigger] matches_at(a + b, j, p) by {
                        if j >= a.len() {
                            lemma_matches_shift(a, b, p, j - a.len());
                        }
                    }
                    lemma_matches_shift(a, b, p, k);
                    lemma_find_from_is(a + b, p, 0, a.len() + k);
                    assert((a + b).take(a.len() + k) =~= a + b.take(k));
                    assert((a + b).skip(a.len() + k + p.len()) =~= b.skip(k + p.len()));
                    assert(a + b.take(k) + r + replace(b.skip(k + p.len()), p, r) =~= a + (b.take(k) + r
                        + replace(b.skip(k + p.len()), p, r)));
                },
            }
        },
    }
}

/// Where nothing occurs, replacing changes nothing.
pub proof fn lemma_replace_absent(s: Seq<char>, p: Seq<char>, r: Seq<char>)
    requires
        p.len() > 0,
        forall|j: int| 0 <= j ==> !#[trigger] matches_at(s, j, p),
    ensures
        replace(s, p, r) == s,
{
    lemma_find_from_none(s, p, 0);
}

} // verus!
