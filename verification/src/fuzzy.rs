//! Typo-tolerant free-text matching for the search: German spelling
//! variants are folded (`ä` as `ae`, `ö` as `oe`, `ü` as `ue`, `ß` as `ss`),
//! and a term of more than three letters may differ from the text by one
//! edit (a character changed, added or left out).

use vstd::prelude::*;
use crate::text::{chars_of, contains_sub, spec_contains_sub, spec_to_lowercase, to_lowercase};

verus! {

/// How one lower-case character reads once German spelling variants are
/// folded.
pub open spec fn fold_char(c: char) -> Seq<char> {
    if c == 'ä' {
        seq!['a', 'e']
    } else if c == 'ö' {
        seq!['o', 'e']
    } else if c == 'ü' {
        seq!['u', 'e']
    } else if c == 'ß' {
        seq!['s', 's']
    } else {
        seq![c]
    }
}

/// A lower-case text with German spelling variants folded.
pub open spec fn fold_german(s: Seq<char>) -> Seq<char>
    decreases s.len(),
{
    if s.len() == 0 {
        Seq::empty()
    } else {
        fold_german(s.drop_last()) + fold_char(s.last())
    }
}

/// `b` is `a` with at most one edit: equal, or after a common start `k` one
/// character of `a` replaced, left out, or one character added.
pub open spec fn within_one_edit(a: Seq<char>, b: Seq<char>) -> bool {
    ||| a == b
    ||| exists|k: int| #[trigger] one_edit_at(a, b, k)
}

/// One edit at position `k` turns `a` into `b`.
pub open spec fn one_edit_at(a: Seq<char>, b: Seq<char>, k: int) -> bool {
    &&& 0 <= k <= a.len()
    &&& k <= b.len()
    &&& a.subrange(0, k) == b.subrange(0, k)
    &&& {
        ||| (k < a.len() && k < b.len() && a.subrange(k + 1, a.len() as int) == b.subrange(
            k + 1,
            b.len() as int,
        ))
        ||| (k < a.len() && a.subrange(k + 1, a.len() as int) == b.subrange(k, b.len() as int))
        ||| (k < b.len() && a.subrange(k, a.len() as int) == b.subrange(k + 1, b.len() as int))
    }
}

/// Some part of `hay` is within one edit of `term`.
pub open spec fn near_part(hay: Seq<char>, term: Seq<char>) -> bool {
    exists|i: int, j: int|
        0 <= i <= j <= hay.len() && #[trigger] within_one_edit(term, hay.subrange(i, j))
}

/// Whether the free-text `term` finds `hay`: both are lower-cased and
/// folded; the term then occurs in the text, or, where it has more than
/// three letters, some part of the text is within one edit of it.
pub open spec fn spec_fuzzy_contains(hay: Seq<char>, term: Seq<char>) -> bool {
    let h = fold_german(spec_to_lowercase(hay));
    let t = fold_german(spec_to_lowercase(term));
    spec_contains_sub(h, t) || (spec_to_lowercase(term).len() > 3 && near_part(h, t))
}

fn fold_chars(v: &Vec<char>) -> (r: Vec<char>)
    ensures
        r@ == fold_german(v@),
{
    let mut r: Vec<char> = Vec::new();
    let mut i: usize = 0;
    while i < v.len()
        invariant
            i <= v.len(),
            r@ == fold_german(v@.take(i as int)),
        decreases v.len() - i,
    {
        assert(v@.take(i + 1).drop_last() =~= v@.take(i as int));
        let c = v[i];
        if c == 'ä' {
            r.push('a');
            r.push('e');
        } else if c == 'ö' {
            r.push('o');
            r.push('e');
        } else if c == 'ü' {
            r.push('u');
            r.push('e');
        } else if c == 'ß' {
            r.push('s');
            r.push('s');
        } else {
            r.push(c);
        }
        assert(r@ =~= fold_german(v@.take(i + 1)));
        i = i + 1;
    }
    assert(v@.take(v.len() as int) =~= v@);
    r
}

/// `a[a0..a1] == b[b0..b1]`.
fn parts_equal(a: &Vec<char>, a0: usize, a1: usize, b: &Vec<char>, b0: usize, b1: usize) -> (r:
    bool)
    requires
        a0 <= a1 <= a.len(),
        b0 <= b1 <= b.len(),
    ensures
        r == (a@.subrange(a0 as int, a1 as int) == b@.subrange(b0 as int, b1 as int)),
{
    if a1 - a0 != b1 - b0 {
        assert(a@.subrange(a0 as int, a1 as int).len() != b@.subrange(b0 as int, b1 as int).len());
        return false;
    }
    let n = a1 - a0;
    let ghost sa = a@.subrange(a0 as int, a1 as int);
    let ghost sb = b@.subrange(b0 as int, b1 as int);
    let mut k: usize = 0;
    while k < n
        invariant
            a0 <= a1 <= a.len(),
            b0 <= b1 <= b.len(),
            n == a1 - a0,
            n == b1 - b0,
            sa == a@.subrange(a0 as int, a1 as int),
            sb == b@.subrange(b0 as int, b1 as int),
            k <= n,
            forall|m: int| 0 <= m < k ==> #[trigger] sa[m] == sb[m],
        decreases n - k,
    {
        if a[a0 + k] != b[b0 + k] {
            assert(sa[k as int] != sb[k as int]);
            return false;
        }
        assert(sa[k as int] == sb[k as int]);
        k = k + 1;
    }
    assert(a@.subrange(a0 as int, a1 as int) =~= b@.subrange(b0 as int, b1 as int));
    true
}

/// Whether one edit at `k` turns `a` into the part `h[i..j]`.
fn one_edit_at_exec(a: &Vec<char>, h: &Vec<char>, i: usize, j: usize, k: usize) -> (r: bool)
    requires
        i <= j <= h.len(),
    ensures
        r == one_edit_at(a@, h@.subrange(i as int, j as int), k as int),
{
    let ghost b = h@.subrange(i as int, j as int);
    let lb = j - i;
    if k > a.len() || k > lb {
        return false;
    }
    assert(b.subrange(0, k as int) =~= h@.subrange(i as int, i + k));
    if !parts_equal(a, 0, k, h, i, i + k) {
        return false;
    }
    if k < a.len() && k < lb {
        assert(b.subrange(k + 1, lb as int) =~= h@.subrange(i + k + 1, j as int));
        if parts_equal(a, k + 1, a.len(), h, i + k + 1, j) {
            return true;
        }
    }
    if k < a.len() {
        assert(b.subrange(k as int, lb as int) =~= h@.subrange(i + k, j as int));
        if parts_equal(a, k + 1, a.len(), h, i + k, j) {
            return true;
        }
    }
    if k < lb {
        assert(b.subrange(k + 1, lb as int) =~= h@.subrange(i + k + 1, j as int));
        if parts_equal(a, k, a.len(), h, i + k + 1, j) {
            return true;
        }
    }
    false
}

/// Whether the part `h[i..j]` is within one edit of `a`.
fn within_one_edit_exec(a: &Vec<char>, h: &Vec<char>, i: usize, j: usize) -> (r: bool)
    requires
        i <= j <= h.len(),
    ensures
        r == within_one_edit(a@, h@.subrange(i as int, j as int)),
{
    let ghost b = h@.subrange(i as int, j as int);
    if parts_equal(a, 0, a.len(), h, i, j) {
        assert(a@.subrange(0, a.len() as int) =~= a@);
        return true;
    }
    assert(a@.subrange(0, a.len() as int) =~= a@);
    let mut k: usize = 0;
    while k < a.len()
        invariant
            i <= j <= h.len(),
            b == h@.subrange(i as int, j as int),
            a@ != b,
            k <= a.len(),
            forall|m: int| 0 <= m < k ==> !#[trigger] one_edit_at(a@, b, m),
        decreases a.len() - k,
    {
        if one_edit_at_exec(a, h, i, j, k) {
            return true;
        }
        k = k + 1;
    }
    if one_edit_at_exec(a, h, i, j, a.len()) {
        return true;
    }
    assert forall|m: int| !#[trigger] one_edit_at(a@, b, m) by {
        if 0 <= m < k {
        }
    }
    false
}

/// One edit changes the length by at most one.
proof fn lemma_one_edit_length(a: Seq<char>, b: Seq<char>)
    requires
        within_one_edit(a, b),
    ensures
        a.len() - 1 <= b.len() <= a.len() + 1,
{
    if a != b {
        let k = choose|k: int| #[trigger] one_edit_at(a, b, k);
        assert(one_edit_at(a, b, k));
        if k < a.len() && k < b.len() && a.subrange(k + 1, a.len() as int) == b.subrange(
            k + 1,
            b.len() as int,
        ) {
            assert(a.subrange(k + 1, a.len() as int).len() == b.subrange(k + 1, b.len() as int).len());
        } else if k < a.len() && a.subrange(k + 1, a.len() as int) == b.subrange(k, b.len() as int) {
            assert(a.subrange(k + 1, a.len() as int).len() == b.subrange(k, b.len() as int).len());
        } else {
            assert(a.subrange(k, a.len() as int).len() == b.subrange(k + 1, b.len() as int).len());
        }
    }
}

/// Whether some part of `h` is within one edit of `t`. Only parts whose
/// length differs from `t`'s by at most one can be.
fn near_part_exec(h: &Vec<char>, t: &Vec<char>) -> (r: bool)
    ensures
        r == near_part(h@, t@),
{
    let lo: usize = if t.len() > 0 {
        t.len() - 1
    } else {
        0
    };
    let mut i: usize = 0;
    while i < h.len()
        invariant
            i <= h.len(),
            t.len() > 0 ==> lo + 1 == t.len(),
            t.len() == 0 ==> lo == 0,
            forall|p: int, q: int|
                0 <= p < i && p <= q <= h.len() ==> !#[trigger] within_one_edit(
                    t@,
                    h@.subrange(p, q),
                ),
        decreases h.len() - i,
    {
        proof {
            assert forall|q: int| i <= q <= h.len() && q - i < lo implies !#[trigger] within_one_edit(
                t@,
                h@.subrange(i as int, q),
            ) by {
                if within_one_edit(t@, h@.subrange(i as int, q)) {
                    lemma_one_edit_length(t@, h@.subrange(i as int, q));
                    assert(h@.subrange(i as int, q).len() == q - i);
                }
            }
        }
        let mut d: usize = 0;
        while d < 3
            invariant
                i < h.len(),
                t.len() > 0 ==> lo + 1 == t.len(),
                t.len() == 0 ==> lo == 0,
                d <= 3,
                forall|p: int, q: int|
                    0 <= p < i && p <= q <= h.len() ==> !#[trigger] within_one_edit(
                        t@,
                        h@.subrange(p, q),
                    ),
                forall|q: int|
                    i <= q <= h.len() && q - i < lo + d ==> !#[trigger] within_one_edit(
                        t@,
                        h@.subrange(i as int, q),
                    ),
            decreases 3 - d,
        {
            if lo <= h.len() - i && d <= h.len() - i - lo {
                if within_one_edit_exec(t, h, i, i + lo + d) {
                    return true;
                }
            }
            d = d + 1;
        }
        proof {
            assert forall|q: int| i <= q <= h.len() implies !#[trigger] within_one_edit(
                t@,
                h@.subrange(i as int, q),
            ) by {
                if within_one_edit(t@, h@.subrange(i as int, q)) {
                    lemma_one_edit_length(t@, h@.subrange(i as int, q));
                    assert(h@.subrange(i as int, q).len() == q - i);
                }
            }
        }
        i = i + 1;
    }
    if within_one_edit_exec(t, h, h.len(), h.len()) {
        return true;
    }
    assert forall|p: int, q: int| 0 <= p <= q <= h.len() implies !#[trigger] within_one_edit(
        t@,
        h@.subrange(p, q),
    ) by {
        if p == h.len() {
            assert(q == h.len());
        }
    }
    false
}

/// Folding German spelling variants works piece by piece: the folded
/// concatenation is the concatenation of the folded parts.
pub proof fn lemma_fold_concat(a: Seq<char>, b: Seq<char>)
    ensures
        fold_german(a + b) == fold_german(a) + fold_german(b),
    decreases b.len(),
{
    if b.len() == 0 {
        assert(a + b =~= a);
        assert(fold_german(a) + fold_german(b) =~= fold_german(a));
    } else {
        assert((a + b).drop_last() =~= a + b.drop_last());
        assert((a + b).last() == b.last());
        lemma_fold_concat(a, b.drop_last());
        assert(fold_german(a + b) =~= fold_german(a) + fold_german(b));
    }
}

/// A text that occurs in another still occurs in it once both are folded.
pub proof fn lemma_contains_survives_folding(hay: Seq<char>, needle: Seq<char>)
    requires
        spec_contains_sub(hay, needle),
    ensures
        spec_contains_sub(fold_german(hay), fold_german(needle)),
{
    let i = choose|i: int|
        0 <= i && i + needle.len() <= hay.len() && #[trigger] hay.subrange(i, i + needle.len())
            == needle;
    let x = hay.subrange(0, i);
    let y = hay.subrange(i + needle.len(), hay.len() as int);
    assert(hay =~= x + needle + y);
    lemma_fold_concat(x + needle, y);
    lemma_fold_concat(x, needle);
    let fx = fold_german(x);
    let fh = fold_german(hay);
    let fneedle = fold_german(needle);
    assert(fh == fx + fneedle + fold_german(y));
    assert(fh.subrange(fx.len() as int, (fx.len() + fneedle.len()) as int) =~= fneedle);
}

/// Whether the free-text `term` finds `haystack` (see
/// [`spec_fuzzy_contains`]).
pub fn fuzzy_contains(haystack: &str, term: &str) -> (r: bool)
    ensures
        r == spec_fuzzy_contains(haystack@, term@),
{
    let lt = to_lowercase(chars_of(term).as_slice());
    let h = fold_chars(&to_lowercase(chars_of(haystack).as_slice()));
    let t = fold_chars(&lt);
    if contains_sub(&h, &t) {
        return true;
    }
    lt.len() > 3 && near_part_exec(&h, &t)
}

} // verus!
