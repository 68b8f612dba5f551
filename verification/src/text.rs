//! Character-level helpers shared by the parsers: Unicode whitespace,
//! trimming, splitting and conversions between `str` and `Vec<char>`.

use vstd::prelude::*;

verus! {

/// The Unicode `White_Space` property, as `char::is_whitespace` tests it.
pub open spec fn spec_is_whitespace(c: char) -> bool {
    let u = c as u32;
    ||| (0x09 <= u && u <= 0x0d)
    ||| u == 0x20
    ||| u == 0x85
    ||| u == 0xa0
    ||| u == 0x1680
    ||| (0x2000 <= u && u <= 0x200a)
    ||| u == 0x2028
    ||| u == 0x2029
    ||| u == 0x202f
    ||| u == 0x205f
    ||| u == 0x3000
}

/// `char::is_whitespace`.
pub fn is_whitespace(c: char) -> (b: bool)
    ensures
        b == spec_is_whitespace(c),
{
    let u = c as u32;
    (0x09 <= u && u <= 0x0d) || u == 0x20 || u == 0x85 || u == 0xa0 || u == 0x1680 || (0x2000
        <= u && u <= 0x200a) || u == 0x2028 || u == 0x2029 || u == 0x202f || u == 0x205f || u
        == 0x3000
}

/// The characters of a string slice.
#[verifier::external_body]
pub(crate) fn chars_of(s: &str) -> (v: Vec<char>)
    ensures
        v@ == s@,
{
    s.chars().collect()
}

/// A string made of the given characters.
#[verifier::external_body]
pub(crate) fn string_of(v: &[char]) -> (s: String)
    ensures
        s@ == v@,
{
    v.iter().collect()
}


/// Index of the first non-whitespace character at or after `i`.
pub open spec fn skip_ws(s: Seq<char>, i: int) -> int
    decreases s.len() - i,
{
    if 0 <= i < s.len() && spec_is_whitespace(s[i]) {
        skip_ws(s, i + 1)
    } else {
        i
    }
}

/// End of `s[..j]` once trailing whitespace is dropped.
pub open spec fn back_ws(s: Seq<char>, j: int) -> int
    decreases j,
{
    if 0 < j <= s.len() && spec_is_whitespace(s[j - 1]) {
        back_ws(s, j - 1)
    } else {
        j
    }
}

/// `str::trim`: the text without leading and trailing whitespace.
pub open spec fn spec_trim(s: Seq<char>) -> Seq<char> {
    let a = skip_ws(s, 0);
    let b = back_ws(s, s.len() as int);
    if b <= a {
        Seq::empty()
    } else {
        s.subrange(a, b)
    }
}

/// Where trailing whitespace begins before `j`: no later than `j`, after
/// a non-whitespace character (or at the start), with only whitespace up to `j`.
pub(crate) proof fn lemma_back_ws_bounds(s: Seq<char>, j: int)
    requires
        0 <= j <= s.len(),
    ensures
        0 <= back_ws(s, j) <= j,
        back_ws(s, j) > 0 ==> !spec_is_whitespace(s[back_ws(s, j) - 1]),
        forall|k: int| back_ws(s, j) <= k < j ==> spec_is_whitespace(#[trigger] s[k]),
    decreases j,
{
    if 0 < j && spec_is_whitespace(s[j - 1]) {
        lemma_back_ws_bounds(s, j - 1);
    }
}

/// `str::trim` on a character vector.
pub fn trim(v: &Vec<char>) -> (r: Vec<char>)
    ensures
        r@ == spec_trim(v@),
{
    let n = v.len();
    let mut a: usize = 0;
    while a < n && is_whitespace(v[a])
        invariant
            n == v.len(),
            a <= n,
            skip_ws(v@, 0) == skip_ws(v@, a as int),
        decreases n - a,
    {
        a = a + 1;
    }
    let mut b: usize = n;
    while b > 0 && is_whitespace(v[b - 1])
        invariant
            n == v.len(),
            b <= n,
            back_ws(v@, n as int) == back_ws(v@, b as int),
        decreases b,
    {
        b = b - 1;
    }
    let mut r: Vec<char> = Vec::new();
    if a < b {
        let mut k = a;
        while k < b
            invariant
                a <= k <= b <= n == v.len(),
                r@ == v@.subrange(a as int, k as int),
            decreases b - k,
        {
            r.push(v[k]);
            k = k + 1;
        }
    }
    proof {
        assert(skip_ws(v@, a as int) == a as int);
        assert(back_ws(v@, b as int) == b as int);
    }
    r
}

/// The characters of `s` lower-cased by `str::to_lowercase`.
pub uninterp spec fn spec_to_lowercase(s: Seq<char>) -> Seq<char>;

/// `char::to_ascii_lowercase`: `A` to `Z` become `a` to `z`.
pub open spec fn spec_ascii_lower(c: char) -> char {
    if 'A' <= c && c <= 'Z' {
        ((c as u32) + 32) as char
    } else {
        c
    }
}

/// `str::to_lowercase` (full Unicode case mapping). On ASCII text the
/// Unicode lower case is the ASCII one: `A` to `Z` become `a` to `z`, every
/// other character stays.
#[verifier::external_body]
pub(crate) fn to_lowercase(v: &[char]) -> (r: Vec<char>)
    ensures
        r@ == spec_to_lowercase(v@),
        (forall|i: int| 0 <= i < v@.len() ==> (#[trigger] v@[i] as u32) < 128) ==> r@
            == v@.map_values(|c: char| spec_ascii_lower(c)),
{
    v.iter().collect::<String>().to_lowercase().chars().collect()
}

/// `char::to_ascii_uppercase`.
pub open spec fn spec_ascii_upper(c: char) -> char {
    if 'a' <= c && c <= 'z' {
        ((c as u32) - 32) as char
    } else {
        c
    }
}

/// `str::to_ascii_uppercase`.
pub open spec fn spec_ascii_upper_str(s: Seq<char>) -> Seq<char> {
    s.map_values(|c: char| spec_ascii_upper(c))
}

pub fn ascii_upper_str(v: &Vec<char>) -> (r: Vec<char>)
    ensures
        r@ == spec_ascii_upper_str(v@),
{
    let mut r: Vec<char> = Vec::new();
    let mut i: usize = 0;
    while i < v.len()
        invariant
            i <= v.len(),
            r@ == spec_ascii_upper_str(v@.subrange(0, i as int)),
        decreases v.len() - i,
    {
        let c = v[i];
        let u = if 'a' <= c && c <= 'z' {
            let code = (c as u32) - 32;
            assert(code == 65 + (c as u32 - 97));
            char_from_ascii(code)
        } else {
            c
        };
        r.push(u);
        assert(v@.subrange(0, i as int + 1) == v@.subrange(0, i as int).push(c));
        i = i + 1;
    }
    assert(v@.subrange(0, v.len() as int) == v@);
    r
}

/// The character with the given ASCII code.
fn char_from_ascii(code: u32) -> (c: char)
    requires
        code < 128,
    ensures
        c as u32 == code,
        c == code as char,
{
    let b = code as u8;
    b as char
}


/// Whether two character vectors are equal.
pub fn chars_eq(a: &Vec<char>, b: &Vec<char>) -> (r: bool)
    ensures
        r == (a@ == b@),
{
    if a.len() != b.len() {
        return false;
    }
    let mut i: usize = 0;
    while i < a.len()
        invariant
            a.len() == b.len(),
            i <= a.len(),
            forall|k: int| 0 <= k < i ==> a@[k] == b@[k],
        decreases a.len() - i,
    {
        if a[i] != b[i] {
            return false;
        }
        i = i + 1;
    }
    assert(a@ =~= b@);
    true
}

/// Whether `a` equals the string slice `lit`.
pub fn chars_eq_str(a: &Vec<char>, lit: &str) -> (r: bool)
    ensures
        r == (a@ == lit@),
{
    let b = chars_of(lit);
    chars_eq(a, &b)
}

/// The contents of an optional character vector.
pub open spec fn opt_chars(o: Option<Vec<char>>) -> Option<Seq<char>> {
    match o {
        Some(v) => Some(v@),
        None => None,
    }
}

/// `s` with `prefix` removed, if `s` starts with it.
pub open spec fn spec_strip_prefix(prefix: Seq<char>, s: Seq<char>) -> Option<Seq<char>> {
    if prefix.len() <= s.len() && s.subrange(0, prefix.len() as int) == prefix {
        Some(s.subrange(prefix.len() as int, s.len() as int))
    } else {
        None
    }
}

/// `str::strip_prefix`.
pub fn strip_prefix(prefix: &Vec<char>, s: &Vec<char>) -> (r: Option<Vec<char>>)
    ensures
        opt_chars(r) == spec_strip_prefix(prefix@, s@),
{
    let n = prefix.len();
    if n > s.len() {
        return None;
    }
    let mut i: usize = 0;
    while i < n
        invariant
            n == prefix.len() <= s.len(),
            i <= n,
            forall|k: int| 0 <= k < i ==> s@[k] == prefix@[k],
        decreases n - i,
    {
        if s[i] != prefix[i] {
            assert(s@.subrange(0, n as int)[i as int] != prefix@[i as int]);
            return None;
        }
        i = i + 1;
    }
    assert(s@.subrange(0, n as int) =~= prefix@);
    Some(slice_from(s, n))
}

/// `s[from..]`.
pub fn slice_from(s: &Vec<char>, from: usize) -> (r: Vec<char>)
    requires
        from <= s.len(),
    ensures
        r@ == s@.subrange(from as int, s.len() as int),
{
    slice_range(s, from, s.len())
}

/// `s[from..to]`.
pub fn slice_range(s: &Vec<char>, from: usize, to: usize) -> (r: Vec<char>)
    requires
        from <= to <= s.len(),
    ensures
        r@ == s@.subrange(from as int, to as int),
{
    let mut r: Vec<char> = Vec::new();
    let mut k = from;
    while k < to
        invariant
            from <= k <= to <= s.len(),
            r@ == s@.subrange(from as int, k as int),
        decreases to - k,
    {
        r.push(s[k]);
        k = k + 1;
    }
    r
}

/// The parts joined with `sep` between neighbours (`[..].join(sep)`).
pub open spec fn spec_join(parts: Seq<Seq<char>>, sep: Seq<char>) -> Seq<char>
    decreases parts.len(),
{
    if parts.len() == 0 {
        Seq::empty()
    } else if parts.len() == 1 {
        parts[0]
    } else {
        spec_join(parts.drop_last(), sep) + sep + parts.last()
    }
}

/// `a + b` on character vectors, in place.
pub fn append_chars(a: &mut Vec<char>, b: &Vec<char>)
    ensures
        final(a)@ == old(a)@ + b@,
{
    let mut i: usize = 0;
    let ghost a0 = a@;
    while i < b.len()
        invariant
            i <= b.len(),
            a@ == a0 + b@.subrange(0, i as int),
        decreases b.len() - i,
    {
        a.push(b[i]);
        i = i + 1;
    }
    assert(b@.subrange(0, b.len() as int) =~= b@);
}

/// The contents of each character vector.
pub open spec fn views(v: Seq<Vec<char>>) -> Seq<Seq<char>> {
    Seq::new(v.len(), |i: int| v[i]@)
}

/// `parts.join(sep)`.
pub fn join(parts: &Vec<Vec<char>>, sep: &Vec<char>) -> (r: Vec<char>)
    ensures
        r@ == spec_join(views(parts@), sep@),
{
    let mut r: Vec<char> = Vec::new();
    let mut i: usize = 0;
    while i < parts.len()
        invariant
            i <= parts.len(),
            r@ == spec_join(views(parts@).take(i as int), sep@),
        decreases parts.len() - i,
    {
        let ghost before = views(parts@).take(i as int);
        if i > 0 {
            append_chars(&mut r, sep);
        }
        append_chars(&mut r, &parts[i]);
        proof {
            let after = views(parts@).take(i + 1);
            assert(after.drop_last() =~= before);
            assert(after.last() == parts[i as int]@);
            if i == 0 {
                assert(after.len() == 1);
            }
        }
        i = i + 1;
    }
    assert(views(parts@).take(parts.len() as int) =~= views(parts@));
    r
}

/// `parts.join(sep)` with string results.
pub fn join_strings(parts: &Vec<String>, sep: &str) -> (r: String)
    ensures
        r@ == spec_join(parts.deep_view(), sep@),
{
    let mut cs: Vec<Vec<char>> = Vec::new();
    let mut i: usize = 0;
    while i < parts.len()
        invariant
            i <= parts.len(),
            views(cs@) =~= parts.deep_view().take(i as int),
        decreases parts.len() - i,
    {
        let ghost before = views(cs@);
        let c = chars_of(parts[i].as_str());
        cs.push(c);
        assert(views(cs@) =~= before.push(parts[i as int]@));
        assert(parts.deep_view().take(i + 1) =~= parts.deep_view().take(i as int).push(
            parts[i as int]@,
        ));
        i = i + 1;
    }
    assert(parts.deep_view().take(parts.len() as int) =~= parts.deep_view());
    let sepv = chars_of(sep);
    let r = join(&cs, &sepv);
    string_of(r.as_slice())
}


/// A copy of a character vector.
pub fn copy_chars(v: &Vec<char>) -> (r: Vec<char>)
    ensures
        r@ == v@,
{
    slice_range(v, 0, v.len())
}

/// Lexicographic comparison by code point, as `str`'s `Ord` compares:
/// `-1`, `0` or `1`.
pub open spec fn spec_lex_order(a: Seq<char>, b: Seq<char>) -> int
    decreases a.len(),
{
    if a.len() == 0 && b.len() == 0 {
        0
    } else if a.len() == 0 {
        -1
    } else if b.len() == 0 {
        1
    } else if a[0] < b[0] {
        -1
    } else if a[0] > b[0] {
        1
    } else {
        spec_lex_order(a.drop_first(), b.drop_first())
    }
}

/// Swapping the arguments negates the comparison.
pub proof fn lemma_lex_order_antisymmetric(a: Seq<char>, b: Seq<char>)
    ensures
        spec_lex_order(a, b) == -spec_lex_order(b, a),
    decreases a.len(),
{
    if a.len() > 0 && b.len() > 0 && a[0] == b[0] {
        lemma_lex_order_antisymmetric(a.drop_first(), b.drop_first());
    }
}

/// Two texts compare equal exactly when they are the same.
pub proof fn lemma_lex_order_zero(a: Seq<char>, b: Seq<char>)
    ensures
        (spec_lex_order(a, b) == 0) == (a == b),
    decreases a.len(),
{
    if a.len() == 0 && b.len() == 0 {
        assert(a =~= b);
    } else if a.len() == 0 || b.len() == 0 {
        assert(a.len() != b.len());
    } else if a[0] != b[0] {
        assert(a != b);
    } else {
        lemma_lex_order_zero(a.drop_first(), b.drop_first());
        assert(a =~= seq![a[0]] + a.drop_first());
        assert(b =~= seq![b[0]] + b.drop_first());
        if a == b {
            assert(a.drop_first() =~= b.drop_first());
        }
    }
}

/// The code-point order is transitive.
pub proof fn lemma_lex_order_transitive(a: Seq<char>, b: Seq<char>, c: Seq<char>)
    requires
        spec_lex_order(a, b) <= 0,
        spec_lex_order(b, c) <= 0,
    ensures
        spec_lex_order(a, c) <= 0,
    decreases a.len(),
{
    if a.len() > 0 && b.len() > 0 && c.len() > 0 && a[0] == b[0] && b[0] == c[0] {
        lemma_lex_order_transitive(a.drop_first(), b.drop_first(), c.drop_first());
    }
}

/// Compares two character vectors as [`spec_lex_order`] does.
pub fn lex_order(a: &Vec<char>, b: &Vec<char>) -> (r: i8)
    ensures
        r == spec_lex_order(a@, b@),
        -1 <= r <= 1,
{
    let mut i: usize = 0;
    assert(a@.subrange(0, a.len() as int) =~= a@);
    assert(b@.subrange(0, b.len() as int) =~= b@);
    while i < a.len() && i < b.len()
        invariant
            i <= a.len(),
            i <= b.len(),
            spec_lex_order(a@, b@) == spec_lex_order(
                a@.subrange(i as int, a.len() as int),
                b@.subrange(i as int, b.len() as int),
            ),
        decreases a.len() - i,
    {
        let x = a[i];
        let y = b[i];
        proof {
            let sa = a@.subrange(i as int, a.len() as int);
            let sb = b@.subrange(i as int, b.len() as int);
            assert(sa.drop_first() =~= a@.subrange(i + 1, a.len() as int));
            assert(sb.drop_first() =~= b@.subrange(i + 1, b.len() as int));
            assert(sa[0] == x && sb[0] == y);
        }
        if x < y {
            return -1;
        }
        if x > y {
            return 1;
        }
        i = i + 1;
    }
    if i == a.len() && i == b.len() {
        0
    } else if i == a.len() {
        -1
    } else {
        1
    }
}

/// Whether `needle` occurs in `hay` as a contiguous part (`str::contains`).
pub open spec fn spec_contains_sub(hay: Seq<char>, needle: Seq<char>) -> bool {
    exists|i: int|
        0 <= i && i + needle.len() <= hay.len() && #[trigger] hay.subrange(i, i + needle.len())
            == needle
}

fn matches_at_pos(hay: &Vec<char>, needle: &Vec<char>, i: usize) -> (r: bool)
    requires
        i + needle.len() <= hay.len(),
    ensures
        r == (hay@.subrange(i as int, i + needle.len()) == needle@),
{
    let mut k: usize = 0;
    while k < needle.len()
        invariant
            i + needle.len() <= hay.len(),
            k <= needle.len(),
            forall|m: int| 0 <= m < k ==> hay@[i + m] == needle@[m],
        decreases needle.len() - k,
    {
        if hay[i + k] != needle[k] {
            assert(hay@.subrange(i as int, i + needle.len())[k as int] != needle@[k as int]);
            return false;
        }
        k = k + 1;
    }
    assert(hay@.subrange(i as int, i + needle.len()) =~= needle@);
    true
}

/// Whether `needle` occurs in `hay`.
pub fn contains_sub(hay: &Vec<char>, needle: &Vec<char>) -> (r: bool)
    ensures
        r == spec_contains_sub(hay@, needle@),
{
    if needle.len() > hay.len() {
        return false;
    }
    let last = hay.len() - needle.len();
    let mut i: usize = 0;
    while i < last
        invariant
            last + needle.len() == hay.len(),
            i <= last,
            forall|m: int|
                0 <= m < i ==> #[trigger] hay@.subrange(m, m + needle.len()) != needle@,
        decreases last + 1 - i,
    {
        if matches_at_pos(hay, needle, i) {
            return true;
        }
        i = i + 1;
    }
    matches_at_pos(hay, needle, last)
}

/// Pieces of `s` from position `i` on between runs of whitespace, given the
/// finished pieces `toks` and the piece `cur` being built.
pub open spec fn ws_pieces_from(s: Seq<char>, i: int, toks: Seq<Seq<char>>, cur: Seq<char>) -> Seq<
    Seq<char>,
>
    decreases s.len() - i,
{
    if i < 0 || i >= s.len() {
        if cur.len() > 0 {
            toks.push(cur)
        } else {
            toks
        }
    } else if spec_is_whitespace(s[i]) {
        ws_pieces_from(
            s,
            i + 1,
            if cur.len() > 0 {
                toks.push(cur)
            } else {
                toks
            },
            Seq::empty(),
        )
    } else {
        ws_pieces_from(s, i + 1, toks, cur.push(s[i]))
    }
}

/// `str::split_whitespace`.
pub open spec fn spec_split_whitespace(s: Seq<char>) -> Seq<Seq<char>> {
    ws_pieces_from(s, 0, Seq::empty(), Seq::empty())
}

/// Splits at runs of whitespace, dropping empty pieces.
pub fn split_whitespace(v: &Vec<char>) -> (r: Vec<Vec<char>>)
    ensures
        views(r@) == spec_split_whitespace(v@),
{
    let mut toks: Vec<Vec<char>> = Vec::new();
    let mut cur: Vec<char> = Vec::new();
    let mut i: usize = 0;
    assert(views(toks@) =~= Seq::<Seq<char>>::empty());
    assert(cur@ =~= Seq::<char>::empty());
    while i < v.len()
        invariant
            i <= v.len(),
            spec_split_whitespace(v@) == ws_pieces_from(v@, i as int, views(toks@), cur@),
        decreases v.len() - i,
    {
        let c = v[i];
        if is_whitespace(c) {
            if cur.len() > 0 {
                let ghost before = views(toks@);
                let mut done: Vec<char> = Vec::new();
                std::mem::swap(&mut done, &mut cur);
                toks.push(done);
                assert(views(toks@) =~= before.push(done@));
            }
            assert(cur@ =~= Seq::<char>::empty());
        } else {
            cur.push(c);
        }
        i = i + 1;
    }
    if cur.len() > 0 {
        let ghost before = views(toks@);
        let done = cur;
        toks.push(done);
        assert(views(toks@) =~= before.push(done@));
    }
    toks
}

/// Segments of `s` from position `i` on, split at each line feed, empty
/// segments kept.
pub open spec fn line_segments_from(s: Seq<char>, i: int, toks: Seq<Seq<char>>, cur: Seq<char>) -> Seq<
    Seq<char>,
>
    decreases s.len() - i,
{
    if i < 0 || i >= s.len() {
        toks.push(cur)
    } else if s[i] == '\n' {
        line_segments_from(s, i + 1, toks.push(cur), Seq::empty())
    } else {
        line_segments_from(s, i + 1, toks, cur.push(s[i]))
    }
}

/// `s.split('\n')`.
pub open spec fn spec_line_segments(s: Seq<char>) -> Seq<Seq<char>> {
    line_segments_from(s, 0, Seq::empty(), Seq::empty())
}

/// Splits at every line feed, keeping empty segments.
pub fn line_segments(v: &Vec<char>) -> (r: Vec<Vec<char>>)
    ensures
        views(r@) == spec_line_segments(v@),
{
    let mut toks: Vec<Vec<char>> = Vec::new();
    let mut cur: Vec<char> = Vec::new();
    let mut i: usize = 0;
    assert(views(toks@) =~= Seq::<Seq<char>>::empty());
    assert(cur@ =~= Seq::<char>::empty());
    while i < v.len()
        invariant
            i <= v.len(),
            spec_line_segments(v@) == line_segments_from(v@, i as int, views(toks@), cur@),
        decreases v.len() - i,
    {
        let c = v[i];
        if c == '\n' {
            let ghost before = views(toks@);
            let mut done: Vec<char> = Vec::new();
            std::mem::swap(&mut done, &mut cur);
            toks.push(done);
            assert(views(toks@) =~= before.push(done@));
            assert(cur@ =~= Seq::<char>::empty());
        } else {
            cur.push(c);
        }
        i = i + 1;
    }
    let ghost before = views(toks@);
    let done = cur;
    toks.push(done);
    assert(views(toks@) =~= before.push(done@));
    toks
}

} // verus!
