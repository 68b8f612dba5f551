//! Decimal text of integers: `i64` to text and back, as `to_string` and
//! `str::parse::<i64>` do it.

use vstd::prelude::*;
use crate::text::{chars_of, string_of};

verus! {

/// The ASCII digit of a value below ten.
pub open spec fn digit_char(d: int) -> char {
    (d + 48) as char
}

/// The decimal digits of a natural number, without leading zeros.
pub open spec fn nat_digits(n: nat) -> Seq<char>
    decreases n,
{
    if n < 10 {
        seq![digit_char(n as int)]
    } else {
        nat_digits(n / 10).push(digit_char((n % 10) as int))
    }
}

/// The decimal text of an integer, with `-` in front of a negative one.
pub open spec fn spec_i64_decimal(n: int) -> Seq<char> {
    if n < 0 {
        seq!['-'] + nat_digits((-n) as nat)
    } else {
        nat_digits(n as nat)
    }
}

fn digit_of(d: u64) -> (c: char)
    requires
        d < 10,
    ensures
        c == digit_char(d as int),
{
    let b = (d + 48) as u8;
    b as char
}

/// `n.to_string()` for an `i64`.
pub fn i64_to_string(n: i64) -> (r: String)
    ensures
        r@ == spec_i64_decimal(n as int),
{
    let neg = n < 0;
    let mag: u64 = if neg {
        if n == i64::MIN {
            9223372036854775808u64
        } else {
            (-n) as u64
        }
    } else {
        n as u64
    };
    let ghost orig: nat = mag as nat;
    let mut m: u64 = mag;
    let mut acc: Vec<char> = Vec::new();
    let d = digit_of(m % 10);
    acc.push(d);
    m = m / 10;
    proof {
        assert(acc@ =~= seq![digit_char((orig % 10) as int)]);
        if orig >= 10 {
            assert(nat_digits(orig) == nat_digits(orig / 10).push(digit_char((orig % 10) as int)));
            assert(nat_digits(orig) =~= nat_digits(m as nat) + acc@);
        }
    }
    while m > 0
        invariant
            m > 0 ==> nat_digits(orig) == nat_digits(m as nat) + acc@,
            m == 0 ==> nat_digits(orig) == acc@,
            acc.len() >= 1,
        decreases m,
    {
        let ghost before = acc@;
        let c = digit_of(m % 10);
        acc.insert(0, c);
        proof {
            if m >= 10 {
                assert(nat_digits(m as nat) == nat_digits((m / 10) as nat).push(c));
                assert(nat_digits((m / 10) as nat) + acc@ =~= nat_digits((m / 10) as nat).push(c)
                    + before);
            } else {
                assert(nat_digits(m as nat) == seq![c]);
                assert(acc@ =~= seq![c] + before);
            }
        }
        m = m / 10;
    }
    let mut out: Vec<char> = Vec::new();
    if neg {
        out.push('-');
    }
    let mut i: usize = 0;
    let ghost start = out@;
    while i < acc.len()
        invariant
            i <= acc.len(),
            out@ == start + acc@.subrange(0, i as int),
        decreases acc.len() - i,
    {
        out.push(acc[i]);
        i = i + 1;
    }
    proof {
        assert(acc@.subrange(0, acc.len() as int) =~= acc@);
        lemma_mag(n, mag);
        if neg {
            assert(start =~= seq!['-']);
        } else {
            assert(start =~= Seq::<char>::empty());
            assert(out@ =~= acc@);
        }
    }
    string_of(out.as_slice())
}

proof fn lemma_mag(n: i64, mag: u64)
    requires
        n < 0 ==> mag as int == -(n as int),
        n >= 0 ==> mag as int == n as int,
    ensures
        spec_i64_decimal(n as int) == if n < 0 {
            seq!['-'] + nat_digits(mag as nat)
        } else {
            nat_digits(mag as nat)
        },
{
}

/// Whether a character is an ASCII digit.
pub open spec fn is_digit(c: char) -> bool {
    '0' <= c && c <= '9'
}

/// The value of a string of decimal digits (most significant first).
pub open spec fn digits_value(s: Seq<char>) -> int
    decreases s.len(),
{
    if s.len() == 0 {
        0
    } else {
        10 * digits_value(s.drop_last()) + (s.last() as int - 48)
    }
}

/// The text after an optional leading `+` or `-`.
pub open spec fn unsigned_part(s: Seq<char>) -> Seq<char> {
    if s.len() > 0 && (s[0] == '-' || s[0] == '+') {
        s.drop_first()
    } else {
        s
    }
}

/// Whether every character is an ASCII digit.
pub open spec fn all_digit_chars(s: Seq<char>) -> bool {
    forall|i: int| 0 <= i < s.len() ==> is_digit(#[trigger] s[i])
}

/// What `str::parse::<i64>` gives: an optional `+` or `-`, then at least one
/// decimal digit and nothing else, with a value that fits in an `i64`.
pub open spec fn spec_parse_i64(s: Seq<char>) -> Option<i64> {
    let body = unsigned_part(s);
    let value = if s.len() > 0 && s[0] == '-' {
        -digits_value(body)
    } else {
        digits_value(body)
    };
    if body.len() > 0 && all_digit_chars(body) && i64::MIN <= value <= i64::MAX {
        Some(value as i64)
    } else {
        None
    }
}

proof fn lemma_digits_step(s: Seq<char>, a: int, i: int)
    requires
        0 <= a <= i < s.len(),
    ensures
        digits_value(s.subrange(a, i + 1)) == 10 * digits_value(s.subrange(a, i)) + (s[i] as int
            - 48),
{
    assert(s.subrange(a, i + 1).drop_last() =~= s.subrange(a, i));
}

/// `s.parse::<i64>().ok()`.
pub fn parse_i64(s: &str) -> (r: Option<i64>)
    ensures
        r == spec_parse_i64(s@),
{
    let v = chars_of(s);
    let n = v.len();
    if n == 0 {
        return None;
    }
    let neg = v[0] == '-';
    let start: usize = if v[0] == '-' || v[0] == '+' {
        1
    } else {
        0
    };
    let ghost body = v@.subrange(start as int, n as int);
    proof {
        if start == 1 {
            assert(body =~= v@.drop_first());
        } else {
            assert(body =~= v@);
        }
        assert(body == unsigned_part(s@));
    }
    if start == n {
        return None;
    }
    let limit: u128 = 9223372036854775808u128;
    let mut acc: u128 = 0;
    let mut over = false;
    let mut i: usize = start;
    assert(v@.subrange(start as int, start as int) =~= Seq::<char>::empty());
    while i < n
        invariant
            n == v.len(),
            start <= i <= n,
            body == v@.subrange(start as int, n as int),
            body == unsigned_part(s@),
            v@ == s@,
            start == 0 || start == 1,
            neg == (v@[0] == '-'),
            start == 1 <==> (v@[0] == '-' || v@[0] == '+'),
            forall|k: int| start <= k < i ==> is_digit(#[trigger] v@[k]),
            !over ==> acc == digits_value(v@.subrange(start as int, i as int)) && acc <= limit,
            over ==> digits_value(v@.subrange(start as int, i as int)) > limit,
            digits_value(v@.subrange(start as int, i as int)) >= 0,
            limit == 9223372036854775808u128,
        decreases n - i,
    {
        let c = v[i];
        if !('0' <= c && c <= '9') {
            proof {
                let j = i - start;
                assert(body[j] == v@[i as int]);
                assert(!is_digit(body[j]));
                assert(!all_digit_chars(body));
            }
            return None;
        }
        let d = (c as u32 - 48) as u128;
        proof {
            lemma_digits_step(v@, start as int, i as int);
        }
        if !over {
            let next = acc * 10 + d;
            if next > limit {
                over = true;
            } else {
                acc = next;
            }
        }
        i = i + 1;
    }
    assert(forall|k: int| 0 <= k < body.len() ==> #[trigger] body[k] == v@[k + start]);
    assert(all_digit_chars(body));
    assert(v@.subrange(start as int, n as int) == body);
    if over {
        return None;
    }
    if neg {
        if acc == limit {
            Some(i64::MIN)
        } else {
            let a = acc as i64;
            Some(-a)
        }
    } else if acc > 9223372036854775807u128 {
        None
    } else {
        Some(acc as i64)
    }
}

} // verus!
