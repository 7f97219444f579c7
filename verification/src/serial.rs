//! Decimal formatting and parsing for the vocabulary file format, with
//! the round-trip law proved.

use vstd::prelude::*;
use crate::push_char;

verus! {

pub open spec fn digit_char(d: int) -> char {
    (((48 + d) as u8) as char)
}

pub open spec fn is_digit(c: char) -> bool {
    '0' <= c && c <= '9'
}

pub open spec fn digit_val(c: char) -> int {
    (c as u32) - 48
}

/// The decimal digits of `n`, most significant first, no leading zeros.
pub open spec fn dec_digits(n: int) -> Seq<char>
    decreases n,
{
    if n < 10 {
        seq![digit_char(if n >= 0 {
            n % 10
        } else {
            0
        })]
    } else {
        dec_digits(n / 10).push(digit_char(n % 10))
    }
}

/// Parse an unsigned decimal numeral: every character a digit, the value
/// within `u64` range.
pub open spec fn parse_dec(s: Seq<char>) -> Option<u64>
    decreases s.len(),
{
    if s.len() == 0 {
        None
    } else if !is_digit(s.last()) {
        None
    } else if s.len() == 1 {
        Some(digit_val(s.last()) as u64)
    } else {
        match parse_dec(s.drop_last()) {
            None => None,
            Some(a) => {
                if a * 10 + digit_val(s.last()) > u64::MAX {
                    None
                } else {
                    Some((a * 10 + digit_val(s.last())) as u64)
                }
            },
        }
    }
}

/// A signed decimal numeral: a minus sign for negative values.
pub open spec fn dec_signed(v: int) -> Seq<char> {
    if v < 0 {
        seq!['-'] + dec_digits(-v)
    } else {
        dec_digits(v)
    }
}

/// Parse a signed decimal numeral into `i64` range.
pub open spec fn parse_dec_signed(s: Seq<char>) -> Option<i64> {
    if s.len() >= 1 && s[0] == '-' {
        match parse_dec(s.skip(1)) {
            None => None,
            Some(v) => {
                if v > 0x8000_0000_0000_0000u64 {
                    None
                } else if v == 0x8000_0000_0000_0000u64 {
                    Some(i64::MIN)
                } else {
                    Some((-(v as int)) as i64)
                }
            },
        }
    } else {
        match parse_dec(s) {
            None => None,
            Some(v) => {
                if v > i64::MAX as u64 {
                    None
                } else {
                    Some(v as i64)
                }
            },
        }
    }
}

/// Format an unsigned value in decimal.
pub fn fmt_u64(n: u64) -> (r: String)
    ensures
        r@ == dec_digits(n as int),
    decreases n,
{
    if n < 10 {
        let mut s = String::new();
        push_char(&mut s, (48 + (n as u8)) as char);
        proof {
            assert(s@ =~= dec_digits(n as int));
        }
        s
    } else {
        let mut s = fmt_u64(n / 10);
        push_char(&mut s, (48 + ((n % 10) as u8)) as char);
        s
    }
}

/// Format a signed value in decimal.
pub fn fmt_i64(v: i64) -> (r: String)
    ensures
        r@ == dec_signed(v as int),
{
    if v >= 0 {
        fmt_u64(v as u64)
    } else {
        let m: u64 = ((-(v as i128)) as u64);
        let digits = fmt_u64(m);
        let mut s = String::new();
        push_char(&mut s, '-');
        let mut i: usize = 0;
        let ghost d = digits@;
        let n = digits.as_str().unicode_len();
        for i in 0..n
            invariant
                n == d.len(),
                d == digits@,
                s@ =~= seq!['-'] + d.subrange(0, i as int),
        {
            let c = digits.as_str().get_char(i);
            push_char(&mut s, c);
            proof {
                assert(s@ =~= seq!['-'] + d.subrange(0, i + 1));
            }
        }
        proof {
            assert(d.subrange(0, d.len() as int) =~= d);
            assert(s@ =~= dec_signed(v as int));
        }
        s
    }
}

/// Parse an unsigned decimal numeral.
pub fn parse_u64(s: &String) -> (r: Option<u64>)
    ensures
        r == parse_dec(s@),
{
    let n = s.as_str().unicode_len();
    if n == 0 {
        return None;
    }
    let mut acc: u64 = 0;
    for i in 0..n
        invariant
            n == s@.len(),
            1 <= n,
            parse_dec(s@.subrange(0, i as int)) == if i == 0 {
                None::<u64>
            } else {
                Some(acc)
            },
    {
        let c = s.as_str().get_char(i);
        if !('0' <= c && c <= '9') {
            proof {
                lemma_parse_bad_digit(s@, i as int);
            }
            return None;
        }
        let d: u64 = ((c as u32) - 48) as u64;
        let wide: u128 = (acc as u128) * 10 + (d as u128);
        if i > 0 && wide > u64::MAX as u128 {
            proof {
                lemma_parse_overflow(s@, i as int, acc);
            }
            return None;
        }
        acc = if i == 0 {
            d
        } else {
            (wide as u64)
        };
        proof {
            let pre = s@.subrange(0, i + 1);
            assert(pre.drop_last() =~= s@.subrange(0, i as int));
            assert(pre.last() == s@[i as int]);
        }
    }
    proof {
        assert(s@.subrange(0, s@.len() as int) =~= s@);
    }
    Some(acc)
}

/// Parse a signed decimal numeral.
pub fn parse_i64(s: &String) -> (r: Option<i64>)
    ensures
        r == parse_dec_signed(s@),
{
    let n = s.as_str().unicode_len();
    if n >= 1 && s.as_str().get_char(0) == '-' {
        let rest = s.as_str().substring_char(1, n).to_owned();
        proof {
            assert(rest@ =~= s@.skip(1));
        }
        match parse_u64(&rest) {
            None => None,
            Some(v) => {
                if v > 0x8000_0000_0000_0000u64 {
                    None
                } else if v == 0x8000_0000_0000_0000u64 {
                    Some(i64::MIN)
                } else {
                    Some(-(v as i64))
                }
            },
        }
    } else {
        match parse_u64(s) {
            None => None,
            Some(v) => {
                if v > i64::MAX as u64 {
                    None
                } else {
                    Some(v as i64)
                }
            },
        }
    }
}

/// A numeral stops parsing at a non-digit.
proof fn lemma_parse_bad_digit(s: Seq<char>, i: int)
    requires
        0 <= i < s.len(),
        !is_digit(s[i]),
    ensures
        forall|j: int| i < j <= s.len() ==> parse_dec(s.subrange(0, j)) is None,
    decreases s.len(),
{
    assert forall|j: int| i < j <= s.len() implies parse_dec(s.subrange(0, j)) is None by {
        lemma_parse_bad_digit_one(s, i, j);
    }
}

proof fn lemma_parse_bad_digit_one(s: Seq<char>, i: int, j: int)
    requires
        0 <= i < s.len(),
        !is_digit(s[i]),
        i < j <= s.len(),
    ensures
        parse_dec(s.subrange(0, j)) is None,
    decreases j,
{
    let pre = s.subrange(0, j);
    if j == i + 1 {
        assert(pre.last() == s[i]);
    } else {
        lemma_parse_bad_digit_one(s, i, j - 1);
        assert(pre.drop_last() =~= s.subrange(0, j - 1));
    }
}

/// Once a prefix overflows, every longer prefix stays unparseable.
proof fn lemma_parse_overflow(s: Seq<char>, i: int, acc: u64)
    requires
        0 < i < s.len(),
        parse_dec(s.subrange(0, i)) == Some(acc),
        is_digit(s[i]),
        acc * 10 + digit_val(s[i]) > u64::MAX,
    ensures
        forall|j: int| i < j <= s.len() ==> parse_dec(s.subrange(0, j)) is None,
{
    assert forall|j: int| i < j <= s.len() implies parse_dec(s.subrange(0, j)) is None by {
        lemma_parse_overflow_one(s, i, acc, j);
    }
}

proof fn lemma_parse_overflow_one(s: Seq<char>, i: int, acc: u64, j: int)
    requires
        0 < i < s.len(),
        parse_dec(s.subrange(0, i)) == Some(acc),
        is_digit(s[i]),
        acc * 10 + digit_val(s[i]) > u64::MAX,
        i < j <= s.len(),
    ensures
        parse_dec(s.subrange(0, j)) is None,
    decreases j,
{
    let pre = s.subrange(0, j);
    if j == i + 1 {
        assert(pre.drop_last() =~= s.subrange(0, i));
        assert(pre.last() == s[i]);
    } else {
        lemma_parse_overflow_one(s, i, acc, j - 1);
        assert(pre.drop_last() =~= s.subrange(0, j - 1));
    }
}

/// The round-trip law for unsigned numerals: parsing what was formatted
/// gives the value back.
pub proof fn lemma_dec_roundtrip(n: u64)
    ensures
        parse_dec(dec_digits(n as int)) == Some(n),
    decreases n,
{
    if n < 10 {
    } else {
        lemma_dec_roundtrip(n / 10);
        let s = dec_digits(n as int);
        assert(s.drop_last() =~= dec_digits(n as int / 10));
        assert((n / 10) * 10 + n % 10 == n);
    }
}

/// The round-trip law for signed numerals.
pub proof fn lemma_dec_signed_roundtrip(v: i64)
    ensures
        parse_dec_signed(dec_signed(v as int)) == Some(v),
{
    if v >= 0 {
        lemma_dec_roundtrip(v as u64);
        let s = dec_signed(v as int);
        if s.len() >= 1 && s[0] == '-' {
            lemma_dec_digits_first(v as int);
            assert(false);
        }
    } else {
        let m = -(v as int);
        lemma_dec_roundtrip(m as u64);
        let s = dec_signed(v as int);
        assert(s.skip(1) =~= dec_digits(m));
    }
}

/// Formatted numerals are nonempty and start with a digit, never a sign.
pub proof fn lemma_dec_digits_first(n: int)
    requires
        n >= 0,
    ensures
        dec_digits(n).len() >= 1,
        '0' <= dec_digits(n)[0] && dec_digits(n)[0] <= '9',
    decreases n,
{
    if n >= 10 {
        lemma_dec_digits_first(n / 10);
        assert(dec_digits(n)[0] == dec_digits(n / 10)[0]);
    }
}

} // verus!
