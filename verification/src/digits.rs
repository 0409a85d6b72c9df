//! Decimal numerals: reading an unsigned number from text and writing one
//! back out.  Numeric tokens and times are parsed and printed through these
//! functions.

use vstd::prelude::*;
use vstd::string::*;

verus! {

/// A decimal digit.
pub open spec fn is_digit(c: char) -> bool {
    '0' <= c && c <= '9'
}

/// The numeric value of one decimal digit.
pub open spec fn digit_val(c: char) -> int
    recommends
        is_digit(c),
{
    c as int - '0' as int
}

/// Every character of the sequence is a decimal digit.
pub open spec fn all_digits(s: Seq<char>) -> bool {
    forall|i: int| 0 <= i < s.len() ==> is_digit(#[trigger] s[i])
}

/// The number denoted by a sequence of decimal digits, most significant
/// digit first.
pub open spec fn dec_value(s: Seq<char>) -> int
    decreases s.len(),
{
    if s.len() == 0 {
        0
    } else {
        dec_value(s.drop_last()) * 10 + digit_val(s.last())
    }
}

/// The digits of a numeral, ignoring one optional leading `+` sign, as
/// `u32::from_str` accepts it.
pub open spec fn numeral_body(s: Seq<char>) -> Seq<char> {
    if s.len() > 0 && s[0] == '+' {
        s.drop_first()
    } else {
        s
    }
}

/// A numeral is well formed when its body is non-empty and all digits.
pub open spec fn is_numeral(s: Seq<char>) -> bool {
    numeral_body(s).len() > 0 && all_digits(numeral_body(s))
}

/// The value of a well-formed numeral.
pub open spec fn numeral_value(s: Seq<char>) -> int
    recommends
        is_numeral(s),
{
    dec_value(numeral_body(s))
}

/// The digits of a signed numeral, ignoring one optional leading sign,
/// as `i32::from_str` accepts it.
pub open spec fn int_numeral_body(s: Seq<char>) -> Seq<char> {
    if s.len() > 0 && (s[0] == '+' || s[0] == '-') {
        s.drop_first()
    } else {
        s
    }
}

/// Whether the numeral denotes a negative number.
pub open spec fn int_numeral_neg(s: Seq<char>) -> bool {
    s.len() > 0 && s[0] == '-'
}

/// A signed numeral is well formed when its body is non-empty and all
/// digits.
pub open spec fn is_int_numeral(s: Seq<char>) -> bool {
    int_numeral_body(s).len() > 0 && all_digits(int_numeral_body(s))
}

/// The value of a well-formed signed numeral.
pub open spec fn int_numeral_value(s: Seq<char>) -> int
    recommends
        is_int_numeral(s),
{
    if int_numeral_neg(s) {
        -dec_value(int_numeral_body(s))
    } else {
        dec_value(int_numeral_body(s))
    }
}

/// The character for one decimal digit.
pub open spec fn digit_char(n: int) -> char
    recommends
        0 <= n <= 9,
{
    if n == 0 {
        '0'
    } else if n == 1 {
        '1'
    } else if n == 2 {
        '2'
    } else if n == 3 {
        '3'
    } else if n == 4 {
        '4'
    } else if n == 5 {
        '5'
    } else if n == 6 {
        '6'
    } else if n == 7 {
        '7'
    } else if n == 8 {
        '8'
    } else {
        '9'
    }
}

/// The decimal digits of a nonnegative number, most significant first.
pub open spec fn dec_digits(n: int) -> Seq<char>
    recommends
        n >= 0,
    decreases n,
{
    if n < 10 {
        seq![digit_char(n)]
    } else {
        dec_digits(n / 10) + seq![digit_char(n % 10)]
    }
}

/// The decimal digits, padded on the left with `0` to at least two
/// places, as clock times are written.
pub open spec fn dec_padded2(n: int) -> Seq<char>
    recommends
        n >= 0,
{
    if n < 10 {
        seq!['0'] + dec_digits(n)
    } else {
        dec_digits(n)
    }
}

/// The text of a signed number: a minus sign for negative values, then
/// the decimal digits.
pub open spec fn spec_i32_text(n: int) -> Seq<char> {
    if n < 0 {
        seq!['-'] + dec_digits(-n)
    } else {
        dec_digits(n)
    }
}

proof fn lemma_dec_value_nonneg(s: Seq<char>)
    requires
        all_digits(s),
    ensures
        dec_value(s) >= 0,
    decreases s.len(),
{
    if s.len() > 0 {
        assert(all_digits(s.drop_last()));
        lemma_dec_value_nonneg(s.drop_last());
    }
}

/// Extending a digit string on the right never shrinks its value.
proof fn lemma_dec_value_prefix_le(s: Seq<char>, i: int)
    requires
        all_digits(s),
        0 <= i <= s.len(),
    ensures
        dec_value(s.subrange(0, i)) <= dec_value(s),
    decreases s.len() - i,
{
    if i < s.len() {
        let t = s.subrange(0, i + 1);
        assert(t.drop_last() =~= s.subrange(0, i));
        assert(all_digits(t.drop_last()));
        lemma_dec_value_nonneg(t.drop_last());
        assert(dec_value(t) == dec_value(s.subrange(0, i)) * 10 + digit_val(s[i]));
        lemma_dec_value_prefix_le(s, i + 1);
        assert(s.subrange(0, s.len() as int) =~= s);
    } else {
        assert(s.subrange(0, i) =~= s);
    }
}

/// Reads an unsigned decimal numeral, as `u32::from_str` does: an optional
/// `+` sign, then at least one digit, and the value must fit in `u32`.
pub fn parse_u32(s: &str) -> (r: Option<u32>)
    ensures
        match r {
            Some(v) => is_numeral(s@) && numeral_value(s@) == v,
            None => !(is_numeral(s@) && numeral_value(s@) <= u32::MAX),
        },
{
    let len = s.unicode_len();
    let mut i: usize = 0;
    if len > 0 && s.get_char(0) == '+' {
        i = 1;
    }
    let ghost body = numeral_body(s@);
    let ghost start = i as int;
    assert(body =~= s@.subrange(start, s@.len() as int));
    if i >= len {
        return None;
    }
    let mut acc: u32 = 0;
    while i < len
        invariant
            0 <= start <= i as int <= len,
            len == s@.len(),
            start < len,
            body == numeral_body(s@),
            body =~= s@.subrange(start, s@.len() as int),
            all_digits(s@.subrange(start, i as int)),
            acc == dec_value(s@.subrange(start, i as int)),
        decreases len - i,
    {
        let c = s.get_char(i);
        if c < '0' || c > '9' {
            proof {
                assert(body[i as int - start] == s@[i as int]);
                assert(!is_digit(body[i as int - start]));
            }
            return None;
        }
        let d: u32 = (c as u32) - 48;
        proof {
            let pre = s@.subrange(start, i as int);
            let ext = s@.subrange(start, i as int + 1);
            assert(ext.drop_last() =~= pre);
            assert(ext.last() == s@[i as int]);
            assert(dec_value(ext) == acc * 10 + d);
        }
        if acc > u32::MAX / 10 || d > u32::MAX - (acc * 10) {
            proof {
                if all_digits(body) {
                    lemma_dec_value_prefix_le(body, i as int + 1 - start);
                    assert(body.subrange(0, i as int + 1 - start) =~= s@.subrange(
                        start,
                        i as int + 1,
                    ));
                }
            }
            return None;
        }
        acc = acc * 10 + d;
        i = i + 1;
    }
    proof {
        assert(s@.subrange(start, len as int) =~= body);
    }
    Some(acc)
}

/// Reads a signed decimal numeral, as `i32::from_str` does: an optional
/// sign, then at least one digit, and the value must fit in `i32`.
pub fn parse_i32(s: &str) -> (r: Option<i32>)
    ensures
        match r {
            Some(v) => is_int_numeral(s@) && int_numeral_value(s@) == v,
            None => !(is_int_numeral(s@) && i32::MIN <= int_numeral_value(s@) <= i32::MAX),
        },
{
    let len = s.unicode_len();
    if len == 0 {
        return None;
    }
    let c0 = s.get_char(0);
    let neg = c0 == '-';
    let rest = if c0 == '-' || c0 == '+' {
        s.substring_char(1, len)
    } else {
        s
    };
    proof {
        assert(int_numeral_body(s@) =~= rest@);
    }
    if rest.unicode_len() > 0 && rest.get_char(0) == '+' {
        return None;
    }
    proof {
        assert(numeral_body(rest@) =~= rest@);
    }
    match parse_u32(rest) {
        None => None,
        Some(v) => {
            if neg {
                if v > 2_147_483_648 {
                    None
                } else {
                    Some((-(v as i64)) as i32)
                }
            } else {
                if v > 2_147_483_647 {
                    None
                } else {
                    Some(v as i32)
                }
            }
        },
    }
}

/// The text of one decimal digit.
fn digit_str(d: u32) -> (r: &'static str)
    requires
        d <= 9,
    ensures
        r@ == seq![digit_char(d as int)],
{
    proof {
        reveal_strlit("0");
        reveal_strlit("1");
        reveal_strlit("2");
        reveal_strlit("3");
        reveal_strlit("4");
        reveal_strlit("5");
        reveal_strlit("6");
        reveal_strlit("7");
        reveal_strlit("8");
        reveal_strlit("9");
    }
    let r = if d == 0 {
        "0"
    } else if d == 1 {
        "1"
    } else if d == 2 {
        "2"
    } else if d == 3 {
        "3"
    } else if d == 4 {
        "4"
    } else if d == 5 {
        "5"
    } else if d == 6 {
        "6"
    } else if d == 7 {
        "7"
    } else if d == 8 {
        "8"
    } else {
        "9"
    };
    proof {
        assert(r@ =~= seq![digit_char(d as int)]);
    }
    r
}

/// Appends the decimal digits of `n` to the string.
pub fn push_decimal(n: u32, out: &mut String)
    ensures
        final(out)@ == old(out)@ + dec_digits(n as int),
    decreases n,
{
    if n >= 10 {
        push_decimal(n / 10, out);
        out.append(digit_str(n % 10));
        proof {
            assert(old(out)@ + dec_digits(n as int / 10) + seq![digit_char(n as int % 10)]
                =~= old(out)@ + (dec_digits(n as int / 10) + seq![digit_char(n as int % 10)]));
        }
    } else {
        out.append(digit_str(n));
    }
}

/// Appends the decimal digits of `n`, left-padded with `0` to at least
/// two places.
pub fn push_padded2(n: u32, out: &mut String)
    ensures
        final(out)@ == old(out)@ + dec_padded2(n as int),
    decreases n,
{
    if n < 10 {
        out.append(digit_str(0));
        out.append(digit_str(n));
        proof {
            assert(old(out)@ + seq![digit_char(0)] + seq![digit_char(n as int)] =~= old(out)@ + (
            seq!['0'] + dec_digits(n as int)));
            assert(seq![digit_char(0)] =~= seq!['0']);
        }
    } else {
        push_decimal(n, out);
    }
}

/// Appends the text of a signed number.
pub fn push_i32(n: i32, out: &mut String)
    ensures
        final(out)@ == old(out)@ + spec_i32_text(n as int),
{
    if n < 0 {
        proof {
            reveal_strlit("-");
            assert("-"@ =~= seq!['-']);
        }
        out.append("-");
        let m: i64 = -(n as i64);
        push_decimal(m as u32, out);
        proof {
            assert(old(out)@ + seq!['-'] + dec_digits(-(n as int)) =~= old(out)@ + (seq!['-']
                + dec_digits(-(n as int))));
        }
    } else {
        push_decimal(n as u32, out);
    }
}

} // verus!
