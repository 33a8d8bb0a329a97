//! Decimal text for the store's numeric values: rendering is specified
//! digit by digit, parsing accepts exactly the canonical renderings
//! that fit, and the two compose to the identity.

use vstd::prelude::*;

verus! {

use crate::num::{mag, abs_u64};

/// Decimal digit bytes of a nonnegative number, most significant
/// first.
pub open spec fn dec_bytes(n: int) -> Seq<u8>
    decreases n,
{
    if n < 10 {
        seq![(48 + n) as u8]
    } else {
        dec_bytes(n / 10) + seq![(48 + n % 10) as u8]
    }
}

/// ASCII bytes read as characters.
pub open spec fn ascii_chars(bs: Seq<u8>) -> Seq<char> {
    bs.map_values(|b: u8| b as char)
}

/// The canonical decimal text of a signed number.
pub open spec fn dec_string(v: int) -> Seq<char> {
    if v < 0 {
        ascii_chars(seq![45u8] + dec_bytes(-v))
    } else {
        ascii_chars(dec_bytes(v))
    }
}

/// Value of a digit string, most significant first.
pub open spec fn digits_value(s: Seq<char>) -> int
    decreases s.len(),
{
    if s.len() == 0 {
        0
    } else {
        digits_value(s.drop_last()) * 10 + (s.last() as int - 48)
    }
}

/// A nonempty string of decimal digits.
pub open spec fn is_digits(s: Seq<char>) -> bool {
    s.len() > 0 && forall|i: int| 0 <= i < s.len() ==> 48 <= (#[trigger] s[i]) as int <= 57
}

/// A digit string with no redundant leading zero.
pub open spec fn canonical_digits(s: Seq<char>) -> bool {
    is_digits(s) && (s.len() == 1 || s[0] != '0')
}

/// Exactly the strings the parser accepts: the canonical rendering of
/// some value in the 64-bit signed range.
pub open spec fn parse_ok(s: Seq<char>) -> bool {
    if s.len() > 0 && s[0] == '-' {
        &&& canonical_digits(s.skip(1))
        &&& digits_value(s.skip(1)) > 0
        &&& digits_value(s.skip(1)) <= 0x8000_0000_0000_0000
    } else {
        &&& canonical_digits(s)
        &&& digits_value(s) <= i64::MAX
    }
}

/// The value the parser accepts a string as.
pub open spec fn parse_value(s: Seq<char>) -> int {
    if s.len() > 0 && s[0] == '-' {
        -digits_value(s.skip(1))
    } else {
        digits_value(s)
    }
}

/// Relies on `String::from_utf8`: ASCII bytes decode to exactly those
/// characters, one each.
#[verifier::external_body]
fn ascii_string(bytes: Vec<u8>) -> (s: String)
    requires
        forall|i: int| 0 <= i < bytes@.len() ==> bytes@[i] < 128,
    ensures
        s@ == ascii_chars(bytes@),
{
    String::from_utf8(bytes).unwrap_or_default()
}

/// Every byte of a decimal rendering is an ASCII digit.
proof fn lemma_dec_bytes_ascii(n: int)
    requires
        n >= 0,
    ensures
        forall|i: int| 0 <= i < dec_bytes(n).len() ==> 48 <= (#[trigger] dec_bytes(n)[i]) <= 57,
        dec_bytes(n).len() > 0,
    decreases n,
{
    if n >= 10 {
        lemma_dec_bytes_ascii(n / 10);
        vstd::arithmetic::div_mod::lemma_mod_bound(n, 10);
        vstd::arithmetic::div_mod::lemma_div_pos_is_pos(n, 10);
    }
}

/// Append the decimal digits of `n` to `out`.
fn render_u64_into(n: u64, out: &mut Vec<u8>)
    ensures
        final(out)@ == old(out)@ + dec_bytes(n as int),
    decreases n,
{
    if n >= 10 {
        render_u64_into(n / 10, out);
    }
    let d = (n % 10) as u8 + 48;
    out.push(d);
    proof {
        if n >= 10 {
            assert(out@ == old(out)@ + dec_bytes(n as int / 10) + seq![(48 + n as int % 10) as u8]);

            assert(dec_bytes(n as int) == dec_bytes(n as int / 10) + seq![
                (48 + n as int % 10) as u8,
            ]);
            assert(out@ == old(out)@ + dec_bytes(n as int)) by {
                assert(out@ =~= old(out)@ + dec_bytes(n as int));
            }
        } else {
            assert(out@ =~= old(out)@ + dec_bytes(n as int));
        }
    }
}

/// The canonical decimal text of a value.
pub fn render_i64(v: i64) -> (s: String)
    ensures
        s@ == dec_string(v as int),
{
    let mut bytes: Vec<u8> = Vec::new();
    if v < 0 {
        bytes.push(45u8);
    }
    let m = abs_u64(v);
    render_u64_into(m, &mut bytes);
    proof {
        lemma_dec_bytes_ascii(m as int);
        if v < 0 {
            assert(bytes@ =~= seq![45u8] + dec_bytes(m as int));
        } else {
            assert(bytes@ =~= dec_bytes(m as int));
        }
    }
    ascii_string(bytes)
}

/// Parse the canonical decimal text of a 64-bit signed value; any other
/// string — empty, malformed, redundantly written or out of range — is
/// rejected.
pub fn parse_i64(s: &str) -> (r: Option<i64>)
    ensures
        match r {
            Some(v) => parse_ok(s@) && v as int == parse_value(s@),
            None => !parse_ok(s@),
        },
{
    if !s.is_ascii() {
        proof {
            assert(!parse_ok(s@)) by {
                if parse_ok(s@) {
                    assert forall|i: int| 0 <= i < s@.len() implies '\0' <= #[trigger] s@[i]
                        <= '\u{7f}' by {
                        if s@.len() > 0 && s@[0] == '-' {
                            if i > 0 {
                                assert(48 <= s@.skip(1)[i - 1] as int <= 57);
                            }
                        } else {
                            assert(48 <= s@[i] as int <= 57);
                        }
                    }
                    assert(vstd::utf8::is_ascii_chars(s@));
                }
            }
        }
        return None;
    }
    proof {
        vstd::string::is_ascii_spec_bytes(s);
    }
    let bytes = s.as_bytes();
    let n = bytes.len();
    if n == 0 {
        return None;
    }
    let negative = bytes[0] == 45;
    let start: usize = if negative {
        1
    } else {
        0
    };
    let ghost d: Seq<char> = if negative {
        s@.skip(1)
    } else {
        s@
    };
    proof {
        assert(forall|j: int| 0 <= j < d.len() ==> #[trigger] d[j] == s@[j + start]);
    }
    if n == start {
        return None;
    }
    if bytes[start] == 48 && n - start > 1 {
        return None;
    }
    let mut acc: u64 = 0;
    let mut i: usize = start;
    while i < n
        invariant
            s@.len() == n,
            bytes@.len() == n,
            vstd::utf8::is_ascii_chars(s@),
            forall|j: int| 0 <= j < n ==> #[trigger] bytes@[j] == s@[j] as u8,
            start <= i <= n,
            start <= 1,
            negative ==> start == 1 && s@[0] == '-',
            !negative ==> start == 0 && (s@.len() == 0 || s@[0] != '-'),
            d == (if negative {
                s@.skip(1)
            } else {
                s@
            }),
            forall|j: int| 0 <= j < i - start ==> 48 <= (#[trigger] d[j]) as int <= 57,
            acc as int == digits_value(d.take(i - start)),
        decreases n - i,
    {
        let b = bytes[i];
        proof {
            assert(bytes@[i as int] == s@[i as int] as u8);
            assert(d[i - start] == s@[i as int]);
            assert(s@[i as int] <= '\u{7f}');
            assert(s@[i as int] as int == (s@[i as int] as u8) as int);
        }
        if b < 48 || b > 57 {
            proof {
                lemma_not_parse_ok_bad_digit(s@, d, negative, i - start);
            }
            return None;
        }
        if acc > 1_844_674_407_370_955_160u64 {
            proof {
                lemma_not_parse_ok_overflow(s@, d, negative, i - start, acc as int,
                    b as int - 48);
            }
            return None;
        }
        let dv = (b - 48) as u64;
        acc = acc * 10 + dv;
        i = i + 1;
        proof {
            let t = d.take(i - start);
            assert(t.drop_last() =~= d.take(i - start - 1));
            assert(t.last() == d[i - start - 1]);
        }
    }
    proof {
        assert(d.take(n - start) =~= d);
        lemma_digits_value_nonneg(d);
        assert(d.len() > 0);
        assert(d[0] == s@[start as int]);
        assert(s@[start as int] as int == (s@[start as int] as u8) as int);
        assert(d.len() == 1 || d[0] != '0');
        assert(canonical_digits(d));
    }
    if negative {
        if acc == 0 {
            return None;
        }
        if acc > 0x8000_0000_0000_0000u64 {
            return None;
        }
        if acc == 0x8000_0000_0000_0000u64 {
            return Some(i64::MIN);
        }
        Some(-(acc as i64))
    } else {
        if acc > i64::MAX as u64 {
            return None;
        }
        Some(acc as i64)
    }
}

/// A string with a non-digit where the parser expects digits is not a
/// canonical decimal.
proof fn lemma_not_parse_ok_bad_digit(s: Seq<char>, d: Seq<char>, negative: bool, j: int)
    requires
        negative ==> s.len() > 0 && s[0] == '-' && d == s.skip(1),
        !negative ==> d == s && (s.len() == 0 || s[0] != '-'),
        0 <= j < d.len(),
        !(48 <= d[j] as int <= 57),
    ensures
        !parse_ok(s),
{
    if parse_ok(s) {
        if s.len() > 0 && s[0] == '-' {
            assert(48 <= s.skip(1)[j] as int <= 57);
        } else {
            assert(48 <= s[j] as int <= 57);
        }
    }
}

/// A digit string whose prefix value already exceeds the accumulator
/// bound is out of the 64-bit range.
proof fn lemma_not_parse_ok_overflow(
    s: Seq<char>,
    d: Seq<char>,
    negative: bool,
    j: int,
    acc: int,
    dv: int,
)
    requires
        negative ==> s.len() > 0 && s[0] == '-' && d == s.skip(1),
        !negative ==> d == s && (s.len() == 0 || s[0] != '-'),
        0 <= j < d.len(),
        acc == digits_value(d.take(j)),
        acc > 1_844_674_407_370_955_160,
        0 <= dv <= 9,
        dv == d[j] as int - 48,
    ensures
        !parse_ok(s),
{
    if parse_ok(s) {
        let digits_ok = if s.len() > 0 && s[0] == '-' {
            canonical_digits(s.skip(1))
        } else {
            canonical_digits(s)
        };
        assert(digits_ok);
        assert(forall|k: int| 0 <= k < d.len() ==> 48 <= (#[trigger] d[k]) as int <= 57);
        let t = d.take(j + 1);
        assert(t.drop_last() =~= d.take(j));
        assert(t.last() == d[j]);
        assert(digits_value(d.take(j + 1)) == acc * 10 + dv);
        assert(acc * 10 >= 1_844_674_407_370_955_161 * 10) by (nonlinear_arith)
            requires
                acc >= 1_844_674_407_370_955_161,
        ;
        lemma_digits_value_prefix(d, j + 1);
        assert(digits_value(d) > 0x8000_0000_0000_0000);
    }
}

/// Digit strings have nonnegative value.
proof fn lemma_digits_value_nonneg(s: Seq<char>)
    requires
        forall|i: int| 0 <= i < s.len() ==> 48 <= (#[trigger] s[i]) as int <= 57,
    ensures
        digits_value(s) >= 0,
    decreases s.len(),
{
    if s.len() > 0 {
        lemma_digits_value_nonneg(s.drop_last());
        vstd::arithmetic::mul::lemma_mul_nonnegative(digits_value(s.drop_last()), 10);
    }
}

/// A digit string's value only grows as digits are appended.
proof fn lemma_digits_value_prefix(s: Seq<char>, j: int)
    requires
        forall|i: int| 0 <= i < s.len() ==> 48 <= (#[trigger] s[i]) as int <= 57,
        0 <= j <= s.len(),
    ensures
        digits_value(s) >= digits_value(s.take(j)),
    decreases s.len() - j,
{
    if j < s.len() {
        lemma_digits_value_prefix(s, j + 1);
        let t = s.take(j + 1);
        assert(t.drop_last() =~= s.take(j));
        lemma_digits_value_nonneg(s.take(j));
        assert(digits_value(s.take(j)) * 10 >= digits_value(s.take(j))) by (nonlinear_arith)
            requires
                digits_value(s.take(j)) >= 0,
        ;
    } else {
        assert(s.take(j) =~= s);
    }
}

/// Rendering is injective into the parser's domain: the canonical text
/// of any 64-bit value parses, and parses back to that value.
pub proof fn lemma_decimal_round_trip(v: int)
    requires
        i64::MIN <= v <= i64::MAX,
    ensures
        parse_ok(dec_string(v)),
        parse_value(dec_string(v)) == v,
{
    let m = mag(v);
    lemma_dec_bytes_ascii(m);
    lemma_dec_chars_value(m);
    lemma_dec_bytes_leading(m);
    let digits = ascii_chars(dec_bytes(m));
    assert(digits.len() == dec_bytes(m).len());
    assert(forall|i: int|
        0 <= i < digits.len() ==> (#[trigger] digits[i]) as int == dec_bytes(m)[i]);
    if v < 0 {
        let s = dec_string(v);
        assert(s == ascii_chars(seq![45u8] + dec_bytes(m)));
        assert(s.len() == 1 + dec_bytes(m).len());
        assert(s[0] == '-');
        assert(s.skip(1) =~= digits);
    } else {
        assert(dec_string(v) == digits);
        assert(dec_string(v)[0] != '-');
    }
}

/// The value of the rendered digits of `n` is `n` itself.
proof fn lemma_dec_chars_value(n: int)
    requires
        n >= 0,
    ensures
        digits_value(ascii_chars(dec_bytes(n))) == n,
        ascii_chars(dec_bytes(n)).len() == dec_bytes(n).len(),
    decreases n,
{
    lemma_dec_bytes_ascii(n);
    if n < 10 {
        let s = ascii_chars(dec_bytes(n));
        assert(s.len() == 1);
        assert(s.drop_last() =~= Seq::<char>::empty());
        assert(dec_bytes(n)[0] == (48 + n) as u8);
        assert(s[0] == ((48 + n) as u8) as char);
        assert(s[0] as int == 48 + n);
        assert(digits_value(s) == digits_value(Seq::<char>::empty()) * 10 + (s[0] as int - 48));
        assert(digits_value(Seq::<char>::empty()) * 10 == 0) by (nonlinear_arith);
    } else {
        lemma_dec_chars_value(n / 10);
        vstd::arithmetic::div_mod::lemma_mod_bound(n, 10);
        let s = ascii_chars(dec_bytes(n));
        let prefix = ascii_chars(dec_bytes(n / 10));
        assert(s.drop_last() =~= prefix);
        assert(dec_bytes(n) == dec_bytes(n / 10) + seq![(48 + n % 10) as u8]);
        assert(dec_bytes(n).last() == (48 + n % 10) as u8);
        assert(s.last() == ((48 + n % 10) as u8) as char);
        assert(s.last() as int == 48 + n % 10);
        assert(digits_value(s) == digits_value(prefix) * 10 + (s.last() as int - 48));
        vstd::arithmetic::div_mod::lemma_fundamental_div_mod(n, 10);
    }
}

/// A rendering never starts with a redundant zero: only zero itself
/// renders with a leading zero digit, and then as a single character.
proof fn lemma_dec_bytes_leading(n: int)
    requires
        n >= 0,
    ensures
        n > 0 ==> dec_bytes(n)[0] != 48,
        dec_bytes(n).len() > 1 ==> n >= 10,
    decreases n,
{
    if n >= 10 {
        lemma_dec_bytes_leading(n / 10);
        vstd::arithmetic::div_mod::lemma_div_pos_is_pos(n, 10);
        lemma_dec_bytes_ascii(n / 10);
        assert(dec_bytes(n)[0] == dec_bytes(n / 10)[0]);
        assert(n / 10 > 0) by {
            vstd::arithmetic::div_mod::lemma_div_non_zero(n, 10);
        }
    }
}

} // verus!