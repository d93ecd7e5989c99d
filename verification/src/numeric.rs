//! Verified conversions between 64-bit integers and their decimal text
//! form, used by the custom field converters (integer parsed from text on
//! decode, integer rendered as text on encode).
use vstd::prelude::*;

verus! {

/// The character for one decimal digit value.
pub open spec fn digit_char(d: int) -> char
    recommends
        0 <= d <= 9,
{
    ((d + 48) as u8) as char
}

/// Whether `c` is a decimal digit.
pub open spec fn is_digit(c: char) -> bool {
    48 <= c as int <= 57
}

/// The numeric value of a digit character.
pub open spec fn digit_val(c: char) -> int {
    c as int - 48
}

/// Whether every character of `s` is a decimal digit.
pub open spec fn all_digits(s: Seq<char>) -> bool {
    forall|i: int| 0 <= i < s.len() ==> is_digit(s[i])
}

/// The value of a digit string read most-significant first.
pub open spec fn digits_val(s: Seq<char>) -> int
    decreases s.len(),
{
    if s.len() == 0 {
        0
    } else {
        digits_val(s.drop_last()) * 10 + digit_val(s.last())
    }
}

/// The decimal digit string of a natural number, without sign and without
/// leading zeros (a single `'0'` for zero).
pub open spec fn dec_digits(n: nat) -> Seq<char>
    decreases n,
{
    if n < 10 {
        seq![digit_char(n as int)]
    } else {
        dec_digits(n / 10).push(digit_char((n % 10) as int))
    }
}

/// The decimal text of an integer: a leading `'-'` for negatives, then the
/// digit string of the magnitude.
pub open spec fn dec_str(v: int) -> Seq<char> {
    if v < 0 {
        seq!['-'] + dec_digits((-v) as nat)
    } else {
        dec_digits(v as nat)
    }
}

/// What parsing text as an `i64` yields: an optional single `'+'` or `'-'`
/// sign, then one or more digits, and the value must fit in an `i64`;
/// anything else is rejected.
pub open spec fn spec_parse_i64(s: Seq<char>) -> Option<i64> {
    let has_sign = s.len() > 0 && (s[0] == '+' || s[0] == '-');
    let digits = if has_sign {
        s.skip(1)
    } else {
        s
    };
    if digits.len() == 0 || !all_digits(digits) {
        None
    } else {
        let v = if has_sign && s[0] == '-' {
            -digits_val(digits)
        } else {
            digits_val(digits)
        };
        if i64::MIN <= v <= i64::MAX {
            Some(v as i64)
        } else {
            None
        }
    }
}

/// A digit string has a nonnegative value.
pub proof fn lemma_digits_val_nonneg(s: Seq<char>)
    requires
        all_digits(s),
    ensures
        digits_val(s) >= 0,
    decreases s.len(),
{
    if s.len() > 0 {
        lemma_digits_val_nonneg(s.drop_last());
    }
}

/// Extending a digit prefix never decreases its value.
pub proof fn lemma_digits_val_monotonic(s: Seq<char>, i: int, j: int)
    requires
        all_digits(s),
        0 <= i <= j <= s.len(),
    ensures
        digits_val(s.take(i)) <= digits_val(s.take(j)),
    decreases j - i,
{
    if i < j {
        lemma_digits_val_monotonic(s, i, j - 1);
        assert(s.take(j).drop_last() =~= s.take(j - 1));
        assert(all_digits(s.take(j - 1)));
        lemma_digits_val_nonneg(s.take(j - 1));
        assert(digits_val(s.take(j)) == digits_val(s.take(j - 1)) * 10 + digit_val(s[j - 1]));
    }
}

/// Parses decimal text as an `i64`, accepting exactly what
/// `spec_parse_i64` accepts.
#[verifier::loop_isolation(false)]
pub fn parse_i64(s: &str) -> (r: Option<i64>)
    ensures
        r == spec_parse_i64(s@),
{
    let n = s.unicode_len();
    if n == 0 {
        return None;
    }
    let first = s.get_char(0);
    let neg = first == '-';
    let has_sign = neg || first == '+';
    let start: usize = if has_sign {
        1
    } else {
        0
    };
    let ghost digits = if has_sign {
        s@.skip(1)
    } else {
        s@
    };
    if start == n {
        return None;
    }
    assert(digits.len() == n - start);
    assert(forall|k: int| 0 <= k < digits.len() ==> digits[k] == s@[k + start]);
    let mut mag: u64 = 0;
    let mut i: usize = start;
    while i < n
        invariant
            start <= i <= n,
            n == s@.len(),
            start == 1 <==> has_sign,
            start == 0 || start == 1,
            digits == if has_sign {
                s@.skip(1)
            } else {
                s@
            },
            digits.len() == n - start,
            forall|k: int| 0 <= k < digits.len() ==> digits[k] == s@[k + start],
            all_digits(digits.take(i - start)),
            mag == digits_val(digits.take(i - start)),
        decreases n - i,
    {
        let c = s.get_char(i);
        let code = c as u32;
        if code < 48 || code > 57 {
            proof {
                assert(digits[i - start] == s@[i as int]);
                assert(!is_digit(digits[i - start]));
            }
            return None;
        }
        let d = (code - 48) as u64;
        let ghost prev = digits.take(i - start);
        let ghost cur = digits.take(i + 1 - start);
        proof {
            assert(cur.drop_last() =~= prev);
            assert(cur.last() == digits[i - start]);
            assert(digits[i - start] == s@[i as int]);
            assert(digits_val(cur) == digits_val(prev) * 10 + digit_val(s@[i as int]));
        }
        let step = match mag.checked_mul(10) {
            Some(m) => m.checked_add(d),
            None => None,
        };
        match step {
            Some(m) => {
                mag = m;
            },
            None => {
                proof {
                    // The value of the digits seen so far already exceeds
                    // `u64::MAX`, so the full value cannot fit in an `i64`
                    // whichever sign applies.
                    if all_digits(digits) {
                        assert(digits_val(cur) > u64::MAX);
                        lemma_digits_val_monotonic(
                            digits,
                            i + 1 - start,
                            digits.len() as int,
                        );
                        assert(digits.take(digits.len() as int) =~= digits);
                        assert(digits_val(digits) > u64::MAX);
                    }
                }
                return None;
            },
        }
        i += 1;
    }
    proof {
        assert(digits.take(n - start) =~= digits);
        assert(all_digits(digits));
        assert(mag == digits_val(digits));
    }
    if neg {
        if mag <= 9223372036854775808u64 {
            let r = (-(mag as i128)) as i64;
            Some(r)
        } else {
            None
        }
    } else {
        if mag <= 9223372036854775807u64 {
            Some(mag as i64)
        } else {
            None
        }
    }
}

/// Relies on std's `String::push`: appends exactly the given character to
/// the end of the string.
#[verifier::external_body]
fn push_char(s: &mut String, c: char)
    ensures
        final(s)@ == old(s)@.push(c),
{
    s.push(c);
}

/// The reverse of a character sequence.
pub open spec fn rev_chars(s: Seq<char>) -> Seq<char> {
    Seq::new(s.len(), |i: int| s[s.len() - 1 - i])
}

/// Renders an integer as decimal text, exactly `dec_str` of its value.
pub fn int_to_decimal(v: i64) -> (r: String)
    ensures
        r@ == dec_str(v as int),
{
    let neg = v < 0;
    let mut mag: u64 = if v >= 0 {
        v as u64
    } else {
        (-(v as i128)) as u64
    };
    let ghost m0 = mag;
    let mut digits: Vec<char> = Vec::new();
    if mag == 0 {
        digits.push('0');
        proof {
            assert(digit_char(0) == '0');
            assert(rev_chars(digits@) =~= dec_digits(0));
        }
    } else {
        while mag > 0
            invariant
                mag >= 0,
                m0 > 0,
                if mag > 0 {
                    dec_digits(m0 as nat) =~= dec_digits(mag as nat) + rev_chars(digits@)
                } else {
                    dec_digits(m0 as nat) =~= rev_chars(digits@)
                },
            decreases mag,
        {
            let d = (mag % 10) as u8;
            let c = (48 + d) as char;
            let ghost old_digits = digits@;
            let ghost old_mag = mag as nat;
            digits.push(c);
            mag = mag / 10;
            proof {
                assert(c == digit_char((old_mag % 10) as int));
                assert(rev_chars(digits@) =~= seq![c] + rev_chars(old_digits));
                if old_mag >= 10 {
                    assert(dec_digits(old_mag) == dec_digits(old_mag / 10).push(
                        digit_char((old_mag % 10) as int),
                    ));
                    assert(dec_digits(old_mag / 10).push(c) + rev_chars(old_digits) =~= dec_digits(
                        old_mag / 10,
                    ) + (seq![c] + rev_chars(old_digits)));
                    assert(dec_digits(m0 as nat) =~= dec_digits((mag as nat)) + rev_chars(
                        digits@,
                    ));
                } else {
                    assert(dec_digits(old_mag) =~= seq![c]);
                    assert(dec_digits(m0 as nat) =~= rev_chars(digits@));
                }
            }
        }
    }
    let ghost prefix: Seq<char> = if neg {
        seq!['-']
    } else {
        Seq::empty()
    };
    let mut out = String::new();
    if neg {
        push_char(&mut out, '-');
    }
    let len = digits.len();
    let mut i: usize = 0;
    while i < len
        invariant
            0 <= i <= len,
            len == digits@.len(),
            out@ =~= prefix + rev_chars(digits@).take(i as int),
        decreases len - i,
    {
        let c = digits[len - 1 - i];
        push_char(&mut out, c);
        proof {
            assert(rev_chars(digits@)[i as int] == c);
            assert(prefix + rev_chars(digits@).take(i + 1) =~= (prefix + rev_chars(
                digits@,
            ).take(i as int)).push(c));
        }
        i += 1;
    }
    proof {
        assert(rev_chars(digits@).take(len as int) =~= rev_chars(digits@));
        assert(out@ =~= prefix + rev_chars(digits@));
        assert(dec_digits(m0 as nat) =~= rev_chars(digits@));
        if neg {
            assert(m0 == -(v as int));
            assert(out@ =~= dec_str(v as int));
        } else {
            assert(out@ =~= dec_str(v as int));
        }
    }
    out
}

/// Every digit string produced by `dec_digits` is nonempty, consists of
/// digits only, and reads back to the number it renders.
pub proof fn lemma_dec_digits_read_back(n: nat)
    ensures
        dec_digits(n).len() >= 1,
        all_digits(dec_digits(n)),
        digits_val(dec_digits(n)) == n,
    decreases n,
{
    if n < 10 {
        assert(seq![digit_char(n as int)].drop_last() =~= Seq::<char>::empty());
        assert(digits_val(Seq::<char>::empty()) == 0);
        assert(digits_val(seq![digit_char(n as int)]) == digit_val(digit_char(n as int)));
    } else {
        lemma_dec_digits_read_back(n / 10);
        let s = dec_digits(n);
        assert(s.drop_last() =~= dec_digits(n / 10));
        assert(s.last() == digit_char((n % 10) as int));
        assert(digits_val(s) == (n / 10) * 10 + (n % 10));
        assert(forall|i: int|
            0 <= i < s.len() ==> is_digit(#[trigger] s[i]));
    }
}

/// Round trip of the decimal renderers: parsing the rendered text of any
/// `i64` gives back exactly that value.
pub proof fn lemma_decimal_round_trip(v: i64)
    ensures
        spec_parse_i64(dec_str(v as int)) == Some(v),
{
    assert('+' as int == 43 && '-' as int == 45);
    if v >= 0 {
        let s = dec_str(v as int);
        lemma_dec_digits_read_back(v as nat);
        assert(s == dec_digits(v as nat));
        assert(is_digit(s[0]));
        assert(s[0] != '+' && s[0] != '-');
        assert(digits_val(s) == v);
    } else {
        let mag = (-(v as int)) as nat;
        let s = dec_str(v as int);
        lemma_dec_digits_read_back(mag);
        assert(s == seq!['-'] + dec_digits(mag));
        assert(s[0] == '-');
        assert(s.skip(1) =~= dec_digits(mag));
        assert(digits_val(s.skip(1)) == mag);
        assert(-digits_val(s.skip(1)) == v as int);
    }
}

} // verus!
