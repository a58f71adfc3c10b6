//! Validation and parsing of the numeric strings accepted by
//! `const_from_string`: digits only, except that a single leading minus may
//! be allowed, and at most one decimal point may be allowed.

use vstd::prelude::*;
use vstd::string::StrSliceExecFns;

verus! {

/// True of the ten ASCII digit characters.
pub open spec fn is_digit(c: char) -> bool {
    48 <= c as int && c as int <= 57
}

/// The numeric value of a digit character.
pub open spec fn digit_val(c: char) -> int {
    c as int - 48
}

/// The non-negative integer denoted by a sequence of digit characters, most
/// significant first.
pub open spec fn digits_val(s: Seq<char>) -> int
    decreases s.len(),
{
    if s.len() == 0 {
        0
    } else {
        digits_val(s.drop_last()) * 10 + digit_val(s.last())
    }
}

/// True when every character is a digit.
pub open spec fn all_digits(s: Seq<char>) -> bool {
    forall|j: int| 0 <= j < s.len() ==> is_digit(#[trigger] s[j])
}

/// True when the string begins with a unary minus.
pub open spec fn is_negative(s: Seq<char>) -> bool {
    s.len() > 0 && s[0] == '-'
}

/// The string with a leading minus stripped.
pub open spec fn strip_minus(s: Seq<char>) -> Seq<char> {
    if is_negative(s) {
        s.skip(1)
    } else {
        s
    }
}

/// The digits-and-dots body of the numeral: the whole string, or the string
/// after the leading minus when a minus is allowed.
pub open spec fn numeral_body(s: Seq<char>, allow_minus: bool) -> Seq<char> {
    if allow_minus {
        strip_minus(s)
    } else {
        s
    }
}

/// True when every character is a digit or (if allowed) a decimal point.
pub open spec fn chars_ok(s: Seq<char>, allow_dot: bool) -> bool {
    forall|j: int| 0 <= j < s.len() ==> is_digit(#[trigger] s[j]) || (allow_dot && s[j] == '.')
}

/// The number of decimal points in the string.
pub open spec fn dot_count(s: Seq<char>) -> nat
    decreases s.len(),
{
    if s.len() == 0 {
        0
    } else {
        dot_count(s.drop_last()) + if s.last() == '.' {
            1nat
        } else {
            0nat
        }
    }
}

/// A well-formed numeral: after the optional leading minus (when allowed),
/// at least one digit, nothing but digits and decimal points, and at most
/// one decimal point (only when allowed).
pub open spec fn numeral_ok(s: Seq<char>, allow_minus: bool, allow_dot: bool) -> bool {
    let b = numeral_body(s, allow_minus);
    chars_ok(b, allow_dot) && dot_count(b) <= 1 && exists|j: int|
        0 <= j < b.len() && is_digit(#[trigger] b[j])
}

/// The mathematical integer a numeral denotes, when it is written without a
/// decimal point; a numeral with a decimal point is not treated as integral.
pub open spec fn numeral_int_value(s: Seq<char>) -> Option<int> {
    let b = strip_minus(s);
    if b.len() > 0 && all_digits(b) {
        if is_negative(s) {
            Some(-digits_val(b))
        } else {
            Some(digits_val(b))
        }
    } else {
        None
    }
}

/// The outcome of scanning a candidate numeral.
pub enum Scanned {
    /// Not a well-formed numeral.
    Invalid,
    /// A well-formed integral numeral whose value fits in an `i64`.
    IntVal(i64),
    /// A well-formed integral numeral whose value does not fit in an `i64`.
    Big,
    /// A well-formed numeral written with a decimal point.
    NonIntegral,
}

proof fn lemma_digits_val_nonneg(s: Seq<char>)
    requires
        all_digits(s),
    ensures
        digits_val(s) >= 0,
    decreases s.len(),
{
    if s.len() > 0 {
        assert(all_digits(s.drop_last()));
        lemma_digits_val_nonneg(s.drop_last());
    }
}

/// Scan a candidate numeral, classifying it and extracting its value when it
/// is integral and fits in 64 bits.
pub fn scan_numeral(value: &str, allow_minus: bool, allow_dot: bool) -> (r: Scanned)
    ensures
        r is Invalid <==> !numeral_ok(value@, allow_minus, allow_dot),
        r matches Scanned::IntVal(v) ==> numeral_int_value(value@) == Some(v as int),
        numeral_int_value(value@) matches Some(v) ==> ((numeral_ok(value@, allow_minus, allow_dot)
            && i64::MIN <= v <= i64::MAX) ==> (r matches Scanned::IntVal(w) && w as int == v)),
        r is Big ==> (numeral_int_value(value@) matches Some(v) && !(i64::MIN <= v <= i64::MAX)),
        r is NonIntegral ==> numeral_int_value(value@) is None,
{
    let ghost s = value@;
    let ghost b = numeral_body(s, allow_minus);
    let n = value.unicode_len();
    let mut start: usize = 0;
    let mut neg = false;
    if allow_minus && n > 0 && value.get_char(0) == '-' {
        start = 1;
        neg = true;
    }
    assert(b =~= s.skip(start as int));
    let ghost sign: int = if neg {
        -1
    } else {
        1
    };
    let mut k = start;
    let mut dots: usize = 0;
    let mut has_digit = false;
    let mut big = false;
    let mut acc: i64 = 0;
    while k < n
        invariant
            s == value@,
            start <= k <= n,
            n == s.len(),
            start == 0 || start == 1,
            start == 1 ==> allow_minus && is_negative(s),
            start == 0 && allow_minus ==> !is_negative(s),
            b == numeral_body(s, allow_minus),
            b =~= s.skip(start as int),
            sign == if neg {
                -1int
            } else {
                1int
            },
            neg <==> start == 1,
            chars_ok(b.take(k - start), allow_dot),
            dots <= k,
            dots == dot_count(b.take(k - start)),
            dots == 0 <==> forall|j: int| 0 <= j < k - start ==> b[j] != '.',
            has_digit <==> exists|j: int| 0 <= j < k - start && is_digit(#[trigger] b[j]),
            dots == 0 ==> all_digits(b.take(k - start)),
            dots == 0 && !big ==> acc as int == sign * digits_val(b.take(k - start)),
            dots == 0 && big ==> !(i64::MIN <= sign * digits_val(b.take(k - start)) <= i64::MAX),
        decreases n - k,
    {
        let c = value.get_char(k);
        let ghost rel = k - start;
        assert(b[rel as int] == c);
        let u = c as u32;
        proof {
            assert(b.take(rel + 1).drop_last() =~= b.take(rel as int));
            assert(b.take(rel + 1).last() == c);
        }
        if 48 <= u && u <= 57 {
            has_digit = true;
            if dots == 0 {
                let d = (u - 48) as i64;
                proof {
                    assert(all_digits(b.take(rel as int)));
                    lemma_digits_val_nonneg(b.take(rel as int));
                    assert(digits_val(b.take(rel + 1)) == digits_val(b.take(rel as int)) * 10
                        + digit_val(c));
                }
                if !big {
                    match acc.checked_mul(10) {
                        Some(m) => {
                            let step = if neg {
                                m.checked_sub(d)
                            } else {
                                m.checked_add(d)
                            };
                            match step {
                                Some(a2) => {
                                    acc = a2;
                                },
                                None => {
                                    big = true;
                                },
                            }
                        },
                        None => {
                            proof {
                                let old_v = digits_val(b.take(rel as int));
                                let new_v = digits_val(b.take(rel + 1));
                                assert(new_v == old_v * 10 + digit_val(c));
                                assert(0 <= digit_val(c) <= 9);
                                if sign == 1 {
                                    assert(sign * new_v >= sign * old_v * 10);
                                } else {
                                    assert(sign * new_v <= sign * old_v * 10 + -1 * digit_val(c));
                                    assert(sign * new_v <= sign * old_v * 10);
                                }
                            }
                            big = true;
                        },
                    }
                } else {
                    proof {
                        let old_v = digits_val(b.take(rel as int));
                        let new_v = digits_val(b.take(rel + 1));
                        assert(new_v == old_v * 10 + digit_val(c));
                        assert(old_v >= 0);
                        assert(new_v >= old_v) by (nonlinear_arith)
                            requires
                                new_v == old_v * 10 + digit_val(c),
                                old_v >= 0,
                                digit_val(c) >= 0,
                        ;
                    }
                }
            }
        } else if u == 46 {
            if !allow_dot {
                proof {
                    assert(!is_digit(b[rel as int]));
                    assert(!chars_ok(b, allow_dot));
                }
                return Scanned::Invalid;
            }
            dots = dots + 1;
        } else {
            proof {
                assert(!is_digit(b[rel as int]));
                assert(b[rel as int] != '.');
                assert(!chars_ok(b, allow_dot));
            }
            return Scanned::Invalid;
        }
        k = k + 1;
    }
    proof {
        assert(b.take(n - start) =~= b);
    }
    if !has_digit {
        return Scanned::Invalid;
    }
    if dots > 1 {
        return Scanned::Invalid;
    }
    if dots == 1 {
        proof {
            let j = choose|j: int| 0 <= j < b.len() && b[j] == '.';
            assert(!is_digit(b[j]));
            assert(!all_digits(strip_minus(s)));
        }
        return Scanned::NonIntegral;
    }
    proof {
        assert(all_digits(b));
        assert(b.len() > 0);
        if !allow_minus {
            assert(!is_negative(s)) by {
                assert(is_digit(s[0]));
            }
            assert(strip_minus(s) =~= b);
        } else {
            assert(strip_minus(s) =~= b);
        }
    }
    if big {
        Scanned::Big
    } else {
        Scanned::IntVal(acc)
    }
}

} // verus!
