//! Reading validated values out of a line of text.
//!
//! A line is trimmed of surrounding whitespace and parsed either as an
//! unsigned menu selection or as a signed decimal temperature.  The accepted
//! grammar is stated exactly: a selection is one or more digits whose value
//! fits an unsigned 32-bit integer; a temperature is an optional sign, one
//! or more integer digits, and optionally a point followed by one or more
//! fraction digits, with at most [`MAX_DIGITS`] digits in all.  A line
//! outside the grammar is reported as invalid, carrying the original raw
//! text; a closed input stream is reported as end of input.

use vstd::prelude::*;

use crate::chars::{
    all_digits, digit_of, digits_val, find_char, is_digit, is_digit_char, is_space, is_space_char,
    lemma_digits_val_concat, lemma_digits_val_range, lemma_find_char, lemma_pow10_mono,
    lemma_pow10_pos, lemma_pow10_values, lemma_trim_back_is_take, lemma_trim_front_is_skip, pow10,
    trimmed,
};
use crate::engine::VALUE_LIMIT;
use crate::rational::{rat_bounded, Rat, RatVal};
use crate::units::InputError;

verus! {

/// Most digits a temperature literal may hold, integer and fraction parts
/// together, so that every accepted value stays within
/// [`crate::engine::VALUE_LIMIT`].
pub const MAX_DIGITS: usize = 27;

/// A valid menu selection: one or more digits reading as a value that fits
/// an unsigned 32-bit integer.
pub open spec fn sel_valid(t: Seq<char>) -> bool {
    &&& t.len() >= 1
    &&& all_digits(t)
    &&& digits_val(t) <= u32::MAX
}

/// The trimmed line starts with an explicit sign.
pub open spec fn has_sign(t: Seq<char>) -> bool {
    t.len() > 0 && (t[0] == '+' || t[0] == '-')
}

/// The trimmed line with any sign removed.
pub open spec fn body_of(t: Seq<char>) -> Seq<char> {
    if has_sign(t) {
        t.skip(1)
    } else {
        t
    }
}

/// The sign of the trimmed line: minus one exactly under a leading minus.
pub open spec fn sign_of(t: Seq<char>) -> int {
    if t.len() > 0 && t[0] == '-' {
        -1
    } else {
        1
    }
}

/// A valid temperature literal: after the optional sign, one or more integer
/// digits, optionally followed by a point and one or more fraction digits,
/// with at most [`MAX_DIGITS`] digits in all.
pub open spec fn dec_valid(t: Seq<char>) -> bool {
    let b = body_of(t);
    let d = find_char(b, '.');
    &&& b.len() > 0
    &&& if d == b.len() {
        all_digits(b) && b.len() <= MAX_DIGITS
    } else {
        &&& 1 <= d
        &&& all_digits(b.take(d))
        &&& all_digits(b.skip(d + 1))
        &&& b.len() >= d + 2
        &&& b.len() - 1 <= MAX_DIGITS
    }
}

/// The exact rational value of a valid temperature literal.
pub open spec fn dec_value(t: Seq<char>) -> RatVal {
    let b = body_of(t);
    let d = find_char(b, '.');
    if d == b.len() {
        RatVal { num: sign_of(t) * digits_val(b), den: 1 }
    } else {
        let flen = (b.len() - d - 1) as nat;
        RatVal {
            num: sign_of(t) * (digits_val(b.take(d)) * pow10(flen) + digits_val(b.skip(d + 1))),
            den: pow10(flen),
        }
    }
}

/// A digit string holds no point.
proof fn lemma_all_digits_no_dot(b: Seq<char>)
    requires
        all_digits(b),
    ensures
        find_char(b, '.') == b.len(),
{
    lemma_find_char(b, '.');
    let d = find_char(b, '.');
    if d < b.len() {
        assert(is_digit_char(b[d]));
        assert(('.' as u32) == 46);
    }
}

/// The first point of `b` sits at `k` when everything before `k` is a digit
/// and `k` holds a point.
proof fn lemma_dot_at(b: Seq<char>, k: int)
    requires
        0 <= k < b.len(),
        all_digits(b.take(k)),
        b[k] == '.',
    ensures
        find_char(b, '.') == k,
{
    lemma_find_char(b, '.');
    let d = find_char(b, '.');
    if d < k {
        assert(is_digit_char(b.take(k)[d]));
        assert(('.' as u32) == 46);
    }
    if d > k {
        assert(b[k] != '.');
    }
}

/// The first point of `b` lies beyond `k` when everything up to and
/// including `k` is no point.
proof fn lemma_find_past(b: Seq<char>, k: int)
    requires
        0 <= k < b.len(),
        all_digits(b.take(k)),
        b[k] != '.',
    ensures
        find_char(b, '.') > k,
{
    lemma_find_char(b, '.');
    let d = find_char(b, '.');
    if d < k {
        assert(is_digit_char(b.take(k)[d]));
        assert(('.' as u32) == 46);
    }
    if d == k {
        assert(b[k] == '.');
    }
}

/// What the scanning loop has read as digits projects onto the integer part.
proof fn lemma_read_prefix_digits(b: Seq<char>, dot: int, j: int)
    requires
        0 <= dot,
        dot + 1 <= j <= b.len(),
        all_digits(digits_read(b, true, dot, j)),
    ensures
        all_digits(b.take(dot)),
{
    assert forall|k: int| 0 <= k < dot implies is_digit_char(b.take(dot)[k]) by {
        assert(b.take(dot)[k] == digits_read(b, true, dot, j)[k]);
    }
}

/// What the scanning loop has read as digits projects onto the fraction part.
proof fn lemma_read_suffix_digits(b: Seq<char>, dot: int, j: int)
    requires
        0 <= dot,
        dot + 1 <= j <= b.len(),
        all_digits(digits_read(b, true, dot, j)),
    ensures
        all_digits(b.subrange(dot + 1, j)),
{
    assert forall|k: int| 0 <= k < j - dot - 1 implies #[trigger] is_digit_char(
        b.subrange(dot + 1, j)[k],
    ) by {
        assert(b.subrange(dot + 1, j)[k] == digits_read(b, true, dot, j)[dot + k]);
    }
}

/// The bounds of the line once surrounding whitespace is dropped.
fn trim_bounds(s: &str) -> (r: (usize, usize))
    ensures
        r.0 <= r.1 <= s@.len(),
        trimmed(s@) == s@.subrange(r.0 as int, r.1 as int),
{
    let n = s.unicode_len();
    let mut lo: usize = 0;
    while lo < n && is_space(s.get_char(lo))
        invariant
            n == s@.len(),
            lo <= n,
            forall|k: int| 0 <= k < lo ==> is_space_char(s@[k]),
        decreases n - lo,
    {
        lo = lo + 1;
    }
    let mut hi: usize = n;
    while hi > lo && is_space(s.get_char(hi - 1))
        invariant
            n == s@.len(),
            lo <= hi <= n,
            forall|k: int| 0 <= k < lo ==> is_space_char(s@[k]),
            forall|k: int| hi <= k < n ==> is_space_char(s@[k]),
        decreases hi,
    {
        hi = hi - 1;
    }
    proof {
        lemma_trim_front_is_skip(s@, lo as int);
        let u = s@.skip(lo as int);
        assert forall|k: int| (hi - lo) <= k < u.len() implies is_space_char(u[k]) by {
            assert(u[k] == s@[k + lo]);
        }
        if hi > lo {
            assert(u[hi - lo - 1] == s@[hi - 1]);
        }
        lemma_trim_back_is_take(u, hi - lo);
        assert(u.take(hi - lo) =~= s@.subrange(lo as int, hi as int));
    }
    (lo, hi)
}

/// Read a menu selection from a line, or report why none could be read.
///
/// A closed stream (`None`) reads as end of input.  Otherwise the line is
/// trimmed; when the rest is a valid selection its value is returned, and
/// when it is not, the error carries the original raw text.
#[verifier::loop_isolation(false)]
pub fn parse_selection(line: Option<&str>) -> (r: Result<u32, InputError>)
    ensures
        line is None ==> r == Err::<u32, InputError>(InputError::Eof),
        line matches Some(s) ==> {
            &&& sel_valid(trimmed(s@)) ==> (r matches Ok(v) && v == digits_val(trimmed(s@)))
            &&& !sel_valid(trimmed(s@)) ==> (r matches Err(e) && e matches InputError::InvalidFormat(
                raw,
            ) && raw@ == s@)
        },
{
    let s = match line {
        Some(s) => s,
        None => {
            return Err(InputError::Eof);
        },
    };
    let (lo, hi) = trim_bounds(s);
    let ghost t = trimmed(s@);
    if lo == hi {
        return Err(InputError::InvalidFormat(s.to_owned()));
    }
    let mut acc: u64 = 0;
    let mut too_big = false;
    let mut i = lo;
    while i < hi
        invariant
            lo <= i <= hi <= s@.len(),
            lo < hi,
            t == s@.subrange(lo as int, hi as int),
            all_digits(t.take(i - lo)),
            !too_big ==> acc == digits_val(t.take(i - lo)) && acc <= u32::MAX,
            too_big ==> digits_val(t.take(i - lo)) > u32::MAX,
        decreases hi - i,
    {
        let c = s.get_char(i);
        proof {
            assert(t[i - lo] == s@[i as int]);
        }
        if !is_digit(c) {
            proof {
                assert(!all_digits(t)) by {
                    assert(!is_digit_char(t[i - lo]));
                }
            }
            return Err(InputError::InvalidFormat(s.to_owned()));
        }
        let d = digit_of(c) as u64;
        proof {
            assert(t.take(i + 1 - lo).drop_last() =~= t.take(i - lo));
            assert(t.take(i + 1 - lo).last() == t[i - lo]);
        }
        if too_big {
            // Appending a digit keeps the value beyond the limit.
        } else {
            let next = acc * 10 + d;
            if next > 0xffff_ffffu64 {
                too_big = true;
            } else {
                acc = next;
            }
        }
        i = i + 1;
    }
    proof {
        assert(t.take(hi - lo) =~= t);
    }
    if too_big {
        return Err(InputError::InvalidFormat(s.to_owned()));
    }
    Ok(acc as u32)
}

/// The portion of the literal body whose digits the scanning loop has read:
/// everything up to `j`, with the point at `dot` cut out.
spec fn digits_read(b: Seq<char>, seen_dot: bool, dot: int, j: int) -> Seq<char> {
    if seen_dot {
        b.take(dot) + b.subrange(dot + 1, j)
    } else {
        b.take(j)
    }
}

/// Read a temperature from a line, or report why none could be read.
///
/// A closed stream (`None`) reads as end of input.  Otherwise the line is
/// trimmed; when the rest is a valid decimal literal its exact rational
/// value is returned, and when it is not, the error carries the original
/// raw text.
#[verifier::loop_isolation(false)]
#[verifier::rlimit(60)]
pub fn parse_temperature(line: Option<&str>) -> (r: Result<Rat, InputError>)
    ensures
        line is None ==> r == Err::<Rat, InputError>(InputError::Eof),
        line matches Some(s) ==> {
            &&& dec_valid(trimmed(s@)) ==> (r matches Ok(v) && v@ == dec_value(trimmed(s@))
                && v.wf() && rat_bounded(v@, VALUE_LIMIT as int))
            &&& !dec_valid(trimmed(s@)) ==> (r matches Err(e) && e matches InputError::InvalidFormat(
                raw,
            ) && raw@ == s@)
        },
{
    let s = match line {
        Some(s) => s,
        None => {
            return Err(InputError::Eof);
        },
    };
    let (lo, hi) = trim_bounds(s);
    let ghost t = trimmed(s@);
    if lo == hi {
        return Err(InputError::InvalidFormat(s.to_owned()));
    }
    let c0 = s.get_char(lo);
    proof {
        assert(t[0] == s@[lo as int]);
    }
    let negative = c0 == '-';
    let signed = negative || c0 == '+';
    let start = if signed {
        lo + 1
    } else {
        lo
    };
    let ghost b = body_of(t);
    proof {
        if signed {
            assert(b =~= s@.subrange(start as int, hi as int));
        } else {
            assert(b =~= s@.subrange(start as int, hi as int));
        }
    }
    if start == hi {
        return Err(InputError::InvalidFormat(s.to_owned()));
    }
    let mut acc: i128 = 0;
    let mut digits: usize = 0;
    let mut dot: usize = 0;
    let mut seen_dot = false;
    let mut scale: i128 = 1;
    let mut i = start;
    while i < hi
        invariant
            start <= i <= hi <= s@.len(),
            start < hi,
            b == s@.subrange(start as int, hi as int),
            b.len() == hi - start,
            digits <= MAX_DIGITS,
            !seen_dot ==> digits == i - start && scale == 1,
            seen_dot ==> {
                &&& 1 <= dot <= digits
                &&& dot + 1 <= i - start
                &&& digits == i - start - 1
                &&& b[dot as int] == '.'
                &&& scale == pow10((digits - dot) as nat)
            },
            all_digits(digits_read(b, seen_dot, dot as int, i - start)),
            digits_read(b, seen_dot, dot as int, i - start).len() == digits,
            acc == digits_val(digits_read(b, seen_dot, dot as int, i - start)),
            0 <= acc,
            1 <= scale,
        decreases hi - i,
    {
        let ghost j = i - start;
        let ghost d_before = digits_read(b, seen_dot, dot as int, j);
        let c = s.get_char(i);
        proof {
            assert(b[j] == s@[i as int]);
        }
        if is_digit(c) {
            if digits == MAX_DIGITS {
                // A twenty-eighth digit: the literal is too long to accept.
                proof {
                    assert(!dec_valid(t)) by {
                        if seen_dot {
                            assert(b.len() >= j + 1);
                            lemma_read_prefix_digits(b, dot as int, j);
                            lemma_dot_at(b, dot as int);
                        } else {
                            assert(all_digits(b.take(j + 1))) by {
                                assert(forall|k: int|
                                    0 <= k < j ==> b.take(j + 1)[k] == b.take(j)[k]);
                            }
                            let d = find_char(b, '.');
                            lemma_find_char(b, '.');
                            if d < b.len() {
                                lemma_find_past(b, j);
                                assert(d >= j + 1);
                            }
                        }
                    }
                }
                return Err(InputError::InvalidFormat(s.to_owned()));
            }
            let dv = digit_of(c) as i128;
            proof {
                lemma_digits_val_range(d_before);
                lemma_pow10_mono(d_before.len() as nat, 26);
                lemma_pow10_values();
                assert(acc < pow10(26));
            }
            acc = acc * 10 + dv;
            digits = digits + 1;
            if seen_dot {
                proof {
                    lemma_pow10_mono((digits - 1 - dot) as nat, 26);
                    lemma_pow10_values();
                }
                scale = scale * 10;
            }
            proof {
                let d_after = digits_read(b, seen_dot, dot as int, j + 1);
                assert(d_after =~= d_before.push(b[j]));
                assert(d_after.drop_last() =~= d_before);
                assert(d_after.last() == b[j]);
            }
        } else if c == '.' {
            if seen_dot {
                // A second point: the fraction part may hold digits only.
                proof {
                    lemma_read_prefix_digits(b, dot as int, j);
                    lemma_dot_at(b, dot as int);
                    assert(!dec_valid(t)) by {
                        assert(b.skip(dot + 1)[j - dot - 1] == b[j]);
                        assert(('.' as u32) == 46);
                    }
                }
                return Err(InputError::InvalidFormat(s.to_owned()));
            }
            if digits == 0 {
                // A leading point: the integer part may not be empty.
                proof {
                    lemma_dot_at(b, 0);
                    assert(!dec_valid(t));
                }
                return Err(InputError::InvalidFormat(s.to_owned()));
            }
            dot = digits;
            seen_dot = true;
            proof {
                let d_after = digits_read(b, true, dot as int, j + 1);
                assert(d_after =~= d_before);
            }
        } else {
            // A character that is neither digit, sign nor point.
            proof {
                assert(!dec_valid(t)) by {
                    if seen_dot {
                        lemma_read_prefix_digits(b, dot as int, j);
                        lemma_dot_at(b, dot as int);
                        assert(b.skip(dot + 1)[j - dot - 1] == b[j]);
                    } else {
                        let d = find_char(b, '.');
                        lemma_find_char(b, '.');
                        lemma_find_past(b, j);
                        if d < b.len() {
                            assert(b.take(d)[j] == b[j]);
                        }
                    }
                }
            }
            return Err(InputError::InvalidFormat(s.to_owned()));
        }
        i = i + 1;
    }
    let ghost n_b = b.len() as int;
    if seen_dot && digits == dot {
        // A trailing point: the fraction part may not be empty.
        proof {
            lemma_read_prefix_digits(b, dot as int, b.len() as int);
            lemma_dot_at(b, dot as int);
            assert(!dec_valid(t));
        }
        return Err(InputError::InvalidFormat(s.to_owned()));
    }
    let num = if negative {
        -acc
    } else {
        acc
    };
    proof {
        let d_final = digits_read(b, seen_dot, dot as int, n_b);
        lemma_digits_val_range(d_final);
        lemma_pow10_mono(d_final.len() as nat, 27);
        lemma_pow10_values();
        assert(acc < VALUE_LIMIT as int);
        if !seen_dot {
            assert(b.take(n_b) =~= b);
            lemma_all_digits_no_dot(b);
            assert(dec_valid(t));
        } else {
            lemma_read_prefix_digits(b, dot as int, n_b);
            lemma_read_suffix_digits(b, dot as int, n_b);
            lemma_dot_at(b, dot as int);
            assert(b.skip(dot + 1) =~= b.subrange(dot + 1, n_b));
            assert(b.len() >= dot + 2);
            assert(dec_valid(t));
            lemma_digits_val_concat(b.take(dot as int), b.subrange(dot + 1, n_b));
            lemma_pow10_pos((digits - dot) as nat);
            lemma_pow10_mono((digits - dot) as nat, 27);
        }
    }
    let value = Rat::new(num, scale);
    proof {
        assert(value@ == dec_value(t));
        assert(rat_bounded(value@, VALUE_LIMIT as int));
    }
    Ok(value)
}

} // verus!
