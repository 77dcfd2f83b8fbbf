//! Fixed-point pixel arithmetic.
//!
//! All geometry in this crate is carried in milli-pixels: an `i64`
//! holding one thousandth of a pixel per unit. Arithmetic saturates at
//! the `i64` range, so every operation is total; `i64::MAX` doubles as
//! the "unbounded" upper limit for size clamping.

use vstd::prelude::*;

verus! {

/// Milli-pixels per pixel.
pub const PX_SCALE: i64 = 1000;

/// Saturation of an unbounded integer into the `i64` range.
pub open spec fn sat64(v: int) -> int {
    if v > i64::MAX {
        i64::MAX as int
    } else if v < i64::MIN {
        i64::MIN as int
    } else {
        v
    }
}

/// Saturating addition: exact where the sum fits, pinned at the range
/// ends where it does not.
pub fn sat_add(a: i64, b: i64) -> (r: i64)
    ensures
        r == sat64(a + b),
{
    match a.checked_add(b) {
        Some(v) => v,
        None => {
            if a > 0 {
                i64::MAX
            } else {
                i64::MIN
            }
        },
    }
}

/// Saturating subtraction: exact where the difference fits, pinned at
/// the range ends where it does not.
pub fn sat_sub(a: i64, b: i64) -> (r: i64)
    ensures
        r == sat64(a - b),
{
    match a.checked_sub(b) {
        Some(v) => v,
        None => {
            if b < 0 {
                i64::MAX
            } else {
                i64::MIN
            }
        },
    }
}

/// The larger of two values.
pub fn max64(a: i64, b: i64) -> (r: i64)
    ensures
        r == if a >= b { a } else { b },
{
    if a >= b {
        a
    } else {
        b
    }
}

/// Clamping as the layout engine applies it: the value is first
/// raised to `min`, then capped at `max`. On an empty range the upper
/// bound wins.
pub open spec fn spec_clamp(val: int, min: int, max: int) -> int {
    let raised = if val < min {
        min
    } else {
        val
    };
    if raised > max {
        max
    } else {
        raised
    }
}

/// Clamps `val` into `[min, max]`; see [`spec_clamp`].
pub fn clamp(val: i64, min: i64, max: i64) -> (r: i64)
    ensures
        r == spec_clamp(val as int, min as int, max as int),
{
    let raised = if val < min {
        min
    } else {
        val
    };
    if raised > max {
        return max;
    }
    raised
}

/// ASCII decimal digit characters.
pub open spec fn is_dec_digit(c: char) -> bool {
    48 <= (c as u32) && (c as u32) <= 57
}

/// The value of an ASCII decimal digit character (`0` on others).
pub open spec fn dec_digit_val(c: char) -> int {
    if is_dec_digit(c) {
        (c as u32) - 48
    } else {
        0
    }
}

/// Whether every character of `s` is a decimal digit.
pub open spec fn all_dec_digits(s: Seq<char>) -> bool {
    forall|i: int| 0 <= i < s.len() ==> is_dec_digit(#[trigger] s[i])
}

/// The non-negative integer a digit string denotes (most significant
/// digit first).
pub open spec fn digits_val(s: Seq<char>) -> int
    decreases s.len(),
{
    if s.len() == 0 {
        0
    } else {
        digits_val(s.drop_last()) * 10 + dec_digit_val(s.last())
    }
}

/// The milli-unit value of a fraction digit string: the first three
/// fraction digits scaled into thousandths, further digits discarded.
pub open spec fn frac_milli(s: Seq<char>) -> int {
    if s.len() == 0 {
        0
    } else if s.len() == 1 {
        dec_digit_val(s[0]) * 100
    } else if s.len() == 2 {
        dec_digit_val(s[0]) * 100 + dec_digit_val(s[1]) * 10
    } else {
        dec_digit_val(s[0]) * 100 + dec_digit_val(s[1]) * 10 + dec_digit_val(s[2])
    }
}

/// The first position at or after `from` holding a `.`, or the end.
pub open spec fn dot_pos(s: Seq<char>, from: int) -> int
    decreases s.len() - from,
{
    if !(0 <= from < s.len()) {
        s.len() as int
    } else if s[from] == '.' {
        from
    } else {
        dot_pos(s, from + 1)
    }
}

/// Where a numeric literal's digits start: after an optional sign.
pub open spec fn px_start(s: Seq<char>) -> int {
    if s.len() > 0 && (s[0] == '+' || s[0] == '-') {
        1
    } else {
        0
    }
}

/// Whether a numeric literal carries a minus sign.
pub open spec fn px_negative(s: Seq<char>) -> bool {
    s.len() > 0 && s[0] == '-'
}

/// Where a numeric literal's decimal point sits (the end when absent).
pub open spec fn px_dot(s: Seq<char>) -> int {
    dot_pos(s, px_start(s))
}

/// A numeric literal's integer digit run.
pub open spec fn px_int_part(s: Seq<char>) -> Seq<char> {
    s.subrange(px_start(s), px_dot(s))
}

/// A numeric literal's fraction digit run (after the decimal point).
pub open spec fn px_frac_part(s: Seq<char>) -> Seq<char> {
    if px_dot(s) < s.len() {
        s.subrange(px_dot(s) + 1, s.len() as int)
    } else {
        Seq::<char>::empty()
    }
}

/// Whether a string is a numeric literal: an optional sign, decimal
/// digits with at most one `.` among them, and at least one digit.
pub open spec fn px_wellformed(s: Seq<char>) -> bool {
    all_dec_digits(px_int_part(s)) && all_dec_digits(px_frac_part(s)) && px_int_part(s).len()
        + px_frac_part(s).len() > 0
}

/// The milli-pixel reading of a numeric literal: an optional sign, an
/// integer digit run, and an optional `.` followed by fraction digits
/// (of which the first three are kept). The magnitude saturates at the
/// `i64` range; a string with no digit, a second dot, or any other
/// character reads as `None`.
pub open spec fn spec_parse_px(s: Seq<char>) -> Option<i64> {
    if px_wellformed(s) {
        let magnitude = sat_pos(digits_val(px_int_part(s)) * 1000 + frac_milli(px_frac_part(s)));
        if px_negative(s) {
            Some((-magnitude) as i64)
        } else {
            Some(magnitude as i64)
        }
    } else {
        None
    }
}

/// Saturation of a non-negative integer at `i64::MAX`.
pub open spec fn sat_pos(v: int) -> int {
    if v > i64::MAX {
        i64::MAX as int
    } else {
        v
    }
}

/// A digit string's value never goes negative.
pub proof fn lemma_digits_val_nonneg(s: Seq<char>)
    ensures
        digits_val(s) >= 0,
    decreases s.len(),
{
    if s.len() > 0 {
        lemma_digits_val_nonneg(s.drop_last());
    }
}

fn dec_digit(c: char) -> (r: bool)
    ensures
        r == is_dec_digit(c),
{
    let u = c as u32;
    48 <= u && u <= 57
}

/// Reads a numeric literal as milli-pixels; see [`spec_parse_px`].
pub fn parse_px(s: &str) -> (r: Option<i64>)
    ensures
        r == spec_parse_px(s@),
{
    let n = s.unicode_len();
    let mut i: usize = 0;
    let mut negative = false;
    if n > 0 {
        let c0 = s.get_char(0);
        if c0 == '+' || c0 == '-' {
            i = 1;
            negative = c0 == '-';
        }
    }
    let int_start: usize = i;
    let ghost start = i as int;
    assert(start == px_start(s@));
    // integer digits, saturating at i64::MAX
    let mut int_acc: i64 = 0;
    while i < n && dec_digit(s.get_char(i))
        invariant
            n == s@.len(),
            0 <= start <= i <= n,
            start == px_start(s@),
            dot_pos(s@, start) == dot_pos(s@, i as int),
            all_dec_digits(s@.subrange(start, i as int)),
            int_acc == sat_pos(digits_val(s@.subrange(start, i as int))),
        decreases n - i,
    {
        let c = s.get_char(i);
        proof {
            let pre = s@.subrange(start, i as int);
            let post = s@.subrange(start, i + 1);
            lemma_digits_val_nonneg(pre);
            assert(post.drop_last() =~= pre);
            assert(post.last() == s@[i as int]);
            assert(digits_val(post) == digits_val(pre) * 10 + dec_digit_val(s@[i as int]));
            assert(all_dec_digits(post)) by {
                assert forall|j: int| 0 <= j < post.len() implies is_dec_digit(
                    #[trigger] post[j],
                ) by {
                    if j < post.len() - 1 {
                        assert(post[j] == pre[j]);
                    }
                }
            }
        }
        let d: i64 = ((c as u32) - 48) as i64;
        int_acc = match int_acc.checked_mul(10) {
            Some(v) => match v.checked_add(d) {
                Some(w) => w,
                None => i64::MAX,
            },
            None => i64::MAX,
        };
        i += 1;
    }
    let ghost int_part = s@.subrange(start, i as int);
    // the scan position after the integer run tells whether digits were seen
    let digit_seen = i != int_start;
    // fraction digits after a single dot
    let mut frac: i64 = 0;
    let mut frac_len: usize = 0;
    if i < n {
        if s.get_char(i) != '.' {
            // some other character: not a numeric literal
            proof {
                assert(dot_pos(s@, i as int) == dot_pos(s@, i + 1));
                lemma_dot_pos_bounds(s@, i + 1);
                let dp = px_dot(s@);
                assert(dp > i);
                lemma_dot_pos_bounds(s@, start);
                assert(px_int_part(s@)[i as int - start] == s@[i as int]);
                assert(!all_dec_digits(px_int_part(s@)));
            }
            return None;
        }
        assert(dot_pos(s@, start) == i);
        i += 1;
        let ghost frac_start = i as int;
        while i < n
            invariant
                n == s@.len(),
                1 <= frac_start <= i <= n,
                start == px_start(s@),
                dot_pos(s@, start) == frac_start - 1,
                start <= frac_start - 1,
                all_dec_digits(s@.subrange(frac_start, i as int)),
                frac_len == i - frac_start,
                frac == frac_milli(s@.subrange(frac_start, i as int)),
                0 <= frac <= 999,
            decreases n - i,
        {
            let c = s.get_char(i);
            if !dec_digit(c) {
                proof {
                    let dp = px_dot(s@);
                    assert(dp == frac_start - 1);
                    assert(px_frac_part(s@)[i as int - frac_start] == s@[i as int]);
                    assert(!all_dec_digits(px_frac_part(s@)));
                }
                return None;
            }
            proof {
                let pre = s@.subrange(frac_start, i as int);
                let post = s@.subrange(frac_start, i + 1);
                assert(post.drop_last() =~= pre);
                assert(post.last() == s@[i as int]);
                assert(all_dec_digits(post)) by {
                    assert forall|j: int| 0 <= j < post.len() implies is_dec_digit(
                        #[trigger] post[j],
                    ) by {
                        if j < post.len() - 1 {
                            assert(post[j] == pre[j]);
                        }
                    }
                }
                if frac_len == 0 {
                    assert(post[0] == s@[i as int]);
                } else if frac_len == 1 {
                    assert(post[0] == pre[0] && post[1] == s@[i as int]);
                } else if frac_len == 2 {
                    assert(post[0] == pre[0] && post[1] == pre[1] && post[2] == s@[i as int]);
                } else {
                    assert(post[0] == pre[0] && post[1] == pre[1] && post[2] == pre[2]);
                }
            }
            let d: i64 = ((c as u32) - 48) as i64;
            if frac_len == 0 {
                frac = d * 100;
            } else if frac_len == 1 {
                frac = frac + d * 10;
            } else if frac_len == 2 {
                frac = frac + d;
            }
            frac_len += 1;
            i += 1;
        }
        proof {
            assert(px_frac_part(s@) =~= s@.subrange(frac_start, n as int));
            assert(frac == frac_milli(px_frac_part(s@)));
        }
    } else {
        proof {
            assert(dot_pos(s@, start) == n);
            assert(px_frac_part(s@) =~= Seq::<char>::empty());
            assert(frac == frac_milli(px_frac_part(s@)));
        }
    }
    proof {
        assert(px_int_part(s@) =~= int_part);
        assert(all_dec_digits(px_int_part(s@)));
        assert(negative == px_negative(s@));
    }
    if !digit_seen && frac_len == 0 {
        proof {
            assert(px_int_part(s@).len() == 0);
            assert(px_frac_part(s@).len() == 0);
        }
        return None;
    }
    proof {
        lemma_digits_val_nonneg(int_part);
        assert(px_wellformed(s@));
    }
    // combine: saturate the magnitude, then apply the sign
    let scaled: i64 = match int_acc.checked_mul(1000) {
        Some(v) => v,
        None => i64::MAX,
    };
    let magnitude: i64 = match scaled.checked_add(frac) {
        Some(v) => v,
        None => i64::MAX,
    };
    proof {
        assert(magnitude == sat_pos(digits_val(px_int_part(s@)) * 1000 + frac_milli(
            px_frac_part(s@),
        )));
    }
    if negative {
        Some(-magnitude)
    } else {
        Some(magnitude)
    }
}

/// `dot_pos` stays between its scan start and the end of the string.
pub proof fn lemma_dot_pos_bounds(s: Seq<char>, from: int)
    requires
        0 <= from <= s.len(),
    ensures
        from <= dot_pos(s, from) <= s.len(),
    decreases s.len() - from,
{
    if from < s.len() && s[from] != '.' {
        lemma_dot_pos_bounds(s, from + 1);
    }
}

} // verus!
