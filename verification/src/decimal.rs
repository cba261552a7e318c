//! Fixed-point decimals. Prices and sizes arrive as decimal text; they are
//! held as unsigned fixed-point integers in units of `1 / DECIMAL_SCALE`
//! (eight fractional digits), so that accumulation is exact and no
//! floating-point noise can split one true price level into two.

use vstd::prelude::*;

verus! {

use vstd::string::StrSliceExecFns;

/// Number of fixed-point units per 1.0: eight fractional decimal digits.
pub const DECIMAL_SCALE: u64 = 100_000_000;

/// Greatest number of fractional digits a decimal literal may carry.
pub const MAX_FRAC_DIGITS: usize = 8;

pub open spec fn is_digit(c: char) -> bool {
    48 <= c as u32 <= 57
}

pub open spec fn digit_val(c: char) -> int {
    c as u32 - 48
}

pub open spec fn all_digits(s: Seq<char>) -> bool {
    forall|i: int| 0 <= i < s.len() ==> is_digit(#[trigger] s[i])
}

/// The integer denoted by a digit string, most significant digit first.
pub open spec fn digits_val(s: Seq<char>) -> int
    decreases s.len(),
{
    if s.len() == 0 {
        0
    } else {
        digits_val(s.drop_last()) * 10 + digit_val(s.last())
    }
}

pub open spec fn pow10(n: nat) -> int
    decreases n,
{
    if n == 0 {
        1
    } else {
        10 * pow10((n - 1) as nat)
    }
}

/// `j` marks a well-formed decimal point in `s`: at least one digit on each
/// side, digits everywhere else, and at most `MAX_FRAC_DIGITS` fractional
/// digits.
pub open spec fn decimal_split_at(s: Seq<char>, j: int) -> bool {
    &&& 1 <= j
    &&& j + 1 < s.len()
    &&& s[j] == '.'
    &&& all_digits(s.subrange(0, j))
    &&& all_digits(s.subrange(j + 1, s.len() as int))
    &&& s.len() - (j + 1) <= MAX_FRAC_DIGITS
}

/// A decimal literal: a non-empty digit string, optionally followed by a
/// point and one to `MAX_FRAC_DIGITS` fractional digits.
pub open spec fn valid_decimal(s: Seq<char>) -> bool {
    ||| s.len() > 0 && all_digits(s)
    ||| exists|j: int| decimal_split_at(s, j)
}

/// The value of a valid decimal literal, in units of `1 / DECIMAL_SCALE`.
pub open spec fn decimal_units(s: Seq<char>) -> int
    recommends
        valid_decimal(s),
{
    if s.len() > 0 && all_digits(s) {
        digits_val(s) * DECIMAL_SCALE
    } else {
        let j = choose|j: int| decimal_split_at(s, j);
        digits_val(s.subrange(0, j)) * DECIMAL_SCALE + digits_val(
            s.subrange(j + 1, s.len() as int),
        ) * pow10((MAX_FRAC_DIGITS - (s.len() - j - 1)) as nat)
    }
}

pub proof fn lemma_digits_val_nonneg(s: Seq<char>)
    requires
        all_digits(s),
    ensures
        digits_val(s) >= 0,
    decreases s.len(),
{
    if s.len() > 0 {
        lemma_digits_val_nonneg(s.drop_last());
    }
}

pub proof fn lemma_digits_val_bound(s: Seq<char>)
    requires
        all_digits(s),
    ensures
        0 <= digits_val(s) < pow10(s.len()),
    decreases s.len(),
{
    if s.len() > 0 {
        lemma_digits_val_bound(s.drop_last());
    }
}

pub proof fn lemma_pow10_pos(n: nat)
    ensures
        pow10(n) >= 1,
    decreases n,
{
    if n > 0 {
        lemma_pow10_pos((n - 1) as nat);
    }
}

/// Extending a digit prefix never decreases its value.
proof fn lemma_digits_val_prefix_le(s: Seq<char>, i: int)
    requires
        all_digits(s),
        0 <= i <= s.len(),
    ensures
        digits_val(s.subrange(0, i)) <= digits_val(s),
    decreases s.len() - i,
{
    if i == s.len() {
        assert(s.subrange(0, i) =~= s);
    } else {
        let a = s.subrange(0, i + 1);
        assert(a.drop_last() =~= s.subrange(0, i));
        assert(a.last() == s[i]);
        lemma_digits_val_nonneg(s.subrange(0, i));
        lemma_digits_val_prefix_le(s, i + 1);
    }
}

/// A character that is neither a digit nor a point rules the whole string
/// out as a decimal literal.
proof fn lemma_nondigit_invalid(s: Seq<char>, i: int)
    requires
        0 <= i < s.len(),
        !is_digit(s[i]),
        s[i] != '.',
    ensures
        !valid_decimal(s),
{
    assert forall|j: int| !decimal_split_at(s, j) by {
        if decimal_split_at(s, j) {
            if i < j {
                assert(s.subrange(0, j)[i] == s[i]);
            } else {
                assert(i != j);
                assert(s.subrange(j + 1, s.len() as int)[i - j - 1] == s[i]);
            }
        }
    }
}

/// Only the position every other character is a digit around can be the
/// decimal point of a literal.
proof fn lemma_split_only_at(s: Seq<char>, j: int)
    requires
        0 <= j < s.len(),
        s[j] == '.',
        forall|m: int| 0 <= m < s.len() && m != j ==> is_digit(#[trigger] s[m]),
    ensures
        forall|k: int| decimal_split_at(s, k) ==> k == j,
        !(s.len() > 0 && all_digits(s)),
{
    assert(!is_digit('.'));
    assert forall|k: int| decimal_split_at(s, k) implies k == j by {
        if k != j {
            if j < k {
                assert(s.subrange(0, k)[j] == s[j]);
            } else {
                assert(s.subrange(k + 1, s.len() as int)[j - k - 1] == s[j]);
            }
        }
    }
}

/// A string with two points is not a decimal literal.
proof fn lemma_second_dot_invalid(s: Seq<char>, j1: int, j2: int)
    requires
        0 <= j1 < j2 < s.len(),
        s[j1] == '.',
        s[j2] == '.',
    ensures
        !valid_decimal(s),
{
    assert(!is_digit('.'));
    assert forall|k: int| !decimal_split_at(s, k) by {
        if decimal_split_at(s, k) {
            let jx: int = if j1 != k {
                j1
            } else {
                j2
            };
            if jx < k {
                assert(s.subrange(0, k)[jx] == s[jx]);
            } else {
                assert(s.subrange(k + 1, s.len() as int)[jx - k - 1] == s[jx]);
            }
        }
    }
}

/// The value of the digit run `s[from..to]`, or `None` when it exceeds
/// `u64::MAX`.
fn digits_value(s: &str, from: usize, to: usize) -> (r: Option<u64>)
    requires
        from <= to <= s@.len(),
        all_digits(s@.subrange(from as int, to as int)),
    ensures
        match r {
            Some(v) => v == digits_val(s@.subrange(from as int, to as int)),
            None => digits_val(s@.subrange(from as int, to as int)) > u64::MAX,
        },
{
    let ghost whole = s@.subrange(from as int, to as int);
    let mut acc: u128 = 0;
    let mut i: usize = from;
    while i < to
        invariant
            from <= i <= to <= s@.len(),
            all_digits(whole),
            whole == s@.subrange(from as int, to as int),
            acc == digits_val(s@.subrange(from as int, i as int)),
            acc <= u64::MAX,
        decreases to - i,
    {
        proof {
            assert(whole[i - from] == s@[i as int]);
        }
        let c = s.get_char(i);
        let d: u128 = (c as u32 - 48) as u128;
        let next: u128 = acc * 10 + d;
        proof {
            let a = s@.subrange(from as int, i + 1);
            assert(a.drop_last() =~= s@.subrange(from as int, i as int));
            assert(a.last() == s@[i as int]);
        }
        if next > u64::MAX as u128 {
            proof {
                assert(whole.subrange(0, i + 1 - from) =~= s@.subrange(from as int, i + 1));
                lemma_digits_val_prefix_le(whole, i + 1 - from);
            }
            return None;
        }
        acc = next;
        i += 1;
    }
    proof {
        assert(s@.subrange(from as int, i as int) =~= whole);
    }
    Some(acc as u64)
}

/// Ten to the power `e`, for `e` up to `MAX_FRAC_DIGITS`.
fn pow10_u64(e: usize) -> (r: u64)
    requires
        e <= MAX_FRAC_DIGITS,
    ensures
        r == pow10(e as nat),
        r <= 100_000_000,
{
    proof {
        reveal_with_fuel(pow10, 9);
    }
    if e == 0 {
        1
    } else if e == 1 {
        10
    } else if e == 2 {
        100
    } else if e == 3 {
        1_000
    } else if e == 4 {
        10_000
    } else if e == 5 {
        100_000
    } else if e == 6 {
        1_000_000
    } else if e == 7 {
        10_000_000
    } else {
        100_000_000
    }
}

/// Parses a non-negative decimal literal (`digits` or `digits.digits`, at
/// most `MAX_FRAC_DIGITS` fractional digits) into fixed-point units of
/// `1 / DECIMAL_SCALE`. Returns `None` exactly when the text is not such a
/// literal or its value does not fit in a `u64`.
pub fn parse_decimal(s: &str) -> (r: Option<u64>)
    ensures
        r is Some <==> valid_decimal(s@) && decimal_units(s@) <= u64::MAX,
        r matches Some(v) ==> v == decimal_units(s@),
{
    let n = s.unicode_len();
    // Locate the decimal point; every other character must be a digit.
    let mut dot: Option<usize> = None;
    let mut i: usize = 0;
    while i < n
        invariant
            n == s@.len(),
            i <= n,
            match dot {
                Some(j) => {
                    &&& j < i
                    &&& s@[j as int] == '.'
                    &&& forall|m: int| 0 <= m < i && m != j ==> is_digit(#[trigger] s@[m])
                },
                None => forall|m: int| 0 <= m < i ==> is_digit(#[trigger] s@[m]),
            },
        decreases n - i,
    {
        let c = s.get_char(i);
        if c == '.' {
            match dot {
                Some(j) => {
                    proof {
                        lemma_second_dot_invalid(s@, j as int, i as int);
                    }
                    return None;
                },
                None => {
                    dot = Some(i);
                },
            }
        } else {
            let cv = c as u32;
            if cv < 48 || cv > 57 {
                proof {
                    lemma_nondigit_invalid(s@, i as int);
                }
                return None;
            }
        }
        i += 1;
    }
    match dot {
        None => {
            if n == 0 {
                // The empty string denotes nothing.
                return None;
            }
            let iv = match digits_value(s, 0, n) {
                Some(iv) => iv,
                None => {
                    proof {
                        assert(s@.subrange(0, n as int) =~= s@);
                        lemma_scaled_exceeds(digits_val(s@));
                    }
                    return None;
                },
            };
            proof {
                assert(s@.subrange(0, n as int) =~= s@);
            }
            let wide: u128 = iv as u128 * DECIMAL_SCALE as u128;
            if wide > u64::MAX as u128 {
                return None;
            }
            Some(wide as u64)
        },
        Some(j) => {
            proof {
                lemma_split_only_at(s@, j as int);
            }
            if j < 1 || j + 1 >= n || n - (j + 1) > MAX_FRAC_DIGITS {
                // No digits before the point, none after it, or too many
                // fractional digits: not a literal this format admits.
                return None;
            }
            proof {
                assert forall|m: int| 0 <= m < j implies is_digit(
                    #[trigger] s@.subrange(0, j as int)[m],
                ) by {}
                assert forall|m: int| 0 <= m < n - (j + 1) implies is_digit(
                    #[trigger] s@.subrange(j + 1, n as int)[m],
                ) by {}
                assert(decimal_split_at(s@, j as int));
            }
            let frac_len: usize = n - (j + 1);
            let iv = match digits_value(s, 0, j) {
                Some(iv) => iv,
                None => {
                    proof {
                        lemma_units_exceed_when_int_part_large(s@, j as int);
                    }
                    return None;
                },
            };
            let fv = match digits_value(s, j + 1, n) {
                Some(fv) => fv,
                None => {
                    proof {
                        // At most MAX_FRAC_DIGITS digits always fit.
                        lemma_digits_val_bound(s@.subrange(j + 1, n as int));
                        lemma_pow10_le(s@.subrange(j + 1, n as int).len() as nat, 8);
                        reveal_with_fuel(pow10, 9);
                    }
                    return None;
                },
            };
            proof {
                lemma_digits_val_bound(s@.subrange(j + 1, n as int));
                lemma_pow10_le(s@.subrange(j + 1, n as int).len() as nat, 8);
                reveal_with_fuel(pow10, 9);
            }
            let scale = pow10_u64(MAX_FRAC_DIGITS - frac_len);
            proof {
                vstd::arithmetic::mul::lemma_mul_upper_bound(
                    fv as int,
                    100_000_000 - 1,
                    scale as int,
                    100_000_000,
                );
                lemma_units_formula(s@, j as int);
            }
            let wide: u128 = iv as u128 * DECIMAL_SCALE as u128 + fv as u128 * scale as u128;
            if wide > u64::MAX as u128 {
                return None;
            }
            Some(wide as u64)
        },
    }
}

/// A digit-string value above `u64::MAX` stays above it once scaled.
proof fn lemma_scaled_exceeds(v: int)
    requires
        v > u64::MAX,
    ensures
        v * DECIMAL_SCALE > u64::MAX,
{
}

proof fn lemma_pow10_le(a: nat, b: nat)
    requires
        a <= b,
    ensures
        pow10(a) <= pow10(b),
    decreases b,
{
    if a < b {
        lemma_pow10_le(a, (b - 1) as nat);
        lemma_pow10_pos((b - 1) as nat);
    }
}

/// When the integer part alone exceeds `u64::MAX`, so does the whole value.
proof fn lemma_units_exceed_when_int_part_large(s: Seq<char>, j: int)
    requires
        decimal_split_at(s, j),
        forall|k: int| decimal_split_at(s, k) ==> k == j,
        !(s.len() > 0 && all_digits(s)),
        digits_val(s.subrange(0, j)) > u64::MAX,
    ensures
        decimal_units(s) > u64::MAX,
{
    let jc = choose|k: int| decimal_split_at(s, k);
    assert(jc == j);
    lemma_digits_val_nonneg(s.subrange(j + 1, s.len() as int));
    lemma_pow10_pos((MAX_FRAC_DIGITS - (s.len() - j - 1)) as nat);
    lemma_scaled_exceeds(digits_val(s.subrange(0, j)));
    vstd::arithmetic::mul::lemma_mul_nonnegative(
        digits_val(s.subrange(j + 1, s.len() as int)),
        pow10((MAX_FRAC_DIGITS - (s.len() - j - 1)) as nat),
    );
}

/// Unfolds `decimal_units` at the (unique) split position.
proof fn lemma_units_formula(s: Seq<char>, j: int)
    requires
        decimal_split_at(s, j),
        forall|k: int| decimal_split_at(s, k) ==> k == j,
        !(s.len() > 0 && all_digits(s)),
    ensures
        decimal_units(s) == digits_val(s.subrange(0, j)) * DECIMAL_SCALE + digits_val(
            s.subrange(j + 1, s.len() as int),
        ) * pow10((MAX_FRAC_DIGITS - (s.len() - j - 1)) as nat),
{
    let jc = choose|k: int| decimal_split_at(s, k);
    assert(jc == j);
}

} // verus!
