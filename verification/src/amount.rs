//! Token amounts.
//!
//! Callers state amounts as decimal strings in whole FIL; the chain counts
//! in atto-FIL, a fixed 18 fractional digits.  An amount is accepted exactly
//! when it is a decimal numeral with at most 18 fractional digits — so it is
//! representable in the integer unit without rounding — and its value in
//! atto-FIL fits the carrier integer.

use vstd::prelude::*;

use crate::error::Error;

verus! {

/// Atto units per whole FIL: ten to the eighteenth.
pub const ATTO_PER_FIL: u128 = 1_000_000_000_000_000_000;

/// The number of fractional digits of the atto unit.
pub const ATTO_DIGITS: usize = 18;

/// Ten to the `n`.
pub open spec fn pow10(n: nat) -> int
    decreases n,
{
    if n == 0 {
        1
    } else {
        10 * pow10((n - 1) as nat)
    }
}

/// True of the ten decimal digit characters.
pub open spec fn is_digit(c: char) -> bool {
    48 <= c as u32 && c as u32 <= 57
}

/// The numeric value of a digit character.
pub open spec fn digit_val(c: char) -> int {
    c as u32 - 48
}

/// True when every character is a decimal digit.
pub open spec fn all_digits(s: Seq<char>) -> bool {
    forall|i: int| 0 <= i < s.len() ==> is_digit(#[trigger] s[i])
}

/// The value of a digit string read in base ten; 0 for the empty string.
pub open spec fn digits_val(s: Seq<char>) -> int
    decreases s.len(),
{
    if s.len() == 0 {
        0
    } else {
        10 * digits_val(s.drop_last()) + digit_val(s.last())
    }
}

/// The index of the first `.`, or -1 when there is none.
pub open spec fn first_dot(s: Seq<char>) -> int
    decreases s.len(),
{
    if s.len() == 0 {
        -1
    } else if s[0] == '.' {
        0
    } else if first_dot(s.subrange(1, s.len() as int)) == -1 {
        -1
    } else {
        1 + first_dot(s.subrange(1, s.len() as int))
    }
}

/// The whole-FIL digits of the amount text: everything before the dot.
pub open spec fn whole_part(s: Seq<char>) -> Seq<char> {
    if first_dot(s) == -1 {
        s
    } else {
        s.subrange(0, first_dot(s))
    }
}

/// The fractional digits of the amount text: everything after the dot.
pub open spec fn frac_part(s: Seq<char>) -> Seq<char> {
    if first_dot(s) == -1 {
        Seq::empty()
    } else {
        s.subrange(first_dot(s) + 1, s.len() as int)
    }
}

/// The amount grammar: one or more whole digits, then optionally a dot and
/// one to eighteen fractional digits.
pub open spec fn amount_grammar(s: Seq<char>) -> bool {
    &&& whole_part(s).len() >= 1
    &&& all_digits(whole_part(s))
    &&& (first_dot(s) >= 0 ==> 1 <= frac_part(s).len() <= ATTO_DIGITS && all_digits(
        frac_part(s),
    ))
}

/// The value of the amount text in atto units, as an unbounded integer.
pub open spec fn amount_value(s: Seq<char>) -> int {
    digits_val(whole_part(s)) * pow10(ATTO_DIGITS as nat) + digits_val(frac_part(s)) * pow10(
        (ATTO_DIGITS - frac_part(s).len()) as nat,
    )
}

/// The atto units an amount text stands for: `None` when the text is not of
/// the grammar or the value does not fit the carrier.
pub open spec fn spec_fil_atto(s: Seq<char>) -> Option<int> {
    if amount_grammar(s) && amount_value(s) <= u128::MAX {
        Some(amount_value(s))
    } else {
        None
    }
}

/// The first-dot index is -1 or a position holding a dot.
pub proof fn lemma_first_dot_range(s: Seq<char>)
    ensures
        -1 <= first_dot(s) < s.len(),
        first_dot(s) >= 0 ==> s[first_dot(s)] == '.',
    decreases s.len(),
{
    if s.len() == 0 {
    } else if s[0] == '.' {
    } else {
        let rest = s.subrange(1, s.len() as int);
        lemma_first_dot_range(rest);
        if first_dot(rest) >= 0 {
            assert(rest[first_dot(rest)] == s[first_dot(rest) + 1]);
        }
    }
}

/// Ten to the `n` is positive.
pub proof fn lemma_pow10_pos(n: nat)
    ensures
        pow10(n) >= 1,
    decreases n,
{
    if n > 0 {
        lemma_pow10_pos((n - 1) as nat);
    }
}

/// Ten to the `n` is positive and never decreases in `n`.
pub proof fn lemma_pow10_bounds(a: nat, b: nat)
    requires
        a <= b,
    ensures
        1 <= pow10(a) <= pow10(b),
    decreases b,
{
    lemma_pow10_pos(a);
    if a < b {
        lemma_pow10_bounds(a, (b - 1) as nat);
        lemma_pow10_pos((b - 1) as nat);
    }
}

/// Ten-powers multiply by adding exponents.
pub proof fn lemma_pow10_add(a: nat, b: nat)
    ensures
        pow10(a) * pow10(b) == pow10(a + b),
    decreases b,
{
    if b == 0 {
    } else {
        lemma_pow10_add(a, (b - 1) as nat);
        assert(pow10(a) * pow10(b) == pow10(a) * (10 * pow10((b - 1) as nat)))
            by (nonlinear_arith)
            requires
                pow10(b) == 10 * pow10((b - 1) as nat),
        ;
        assert(pow10(a) * (10 * pow10((b - 1) as nat)) == 10 * (pow10(a) * pow10(
            (b - 1) as nat,
        ))) by (nonlinear_arith);
    }
}

/// A digit string's value is non-negative and below ten to its length.
pub proof fn lemma_digits_val_bounds(s: Seq<char>)
    requires
        all_digits(s),
    ensures
        0 <= digits_val(s) < pow10(s.len()),
    decreases s.len(),
{
    if s.len() == 0 {
    } else {
        let prefix = s.drop_last();
        assert(all_digits(prefix)) by {
            assert(forall|i: int| 0 <= i < prefix.len() ==> prefix[i] == s[i]);
        }
        lemma_digits_val_bounds(prefix);
        assert(is_digit(s.last()));
        assert(pow10(s.len()) == 10 * pow10(prefix.len()));
    }
}

/// Extending a digit string to the right never shrinks its value.
proof fn lemma_digits_val_prefix(s: Seq<char>, i: int)
    requires
        all_digits(s),
        0 <= i <= s.len(),
    ensures
        digits_val(s) >= digits_val(s.subrange(0, i)),
    decreases s.len() - i,
{
    if i == s.len() {
        assert(s.subrange(0, i) =~= s);
    } else {
        lemma_digits_val_prefix(s, i + 1);
        let shorter = s.subrange(0, i);
        let longer = s.subrange(0, i + 1);
        assert(longer.drop_last() =~= shorter);
        assert(longer.last() == s[i]);
        assert(all_digits(shorter)) by {
            assert(forall|j: int| 0 <= j < i ==> shorter[j] == s[j]);
        }
        lemma_digits_val_bounds(shorter);
        assert(digits_val(longer) == 10 * digits_val(shorter) + digit_val(s[i]));
    }
}

/// Converts a decimal amount of whole FIL to atto units.  Accepts exactly
/// the texts of the amount grammar whose value fits the carrier; everything
/// else is `InvalidAmount`.
pub fn fil_to_atto(s: &str) -> (r: Result<u128, Error>)
    ensures
        r matches Ok(v) ==> spec_fil_atto(s@) == Some(v as int),
        r matches Err(e) ==> e == Error::InvalidAmount && spec_fil_atto(s@) is None,
{
    let n = s.unicode_len();
    // Find the first dot; `n` stands for none.
    let mut dot: usize = n;
    let mut i: usize = 0;
    while i < n
        invariant
            n == s@.len(),
            i <= n,
            dot == n || (dot < i && s@[dot as int] == '.'),
            dot == n ==> forall|j: int| 0 <= j < i ==> s@[j] != '.',
            dot < n ==> forall|j: int| 0 <= j < dot ==> s@[j] != '.',
        decreases n - i,
    {
        if s.get_char(i) == '.' && dot == n {
            dot = i;
        }
        i += 1;
    }
    proof {
        lemma_first_dot_agrees(s@, dot as int);
    }
    let wend = if dot < n {
        dot
    } else {
        n
    };
    assert(whole_part(s@) == s@.subrange(0, wend as int));
    if wend == 0 {
        return Err(Error::InvalidAmount);
    }
    let flen = if dot < n {
        n - dot - 1
    } else {
        0
    };
    proof {
        if dot < n {
            assert(frac_part(s@) == s@.subrange(dot + 1, n as int));
        }
        assert(frac_part(s@).len() == flen);
    }
    if dot < n && (flen == 0 || flen > ATTO_DIGITS) {
        return Err(Error::InvalidAmount);
    }
    // Whole part.
    let whole = match digits_value(s, 0, wend) {
        Ok(v) => v,
        Err(_) => {
            proof {
                lemma_whole_overflow(s@);
            }
            return Err(Error::InvalidAmount);
        },
    };
    // Fractional part: at most eighteen digits, so it always fits.
    let frac = if dot < n {
        match digits_value(s, dot + 1, n) {
            Ok(v) => v,
            Err(_) => {
                proof {
                    if all_digits(frac_part(s@)) {
                        lemma_digits_val_bounds(frac_part(s@));
                        lemma_pow10_bounds(flen as nat, ATTO_DIGITS as nat);
                        reveal_with_fuel(pow10, 19);
                        assert(pow10(ATTO_DIGITS as nat) == ATTO_PER_FIL as int);
                    }
                }
                return Err(Error::InvalidAmount);
            },
        }
    } else {
        0
    };
    proof {
        lemma_digits_val_bounds(frac_part(s@));
        lemma_pow10_bounds(0, (ATTO_DIGITS - flen) as nat);
        lemma_pow10_bounds(flen as nat, ATTO_DIGITS as nat);
        lemma_pow10_add(flen as nat, (ATTO_DIGITS - flen) as nat);
        reveal_with_fuel(pow10, 19);
        assert(pow10(ATTO_DIGITS as nat) == ATTO_PER_FIL as int);
    }
    let scale = pow10_exec(ATTO_DIGITS - flen);
    assert(frac * scale < ATTO_PER_FIL) by (nonlinear_arith)
        requires
            0 <= frac < pow10(flen as nat),
            scale == pow10((ATTO_DIGITS - flen) as nat),
            pow10(flen as nat) * pow10((ATTO_DIGITS - flen) as nat) == pow10(ATTO_DIGITS as nat),
            pow10(ATTO_DIGITS as nat) == ATTO_PER_FIL as int,
            scale >= 1,
    ;
    let frac_scaled = frac * scale;
    // The whole part scales by the full atto factor; reject exactly when the
    // sum would leave the carrier.
    let cap = (u128::MAX - frac_scaled) / ATTO_PER_FIL;
    if whole > cap {
        proof {
            lemma_scale_overflow(whole as int, frac_scaled as int, cap as int);
        }
        return Err(Error::InvalidAmount);
    }
    assert(whole * ATTO_PER_FIL + frac_scaled <= u128::MAX) by {
        lemma_scale_fits(whole as int, frac_scaled as int, cap as int);
    }
    Ok(whole * ATTO_PER_FIL + frac_scaled)
}

/// The scan result pins down `first_dot`.
proof fn lemma_first_dot_agrees(s: Seq<char>, dot: int)
    requires
        dot == s.len() ==> forall|j: int| 0 <= j < s.len() ==> s[j] != '.',
        dot < s.len() ==> 0 <= dot && s[dot] == '.' && forall|j: int|
            0 <= j < dot ==> s[j] != '.',
        0 <= dot <= s.len(),
    ensures
        dot == s.len() ==> first_dot(s) == -1,
        dot < s.len() ==> first_dot(s) == dot,
    decreases s.len(),
{
    if s.len() == 0 {
    } else if s[0] == '.' {
    } else {
        let rest = s.subrange(1, s.len() as int);
        assert(forall|j: int| 0 <= j < rest.len() ==> rest[j] == s[j + 1]);
        lemma_first_dot_agrees(rest, dot - 1);
    }
}

/// If the whole part has a bad character or leaves the carrier on its own,
/// the amount is rejected.
proof fn lemma_whole_overflow(s: Seq<char>)
    requires
        !all_digits(whole_part(s)) || digits_val(whole_part(s)) > u128::MAX,
    ensures
        spec_fil_atto(s) is None,
{
    if amount_grammar(s) {
        assert(all_digits(frac_part(s))) by {
            lemma_first_dot_range(s);
            if first_dot(s) == -1 {
                assert(frac_part(s).len() == 0);
            }
        }
        lemma_digits_val_bounds(frac_part(s));
        lemma_pow10_bounds(0, (ATTO_DIGITS - frac_part(s).len()) as nat);
        lemma_pow10_bounds(0, ATTO_DIGITS as nat);
        assert(amount_value(s) > u128::MAX) by (nonlinear_arith)
            requires
                digits_val(whole_part(s)) > u128::MAX,
                pow10(ATTO_DIGITS as nat) >= 1,
                digits_val(frac_part(s)) >= 0,
                pow10((ATTO_DIGITS - frac_part(s).len()) as nat) >= 1,
                amount_value(s) == digits_val(whole_part(s)) * pow10(ATTO_DIGITS as nat)
                    + digits_val(frac_part(s)) * pow10(
                    (ATTO_DIGITS - frac_part(s).len()) as nat,
                ),
        ;
    }
}

/// Rejecting above the cap is exact: the scaled sum leaves the carrier.
proof fn lemma_scale_overflow(whole: int, frac_scaled: int, cap: int)
    requires
        0 <= frac_scaled <= u128::MAX,
        cap == (u128::MAX - frac_scaled) / (ATTO_PER_FIL as int),
        whole > cap,
    ensures
        whole * (ATTO_PER_FIL as int) + frac_scaled > u128::MAX,
{
    let m = u128::MAX - frac_scaled;
    let c = ATTO_PER_FIL as int;
    vstd::arithmetic::div_mod::lemma_fundamental_div_mod(m, c);
    assert(whole * c >= (cap + 1) * c) by (nonlinear_arith)
        requires
            whole >= cap + 1,
            c > 0,
    ;
    assert((cap + 1) * c == cap * c + c) by (nonlinear_arith);
    assert(cap * c > m - c);
}

/// Accepting at or below the cap is exact: the scaled sum fits the carrier.
proof fn lemma_scale_fits(whole: int, frac_scaled: int, cap: int)
    requires
        0 <= frac_scaled <= u128::MAX,
        0 <= whole <= cap,
        cap == (u128::MAX - frac_scaled) / (ATTO_PER_FIL as int),
    ensures
        whole * (ATTO_PER_FIL as int) + frac_scaled <= u128::MAX,
{
    let m = u128::MAX - frac_scaled;
    let c = ATTO_PER_FIL as int;
    vstd::arithmetic::div_mod::lemma_fundamental_div_mod(m, c);
    assert(whole * c <= cap * c) by (nonlinear_arith)
        requires
            0 <= whole <= cap,
            c > 0,
    ;
    assert(cap * c <= m);
}

/// Ten to the `e`, for exponents up to the atto digit count.
fn pow10_exec(e: usize) -> (r: u128)
    requires
        e <= ATTO_DIGITS,
    ensures
        r == pow10(e as nat),
{
    let mut r: u128 = 1;
    let mut j: usize = 0;
    while j < e
        invariant
            j <= e <= ATTO_DIGITS,
            r == pow10(j as nat),
        decreases e - j,
    {
        proof {
            lemma_pow10_bounds(j as nat, (ATTO_DIGITS - 1) as nat);
            reveal_with_fuel(pow10, 19);
            assert(pow10(ATTO_DIGITS as nat) == ATTO_PER_FIL as int);
            assert(pow10((ATTO_DIGITS - 1) as nat) * 10 == pow10(ATTO_DIGITS as nat));
        }
        r = r * 10;
        j += 1;
    }
    r
}

/// The value of the digit run `s[from..to)`: `Err` when a character is not
/// a digit, or when the run's value leaves the carrier.
fn digits_value(s: &str, from: usize, to: usize) -> (r: Result<u128, Error>)
    requires
        from <= to <= s@.len(),
    ensures
        r matches Ok(v) ==> all_digits(s@.subrange(from as int, to as int)) && v == digits_val(
            s@.subrange(from as int, to as int),
        ),
        r matches Err(e) ==> e == Error::InvalidAmount && (!all_digits(
            s@.subrange(from as int, to as int),
        ) || digits_val(s@.subrange(from as int, to as int)) > u128::MAX),
{
    let ghost run = s@.subrange(from as int, to as int);
    let mut acc: u128 = 0;
    let mut i: usize = from;
    while i < to
        invariant
            from <= i <= to <= s@.len(),
            run == s@.subrange(from as int, to as int),
            all_digits(s@.subrange(from as int, i as int)),
            acc == digits_val(s@.subrange(from as int, i as int)),
        decreases to - i,
    {
        let c = s.get_char(i);
        let u = c as u32;
        if !(48 <= u && u <= 57) {
            proof {
                assert(run[i - from] == s@[i as int]);
            }
            return Err(Error::InvalidAmount);
        }
        let d = (u - 48) as u128;
        let ghost prefix = s@.subrange(from as int, i as int);
        let ghost longer = s@.subrange(from as int, i + 1);
        proof {
            assert(longer.drop_last() =~= prefix);
            assert(longer.last() == s@[i as int]);
        }
        if acc > (u128::MAX - d) / 10 {
            proof {
                lemma_digit_step_overflow(acc as int, d as int);
                assert(all_digits(longer));
                assert(run.subrange(0, i + 1 - from) =~= longer);
                if all_digits(run) {
                    lemma_digits_val_prefix(run, i + 1 - from);
                }
            }
            return Err(Error::InvalidAmount);
        }
        proof {
            lemma_digit_step_fits(acc as int, d as int);
        }
        acc = acc * 10 + d;
        i += 1;
    }
    proof {
        assert(s@.subrange(from as int, to as int) =~= run);
    }
    Ok(acc)
}

/// Rejecting a digit step above the threshold is exact.
proof fn lemma_digit_step_overflow(acc: int, d: int)
    requires
        0 <= d <= 9,
        0 <= acc <= u128::MAX,
        acc > (u128::MAX - d) / 10,
    ensures
        acc * 10 + d > u128::MAX,
{
    let m = u128::MAX - d;
    vstd::arithmetic::div_mod::lemma_fundamental_div_mod(m, 10);
    assert(acc * 10 >= (m / 10 + 1) * 10) by (nonlinear_arith)
        requires
            acc >= m / 10 + 1,
    ;
    assert((m / 10 + 1) * 10 == (m / 10) * 10 + 10) by (nonlinear_arith);
}

/// Accepting a digit step at or below the threshold is exact.
proof fn lemma_digit_step_fits(acc: int, d: int)
    requires
        0 <= d <= 9,
        0 <= acc,
        acc <= (u128::MAX - d) / 10,
    ensures
        acc * 10 + d <= u128::MAX,
{
    let m = u128::MAX - d;
    vstd::arithmetic::div_mod::lemma_fundamental_div_mod(m, 10);
    assert(acc * 10 <= (m / 10) * 10) by (nonlinear_arith)
        requires
            0 <= acc <= m / 10,
    ;
}

} // verus!
