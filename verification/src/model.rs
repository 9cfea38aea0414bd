//! Mathematical model of the polynomial operations.
//!
//! A polynomial is modelled as a `Seq<i32>` of coefficients in
//! ascending-degree order. All executable operations in `vector` are
//! specified against the functions here.

use vstd::prelude::*;

verus! {

/// A coefficient sequence is in normalized form when it has no trailing zero
/// coefficient. The empty sequence stands for the zero polynomial.
pub open spec fn is_normalized(s: Seq<i32>) -> bool {
    s.len() == 0 || s.last() != 0
}

/// Strip trailing zero coefficients from the high-degree end.
pub open spec fn normalize_seq(s: Seq<i32>) -> Seq<i32>
    decreases s.len(),
{
    if s.len() == 0 || s.last() != 0 {
        s
    } else {
        normalize_seq(s.drop_last())
    }
}

/// Coefficient of `s` at position `i`, reading positions past either end as
/// zero, so that two sequences of different lengths align termwise.
pub open spec fn coeff_at(s: Seq<i32>, i: int) -> i32 {
    if 0 <= i < s.len() {
        s[i]
    } else {
        0
    }
}

/// Whether a mathematical integer is representable as an `i32` coefficient.
pub open spec fn fits_i32(x: int) -> bool {
    i32::MIN <= x <= i32::MAX
}

pub open spec fn max_len(a: Seq<i32>, b: Seq<i32>) -> nat {
    if a.len() >= b.len() {
        a.len()
    } else {
        b.len()
    }
}

/// Termwise sum of two coefficient sequences, the shorter one padded with
/// zeros at the high-degree end. The result is not yet normalized.
pub open spec fn add_seq(a: Seq<i32>, b: Seq<i32>) -> Seq<i32> {
    Seq::new(max_len(a, b), |i: int| (coeff_at(a, i) + coeff_at(b, i)) as i32)
}

/// Every termwise sum of `a` and `b` is representable as an `i32`.
pub open spec fn add_fits(a: Seq<i32>, b: Seq<i32>) -> bool {
    forall|i: int|
        #![trigger coeff_at(a, i), coeff_at(b, i)]
        0 <= i < max_len(a, b) ==> fits_i32(coeff_at(a, i) + coeff_at(b, i))
}

/// Termwise difference of two coefficient sequences, aligned as in `add_seq`.
pub open spec fn sub_seq(a: Seq<i32>, b: Seq<i32>) -> Seq<i32> {
    Seq::new(max_len(a, b), |i: int| (coeff_at(a, i) - coeff_at(b, i)) as i32)
}

/// Every termwise difference of `a` and `b` is representable as an `i32`.
pub open spec fn sub_fits(a: Seq<i32>, b: Seq<i32>) -> bool {
    forall|i: int|
        #![trigger coeff_at(a, i), coeff_at(b, i)]
        0 <= i < max_len(a, b) ==> fits_i32(coeff_at(a, i) - coeff_at(b, i))
}

/// Every coefficient multiplied by the scalar `k`. Not yet normalized.
pub open spec fn scale_seq(s: Seq<i32>, k: i32) -> Seq<i32> {
    Seq::new(s.len(), |i: int| (s[i] * k) as i32)
}

/// Every product of a coefficient of `s` with `k` is representable.
pub open spec fn scale_fits(s: Seq<i32>, k: i32) -> bool {
    forall|i: int| #![trigger s[i]] 0 <= i < s.len() ==> fits_i32(s[i] * k)
}

/// Truncating integer division, the semantics of Rust's `/` on `i32`:
/// the quotient is rounded toward zero, unlike the Euclidean `/` of
/// specification arithmetic.
pub open spec fn trunc_div(x: int, d: int) -> int {
    if x == 0 {
        0
    } else if x > 0 && d > 0 {
        x / d
    } else if x < 0 && d < 0 {
        (x * -1) / (d * -1)
    } else if x < 0 {
        ((x * -1) / d) * -1
    } else {
        (x / (d * -1)) * -1
    }
}

/// The leading (highest-degree) coefficient read during a division step,
/// taken as zero when the working remainder is empty.
pub open spec fn leading(s: Seq<i32>) -> i32 {
    if s.len() == 0 {
        0
    } else {
        s.last()
    }
}

/// Exact integer value, at position `i`, of one division step's subtraction:
/// the working remainder minus the divisor scaled by `c` and shifted up by
/// the degree gap. Positions below the gap are left unchanged.
pub open spec fn step_diff(rem: Seq<i32>, div: Seq<i32>, c: int, i: int) -> int {
    let grade: int = rem.len() - div.len();
    if i >= grade {
        rem[i] - div[i - grade] * c
    } else {
        rem[i] as int
    }
}

/// Exact integer value, at position `i`, of the scaled and shifted divisor
/// that one division step subtracts from the working remainder.
pub open spec fn step_prod(rem: Seq<i32>, div: Seq<i32>, c: int, i: int) -> int {
    let grade: int = rem.len() - div.len();
    if i >= grade {
        div[i - grade] * c
    } else {
        0
    }
}

/// Every intermediate value of one division step is representable as `i32`.
pub open spec fn step_fits(rem: Seq<i32>, div: Seq<i32>, c: int) -> bool {
    (forall|i: int| 0 <= i < rem.len() ==> fits_i32(#[trigger] step_prod(rem, div, c, i)))
        && (forall|i: int| 0 <= i < rem.len() ==> fits_i32(#[trigger] step_diff(rem, div, c, i)))
}

/// The working remainder after one division step, before normalization.
pub open spec fn step_result(rem: Seq<i32>, div: Seq<i32>, c: int) -> Seq<i32> {
    Seq::new(rem.len(), |i: int| step_diff(rem, div, c, i) as i32)
}

/// The synthetic long-division loop, run for at most `fuel` steps on a
/// normalized working remainder `rem` and a normalized non-empty divisor
/// `div`, with `quot` the quotient coefficients produced so far.
///
/// Each step divides the leading coefficients with truncating division,
/// stops when the divisor is longer than the remainder or the coefficient is
/// zero, and otherwise subtracts the scaled, shifted divisor and prepends the
/// coefficient to the quotient. `None` means some intermediate value is not
/// representable as an `i32` coefficient.
pub open spec fn div_loop(rem: Seq<i32>, div: Seq<i32>, quot: Seq<i32>, fuel: nat) -> Option<
    (Seq<i32>, Seq<i32>),
>
    decreases fuel,
{
    if fuel == 0 {
        Some((quot, rem))
    } else {
        let c: int = trunc_div(leading(rem) as int, leading(div) as int);
        if !fits_i32(c) {
            None
        } else if div.len() > rem.len() || c == 0 {
            Some((quot, rem))
        } else if !step_fits(rem, div, c) {
            None
        } else {
            div_loop(
                normalize_seq(step_result(rem, div, c)),
                div,
                seq![c as i32] + quot,
                (fuel - 1) as nat,
            )
        }
    }
}

/// Quotient and remainder of polynomial long division: both inputs are
/// normalized first, and the loop runs for at most the normalized dividend's
/// length. Meaningful only for a divisor that does not normalize to the
/// empty sequence; `None` means an intermediate value is not representable.
pub open spec fn div_rem_seq(dividend: Seq<i32>, divisor: Seq<i32>) -> Option<
    (Seq<i32>, Seq<i32>),
> {
    let dd: Seq<i32> = normalize_seq(dividend);
    div_loop(dd, normalize_seq(divisor), Seq::empty(), dd.len())
}

/// At every division step that the loop performs on `rem`, the divisor's
/// leading coefficient divides the working remainder's leading coefficient
/// exactly, so no truncation occurs.
pub open spec fn exact_steps(rem: Seq<i32>, div: Seq<i32>, fuel: nat) -> bool
    decreases fuel,
{
    if fuel == 0 {
        true
    } else if rem.len() == 0 || rem.len() < div.len() {
        true
    } else {
        let c: int = trunc_div(leading(rem) as int, leading(div) as int);
        leading(rem) as int == c * (leading(div) as int) && exact_steps(
            normalize_seq(step_result(rem, div, c)),
            div,
            (fuel - 1) as nat,
        )
    }
}

} // verus!
