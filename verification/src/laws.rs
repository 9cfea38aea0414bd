//! Algebraic laws of the polynomial operations, proved over the model.

use vstd::prelude::*;

use crate::model::add_seq;
use crate::model::div_loop;
use crate::model::div_rem_seq;
use crate::model::exact_steps;
use crate::model::fits_i32;
use crate::model::is_normalized;
use crate::model::leading;
use crate::model::normalize_seq;
use crate::model::scale_seq;
use crate::model::step_diff;
use crate::model::step_fits;
use crate::model::step_result;
use crate::model::sub_seq;
use crate::model::trunc_div;

verus! {

/// Normalizing is idempotent, and its result has no trailing zero
/// coefficient unless it is empty.
pub proof fn lemma_normalize_idempotent(s: Seq<i32>)
    ensures
        normalize_seq(normalize_seq(s)) == normalize_seq(s),
        is_normalized(normalize_seq(s)),
    decreases s.len(),
{
    if s.len() == 0 || s.last() != 0 {
    } else {
        lemma_normalize_idempotent(s.drop_last());
    }
}

/// Normalizing never lengthens a coefficient sequence.
proof fn lemma_normalize_len(s: Seq<i32>)
    ensures
        normalize_seq(s).len() <= s.len(),
    decreases s.len(),
{
    if s.len() == 0 || s.last() != 0 {
    } else {
        lemma_normalize_len(s.drop_last());
    }
}

/// A sequence of zero coefficients normalizes to the empty sequence.
proof fn lemma_normalize_all_zero(s: Seq<i32>)
    requires
        forall|i: int| 0 <= i < s.len() ==> s[i] == 0,
    ensures
        normalize_seq(s) == Seq::<i32>::empty(),
    decreases s.len(),
{
    if s.len() == 0 {
        assert(s =~= Seq::<i32>::empty());
    } else {
        assert(s.last() == 0);
        lemma_normalize_all_zero(s.drop_last());
    }
}

/// The empty polynomial is an identity of addition: adding it to a
/// normalized sequence gives that sequence back.
pub proof fn lemma_add_empty_identity(a: Seq<i32>)
    requires
        is_normalized(a),
    ensures
        normalize_seq(add_seq(a, Seq::empty())) == a,
{
    assert(add_seq(a, Seq::empty()) =~= a);
}

/// Addition of coefficient sequences is commutative, before and after
/// normalization.
pub proof fn lemma_add_commutative(a: Seq<i32>, b: Seq<i32>)
    ensures
        add_seq(a, b) == add_seq(b, a),
        normalize_seq(add_seq(a, b)) == normalize_seq(add_seq(b, a)),
{
    assert(add_seq(a, b) =~= add_seq(b, a));
}

/// Subtracting a coefficient sequence from itself yields the empty
/// polynomial.
pub proof fn lemma_sub_self_cancels(a: Seq<i32>)
    ensures
        normalize_seq(sub_seq(a, a)) == Seq::<i32>::empty(),
{
    lemma_normalize_all_zero(sub_seq(a, a));
}

/// Multiplying by the zero scalar yields the empty polynomial, whatever the
/// operand's degree.
pub proof fn lemma_scale_zero_annihilates(a: Seq<i32>)
    ensures
        normalize_seq(scale_seq(a, 0)) == Seq::<i32>::empty(),
{
    lemma_normalize_all_zero(scale_seq(a, 0));
}

/// Induction behind the remainder-degree bound: with exact division at every
/// step and enough fuel, the division loop leaves a working remainder that is
/// empty or strictly shorter than the divisor.
proof fn lemma_div_loop_degree(rem: Seq<i32>, div: Seq<i32>, quot: Seq<i32>, fuel: nat)
    requires
        is_normalized(rem),
        is_normalized(div),
        div.len() > 0,
        rem.len() <= fuel,
        exact_steps(rem, div, fuel),
    ensures
        div_loop(rem, div, quot, fuel) matches Some(qm) ==> qm.1.len() == 0 || qm.1.len()
            < div.len(),
    decreases fuel,
{
    if fuel == 0 {
    } else {
        let c: int = trunc_div(leading(rem) as int, leading(div) as int);
        if !fits_i32(c) {
        } else if div.len() > rem.len() || c == 0 {
            if rem.len() >= div.len() {
                // a step was available, so the division there was exact; a
                // zero coefficient would make the nonzero leading
                // coefficient of the normalized remainder vanish
                assert(leading(rem) as int == c * (leading(div) as int));
                assert(rem.len() > 0 && rem.last() == 0);
                assert(false);
            }
        } else if !step_fits(rem, div, c) {
        } else {
            let stepped: Seq<i32> = step_result(rem, div, c);
            let next: Seq<i32> = normalize_seq(stepped);
            // the leading term cancels exactly, so normalizing shortens the
            // working remainder by at least one coefficient
            assert(leading(rem) as int == c * (leading(div) as int));
            assert(step_diff(rem, div, c, rem.len() - 1) == 0);
            assert(stepped.last() == 0);
            assert(next == normalize_seq(stepped.drop_last()));
            lemma_normalize_len(stepped.drop_last());
            lemma_normalize_idempotent(stepped);
            lemma_div_loop_degree(next, div, seq![c as i32] + quot, (fuel - 1) as nat);
        }
    }
}

/// For a divisor that does not normalize to the empty polynomial, and a
/// division whose steps all divide exactly, any remainder that `div_rem`
/// returns is empty or of degree strictly less than the divisor's.
///
/// The exactness hypothesis cannot be dropped: truncating coefficient
/// division can stop the loop while the remainder is still as long as the
/// divisor.
pub proof fn lemma_div_rem_degree_bound(dividend: Seq<i32>, divisor: Seq<i32>)
    requires
        normalize_seq(divisor).len() > 0,
        exact_steps(normalize_seq(dividend), normalize_seq(divisor), normalize_seq(dividend).len()),
    ensures
        div_rem_seq(dividend, divisor) matches Some(qm) ==> qm.1.len() == 0 || qm.1.len()
            < normalize_seq(divisor).len(),
{
    lemma_normalize_idempotent(dividend);
    lemma_normalize_idempotent(divisor);
    lemma_div_loop_degree(
        normalize_seq(dividend),
        normalize_seq(divisor),
        Seq::empty(),
        normalize_seq(dividend).len(),
    );
}

} // verus!
