//! The executable polynomial type and its verified operations.

use vstd::prelude::*;

use crate::model::add_fits;
use crate::model::add_seq;
use crate::model::coeff_at;
use crate::model::div_loop;
use crate::model::div_rem_seq;
use crate::model::fits_i32;
use crate::model::is_normalized;
use crate::model::leading;
use crate::model::max_len;
use crate::model::normalize_seq;
use crate::model::scale_fits;
use crate::model::scale_seq;
use crate::model::step_diff;
use crate::model::step_fits;
use crate::model::step_prod;
use crate::model::step_result;
use crate::model::sub_fits;
use crate::model::sub_seq;
use crate::model::trunc_div;

verus! {

/// Why a division could not return a result.
#[derive(Debug, Clone, Copy, PartialEq, Eq)]
pub enum DivError {
    /// The divisor normalizes to the empty (zero) polynomial, for which the
    /// division algorithm has no defined behavior.
    EmptyDivisor,
    /// An intermediate coefficient of the computation is not representable
    /// as an `i32`.
    Overflow,
}

/// A polynomial held as its dense coefficient vector in ascending-degree
/// order: `inner[0] + inner[1] * x + ... + inner[n-1] * x^(n-1)`.
///
/// Constructors and arithmetic operations always return a value in
/// normalized form (no trailing zero coefficient); a raw value built from a
/// struct literal may be unnormalized until `normalize` is called on it.
#[derive(Debug, Clone, PartialEq, Eq)]
pub struct Vector {
    pub inner: Vec<i32>,
}

impl View for Vector {
    type V = Seq<i32>;

    open spec fn view(&self) -> Seq<i32> {
        self.inner@
    }
}

impl Vector {
    /// Enforce the normalized form: pop trailing zero coefficients from the
    /// high-degree end until the vector is empty or ends in a nonzero one.
    pub fn normalize(&mut self)
        ensures
            final(self)@ == normalize_seq(old(self)@),
            is_normalized(final(self)@),
    {
        let ghost orig: Seq<i32> = self.inner@;
        while self.inner.len() > 0 && self.inner[self.inner.len() - 1] == 0
            invariant
                normalize_seq(self.inner@) == normalize_seq(orig),
            decreases self.inner.len(),
        {
            proof {
                assert(self.inner@.drop_last() =~= self.inner@.subrange(
                    0,
                    self.inner@.len() - 1,
                ));
            }
            self.inner.pop();
        }
    }

    /// Build a polynomial from a raw coefficient vector, normalizing it.
    pub fn from_vec(coeffs: Vec<i32>) -> (r: Vector)
        ensures
            r@ == normalize_seq(coeffs@),
            is_normalized(r@),
    {
        let mut v = Vector { inner: coeffs };
        v.normalize();
        v
    }

    /// Build a polynomial from a raw coefficient slice, normalizing it.
    pub fn from_slice(coeffs: &[i32]) -> (r: Vector)
        ensures
            r@ == normalize_seq(coeffs@),
            is_normalized(r@),
    {
        let mut inner: Vec<i32> = Vec::new();
        for i in 0..coeffs.len()
            invariant
                inner@ == coeffs@.subrange(0, i as int),
        {
            inner.push(coeffs[i]);
            proof {
                assert(inner@ =~= coeffs@.subrange(0, i + 1));
            }
        }
        proof {
            assert(coeffs@.subrange(0, coeffs@.len() as int) =~= coeffs@);
        }
        let mut v = Vector { inner };
        v.normalize();
        v
    }

    /// The coefficients as a freshly allocated vector.
    pub fn to_vec(&self) -> (r: Vec<i32>)
        ensures
            r@ == self@,
    {
        let mut out: Vec<i32> = Vec::new();
        for i in 0..self.inner.len()
            invariant
                out@ == self.inner@.subrange(0, i as int),
        {
            out.push(self.inner[i]);
            proof {
                assert(out@ =~= self.inner@.subrange(0, i + 1));
            }
        }
        proof {
            assert(self.inner@.subrange(0, self.inner@.len() as int) =~= self.inner@);
        }
        out
    }

    /// The coefficients as a borrowed slice.
    pub fn as_slice(&self) -> (r: &[i32])
        ensures
            r@ == self@,
    {
        self.inner.as_slice()
    }

    /// Termwise addition, the shorter operand padded with zero coefficients
    /// at the high-degree end; the result is normalized. The empty polynomial
    /// is the identity and the operation is commutative.
    pub fn add(&self, rhs: &Vector) -> (r: Vector)
        requires
            add_fits(self@, rhs@),
        ensures
            r@ == normalize_seq(add_seq(self@, rhs@)),
            is_normalized(r@),
    {
        let l1: usize = self.inner.len();
        let l2: usize = rhs.inner.len();
        let n: usize = if l1 >= l2 {
            l1
        } else {
            l2
        };
        let mut out: Vec<i32> = Vec::new();
        for i in 0..n
            invariant
                n == max_len(self@, rhs@),
                l1 == self@.len(),
                l2 == rhs@.len(),
                add_fits(self@, rhs@),
                out@ == add_seq(self@, rhs@).subrange(0, i as int),
        {
            let x: i32 = if i < l1 {
                self.inner[i]
            } else {
                0
            };
            let y: i32 = if i < l2 {
                rhs.inner[i]
            } else {
                0
            };
            proof {
                assert(x == coeff_at(self@, i as int));
                assert(y == coeff_at(rhs@, i as int));
                assert(fits_i32(x + y));
            }
            out.push(x + y);
            proof {
                assert(out@ =~= add_seq(self@, rhs@).subrange(0, i + 1));
            }
        }
        proof {
            assert(add_seq(self@, rhs@).subrange(0, n as int) =~= add_seq(self@, rhs@));
        }
        let mut v = Vector { inner: out };
        v.normalize();
        v
    }

    /// Termwise subtraction, aligned as in `add`; the result is normalized.
    /// Subtracting a polynomial from itself yields the empty polynomial.
    pub fn sub(&self, rhs: &Vector) -> (r: Vector)
        requires
            sub_fits(self@, rhs@),
        ensures
            r@ == normalize_seq(sub_seq(self@, rhs@)),
            is_normalized(r@),
    {
        let l1: usize = self.inner.len();
        let l2: usize = rhs.inner.len();
        let n: usize = if l1 >= l2 {
            l1
        } else {
            l2
        };
        let mut out: Vec<i32> = Vec::new();
        for i in 0..n
            invariant
                n == max_len(self@, rhs@),
                l1 == self@.len(),
                l2 == rhs@.len(),
                sub_fits(self@, rhs@),
                out@ == sub_seq(self@, rhs@).subrange(0, i as int),
        {
            let x: i32 = if i < l1 {
                self.inner[i]
            } else {
                0
            };
            let y: i32 = if i < l2 {
                rhs.inner[i]
            } else {
                0
            };
            proof {
                assert(x == coeff_at(self@, i as int));
                assert(y == coeff_at(rhs@, i as int));
                assert(fits_i32(x - y));
            }
            out.push(x - y);
            proof {
                assert(out@ =~= sub_seq(self@, rhs@).subrange(0, i + 1));
            }
        }
        proof {
            assert(sub_seq(self@, rhs@).subrange(0, n as int) =~= sub_seq(self@, rhs@));
        }
        let mut v = Vector { inner: out };
        v.normalize();
        v
    }

    /// Multiply every coefficient by the scalar `k`; the result is
    /// normalized, so the zero scalar yields the empty polynomial.
    pub fn mul_scalar(&self, k: i32) -> (r: Vector)
        requires
            scale_fits(self@, k),
        ensures
            r@ == normalize_seq(scale_seq(self@, k)),
            is_normalized(r@),
    {
        let mut out: Vec<i32> = Vec::new();
        for i in 0..self.inner.len()
            invariant
                scale_fits(self@, k),
                out@ == scale_seq(self@, k).subrange(0, i as int),
        {
            let x: i32 = self.inner[i];
            proof {
                assert(fits_i32(self@[i as int] * k));
            }
            out.push(x * k);
            proof {
                assert(out@ =~= scale_seq(self@, k).subrange(0, i + 1));
            }
        }
        proof {
            assert(scale_seq(self@, k).subrange(0, self@.len() as int) =~= scale_seq(self@, k));
        }
        let mut v = Vector { inner: out };
        v.normalize();
        v
    }

    /// Euclidean division by synthetic long division: quotient and remainder
    /// together. Both operands are normalized first; a divisor that
    /// normalizes to the empty (zero) polynomial is rejected. Each step
    /// divides the leading coefficients with `i32`'s truncating division, so
    /// the result is the exact polynomial quotient only when every such step
    /// divides evenly; the truncating policy is deliberate.
    pub fn div_rem(&self, divisor: &Vector) -> (r: Result<(Vector, Vector), DivError>)
        ensures
            match r {
                Ok(qm) => {
                    &&& normalize_seq(divisor@).len() > 0
                    &&& div_rem_seq(self@, divisor@) == Some((qm.0@, qm.1@))
                    &&& is_normalized(qm.0@)
                    &&& is_normalized(qm.1@)
                },
                Err(DivError::EmptyDivisor) => normalize_seq(divisor@).len() == 0,
                Err(DivError::Overflow) => normalize_seq(divisor@).len() > 0 && div_rem_seq(
                    self@,
                    divisor@,
                ) is None,
            },
    {
        let mut rem = Vector { inner: self.to_vec() };
        rem.normalize();
        let mut dv = Vector { inner: divisor.to_vec() };
        dv.normalize();
        if dv.inner.len() == 0 {
            return Err(DivError::EmptyDivisor);
        }
        let mut quot: Vec<i32> = Vec::new();
        let n: usize = rem.inner.len();
        let ghost dd0: Seq<i32> = rem@;
        let ghost dvs: Seq<i32> = dv@;
        for k in 0..n
            invariant
                dv@ == dvs,
                dvs == normalize_seq(divisor@),
                dvs.len() > 0,
                is_normalized(dvs),
                is_normalized(rem@),
                is_normalized(quot@),
                dd0 == normalize_seq(self@),
                n == dd0.len(),
                div_loop(dd0, dvs, Seq::empty(), n as nat) == div_loop(
                    rem@,
                    dvs,
                    quot@,
                    (n - k) as nat,
                ),
        {
            let lr: i32 = if rem.inner.len() == 0 {
                0
            } else {
                rem.inner[rem.inner.len() - 1]
            };
            let ld: i32 = dv.inner[dv.inner.len() - 1];
            proof {
                assert(lr == leading(rem@));
                assert(ld == leading(dvs));
                assert(ld != 0);
            }
            let c_opt: Option<i32> = lr.checked_div(ld);
            proof {
                assert(c_opt == if !fits_i32(trunc_div(lr as int, ld as int)) {
                    None::<i32>
                } else {
                    Some(trunc_div(lr as int, ld as int) as i32)
                });
            }
            if c_opt.is_none() {
                proof {
                    assert(div_loop(rem@, dvs, quot@, (n - k) as nat) is None);
                }
                return Err(DivError::Overflow);
            }
            let c: i32 = c_opt.unwrap();
            if dv.inner.len() > rem.inner.len() || c == 0 {
                proof {
                    assert(div_loop(rem@, dvs, quot@, (n - k) as nat) == Some((quot@, rem@)));
                }
                return Ok((Vector { inner: quot }, rem));
            }
            let grade: usize = rem.inner.len() - dv.inner.len();
            let rl: usize = rem.inner.len();
            let mut next: Vec<i32> = Vec::new();
            for i in 0..rl
                invariant
                    rl == rem@.len(),
                    dv@ == dvs,
                    dvs == normalize_seq(divisor@),
                    dvs.len() > 0,
                    rl >= dvs.len(),
                    grade == rl - dvs.len(),
                    c as int == trunc_div(leading(rem@) as int, leading(dvs) as int),
                    c != 0,
                    is_normalized(rem@),
                    dd0 == normalize_seq(self@),
                    n == dd0.len(),
                    k < n,
                    div_loop(dd0, dvs, Seq::empty(), n as nat) == div_loop(
                        rem@,
                        dvs,
                        quot@,
                        (n - k) as nat,
                    ),
                    next@.len() == i,
                    forall|j: int|
                        0 <= j < i ==> fits_i32(#[trigger] step_prod(rem@, dvs, c as int, j)),
                    forall|j: int|
                        0 <= j < i ==> fits_i32(#[trigger] step_diff(rem@, dvs, c as int, j)),
                    forall|j: int|
                        0 <= j < i ==> #[trigger] next@[j] == step_diff(
                            rem@,
                            dvs,
                            c as int,
                            j,
                        ) as i32,
            {
                if i < grade {
                    next.push(rem.inner[i]);
                    proof {
                        assert(step_prod(rem@, dvs, c as int, i as int) == 0);
                        assert(step_diff(rem@, dvs, c as int, i as int) == rem@[i as int] as int);
                    }
                } else {
                    let p_opt: Option<i32> = dv.inner[i - grade].checked_mul(c);
                    if p_opt.is_none() {
                        proof {
                            assert(!fits_i32(step_prod(rem@, dvs, c as int, i as int)));
                            assert(!step_fits(rem@, dvs, c as int));
                            assert(div_loop(rem@, dvs, quot@, (n - k) as nat) is None);
                        }
                        return Err(DivError::Overflow);
                    }
                    let p: i32 = p_opt.unwrap();
                    proof {
                        assert(step_prod(rem@, dvs, c as int, i as int) == dv@[i - grade] * (
                        c as int));
                        assert(fits_i32(step_prod(rem@, dvs, c as int, i as int)));
                        assert(p == dv@[i - grade] * (c as int));
                        assert(step_diff(rem@, dvs, c as int, i as int) == rem@[i as int] - dv@[i
                            - grade] * (c as int));
                    }
                    let d_opt: Option<i32> = rem.inner[i].checked_sub(p);
                    if d_opt.is_none() {
                        proof {
                            assert(!fits_i32(step_diff(rem@, dvs, c as int, i as int)));
                            assert(!step_fits(rem@, dvs, c as int));
                            assert(div_loop(rem@, dvs, quot@, (n - k) as nat) is None);
                        }
                        return Err(DivError::Overflow);
                    }
                    proof {
                        assert(fits_i32(step_diff(rem@, dvs, c as int, i as int)));
                        assert(d_opt.unwrap() == step_diff(rem@, dvs, c as int, i as int) as i32);
                    }
                    next.push(d_opt.unwrap());
                }
            }
            proof {
                assert(step_fits(rem@, dvs, c as int));
                assert(next@ =~= step_result(rem@, dvs, c as int));
            }
            let ghost rem_before: Seq<i32> = rem@;
            let ghost quot_before: Seq<i32> = quot@;
            let mut new_rem = Vector { inner: next };
            new_rem.normalize();
            quot.insert(0, c);
            proof {
                assert(quot@ =~= seq![c] + quot_before);
                assert(div_loop(rem_before, dvs, quot_before, (n - k) as nat) == div_loop(
                    new_rem@,
                    dvs,
                    quot@,
                    (n - k - 1) as nat,
                ));
                assert(is_normalized(quot@));
            }
            rem = new_rem;
        }
        proof {
            assert(div_loop(rem@, dvs, quot@, 0) == Some((quot@, rem@)));
        }
        Ok((Vector { inner: quot }, rem))
    }

    /// The quotient of `div_rem`, a projection of the same computation.
    pub fn div(&self, divisor: &Vector) -> (r: Result<Vector, DivError>)
        ensures
            match r {
                Ok(q) => {
                    &&& normalize_seq(divisor@).len() > 0
                    &&& div_rem_seq(self@, divisor@) matches Some(qm) && q@ == qm.0
                    &&& is_normalized(q@)
                },
                Err(DivError::EmptyDivisor) => normalize_seq(divisor@).len() == 0,
                Err(DivError::Overflow) => normalize_seq(divisor@).len() > 0 && div_rem_seq(
                    self@,
                    divisor@,
                ) is None,
            },
    {
        match self.div_rem(divisor) {
            Ok(qm) => Ok(qm.0),
            Err(e) => Err(e),
        }
    }

    /// The remainder of `div_rem`, a projection of the same computation.
    pub fn rem(&self, divisor: &Vector) -> (r: Result<Vector, DivError>)
        ensures
            match r {
                Ok(m) => {
                    &&& normalize_seq(divisor@).len() > 0
                    &&& div_rem_seq(self@, divisor@) matches Some(qm) && m@ == qm.1
                    &&& is_normalized(m@)
                },
                Err(DivError::EmptyDivisor) => normalize_seq(divisor@).len() == 0,
                Err(DivError::Overflow) => normalize_seq(divisor@).len() > 0 && div_rem_seq(
                    self@,
                    divisor@,
                ) is None,
            },
    {
        match self.div_rem(divisor) {
            Ok(qm) => Ok(qm.1),
            Err(e) => Err(e),
        }
    }
}

} // verus!
