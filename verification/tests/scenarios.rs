use vector::DivError;
use vector::Vector;

#[test]
fn div_rem_returns_quotient_and_remainder() {
    let (q, m) = Vector::from_vec(vec![-1, 1, 2, 0, 1])
        .div_rem(&Vector::from_vec(vec![1, 1, 1]))
        .unwrap();
    assert_eq!(q, Vector::from_vec(vec![2, -1, 1]));
    assert_eq!(m, Vector::from_vec(vec![-3]));

    let (q, m) = Vector::from_vec(vec![8, 0, -14, 0, 3])
        .div_rem(&Vector::from_vec(vec![1, -2, 1]))
        .unwrap();
    assert_eq!(q, Vector::from_vec(vec![-5, 6, 3]));
    assert_eq!(m, Vector::from_vec(vec![13, -16]));
}

#[test]
fn div_rem_by_empty_is_an_error() {
    let a = Vector::from_vec(vec![1]);
    let empty = Vector::from_vec(vec![]);
    assert_eq!(a.div_rem(&empty), Err(DivError::EmptyDivisor));
    assert_eq!(a.div(&empty), Err(DivError::EmptyDivisor));
    assert_eq!(a.rem(&empty), Err(DivError::EmptyDivisor));
    // a divisor of nothing but zero coefficients is the zero polynomial too
    let zeros = Vector::from_vec(vec![0, 0]);
    assert_eq!(a.div_rem(&zeros), Err(DivError::EmptyDivisor));
}

#[test]
fn div_rem_reports_unrepresentable_coefficients() {
    // the leading-coefficient division i32::MIN / -1 does not fit in i32
    let a = Vector::from_vec(vec![i32::MIN]);
    let b = Vector::from_vec(vec![-1]);
    assert_eq!(a.div_rem(&b), Err(DivError::Overflow));
    assert_eq!(a.div(&b), Err(DivError::Overflow));
    assert_eq!(a.rem(&b), Err(DivError::Overflow));
}

#[test]
fn division_truncates_uneven_leading_coefficients() {
    // 5 / 2 truncates to 2, leaving remainder 1: with a degree-zero divisor
    // the remainder keeps the divisor's degree, so the degree bound of exact
    // division does not apply here
    let (q, m) = Vector::from_vec(vec![5])
        .div_rem(&Vector::from_vec(vec![2]))
        .unwrap();
    assert_eq!(q, Vector::from_vec(vec![2]));
    assert_eq!(m, Vector::from_vec(vec![1]));
}

#[test]
fn remainder_is_shorter_than_divisor_on_exact_division() {
    let dividend = Vector::from_vec(vec![8, 0, -14, 0, 3]);
    let divisor = Vector::from_vec(vec![1, -2, 1]);
    let (_, m) = dividend.div_rem(&divisor).unwrap();
    assert!(m.inner.len() < divisor.inner.len());

    let dividend = Vector::from_vec(vec![-4, 19, -24, -1, 10]);
    let divisor = Vector::from_vec(vec![1, -3, 2]);
    let (_, m) = dividend.div_rem(&divisor).unwrap();
    assert!(m.inner.is_empty());
}

#[test]
fn normalize_is_idempotent() {
    let mut v = Vector {
        inner: vec![4, 0, 7, 0, 0],
    };
    v.normalize();
    let once = v.clone();
    v.normalize();
    assert_eq!(v, once);
    assert_eq!(v.inner, &[4, 0, 7]);
}

#[test]
fn add_has_empty_identity_and_commutes() {
    let a = Vector::from_vec(vec![3, 0, -2]);
    let b = Vector::from_vec(vec![-7, 5]);
    let empty = Vector::from_vec(vec![]);
    assert_eq!(a.add(&empty), a);
    assert_eq!(empty.add(&a), a);
    assert_eq!(a.add(&b), b.add(&a));
}

#[test]
fn sub_cancels_itself() {
    let a = Vector::from_vec(vec![3, 0, -2, 9]);
    assert_eq!(a.sub(&a), Vector::from_vec(vec![]));
    let raw = Vector { inner: vec![0, 1, 0] };
    assert_eq!(raw.sub(&raw), Vector::from_vec(vec![]));
}

#[test]
fn mul_scalar_by_zero_annihilates() {
    let a = Vector::from_vec(vec![3, 0, -2, 9]);
    assert_eq!(a.mul_scalar(0), Vector::from_vec(vec![]));
    let empty = Vector::from_vec(vec![]);
    assert_eq!(empty.mul_scalar(0), Vector::from_vec(vec![]));
}
