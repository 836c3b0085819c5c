use simple_matrix::Matrix;
use simple_matrix::Rational;

#[test]
fn zero_fills_every_cell() {
    let m: Matrix<i64> = Matrix::zero(2, 4);
    for r in 0..2 {
        for c in 0..4 {
            assert_eq!(m.get(r, c).unwrap(), 0);
        }
    }
}

#[test]
fn identity_has_ones_on_the_diagonal() {
    let m: Matrix<i64> = Matrix::identity(3);
    assert_eq!(m.get(0, 0).unwrap(), 1);
    assert_eq!(m.get(0, 1).unwrap(), 0);
    assert_eq!(m.get(2, 1).unwrap(), 0);
    assert_eq!(m.get(2, 2).unwrap(), 1);
}

#[test]
fn add_is_element_wise() {
    let a: Matrix<i64> = Matrix::from_iter(2, 2, vec![1, 2, 3, 4]);
    let b: Matrix<i64> = Matrix::from_iter(2, 2, vec![10, 20, 30, 40]);
    let s = a.add(&b);
    assert_eq!(s.get(0, 0).unwrap(), 11);
    assert_eq!(s.get(0, 1).unwrap(), 22);
    assert_eq!(s.get(1, 0).unwrap(), 33);
    assert_eq!(s.get(1, 1).unwrap(), 44);
}

#[test]
fn sub_is_element_wise() {
    let a: Matrix<i64> = Matrix::from_iter(2, 2, vec![10, 20, 30, 40]);
    let b: Matrix<i64> = Matrix::from_iter(2, 2, vec![1, 2, 3, 4]);
    let d = a.sub(&b);
    assert_eq!(d.get(0, 0).unwrap(), 9);
    assert_eq!(d.get(0, 1).unwrap(), 18);
    assert_eq!(d.get(1, 0).unwrap(), 27);
    assert_eq!(d.get(1, 1).unwrap(), 36);
}

#[test]
fn neg_flips_every_cell() {
    let a: Matrix<i64> = Matrix::from_iter(2, 2, vec![1, -2, 3, -4]);
    let n = a.neg();
    assert_eq!(n.get(0, 0).unwrap(), -1);
    assert_eq!(n.get(0, 1).unwrap(), 2);
    assert_eq!(n.get(1, 0).unwrap(), -3);
    assert_eq!(n.get(1, 1).unwrap(), 4);
}

#[test]
fn mul_is_the_dot_product() {
    let a: Matrix<i64> = Matrix::from_iter(2, 3, vec![1, 2, 3, 4, 5, 6]);
    let b: Matrix<i64> = Matrix::from_iter(3, 2, vec![7, 8, 9, 10, 11, 12]);
    let p = a.mul(&b);
    assert_eq!(p.rows(), 2);
    assert_eq!(p.cols(), 2);
    assert_eq!(p.get(0, 0).unwrap(), 58);
    assert_eq!(p.get(0, 1).unwrap(), 64);
    assert_eq!(p.get(1, 0).unwrap(), 139);
    assert_eq!(p.get(1, 1).unwrap(), 154);
}

#[test]
fn mul_by_identity_keeps_the_matrix() {
    let m: Matrix<i64> = Matrix::from_iter(2, 3, vec![3, -1, 4, 1, -5, 9]);
    let right: Matrix<i64> = Matrix::identity(3);
    let left: Matrix<i64> = Matrix::identity(2);
    let mr = m.mul(&right);
    let ml = left.mul(&m);
    for r in 0..2 {
        for c in 0..3 {
            assert_eq!(mr.get(r, c).unwrap(), m.get(r, c).unwrap());
            assert_eq!(ml.get(r, c).unwrap(), m.get(r, c).unwrap());
        }
    }
}

#[test]
fn rational_new_normalizes_the_sign() {
    let a = Rational::new(3, -2);
    assert_eq!(a.numer(), -3);
    assert_eq!(a.denom(), 2);
    let b = Rational::new(3, 2);
    assert_eq!(b.numer(), 3);
    assert_eq!(b.denom(), 2);
    let c = Rational::from_int(-7);
    assert_eq!(c.numer(), -7);
    assert_eq!(c.denom(), 1);
}

fn rational_matrix(rows: usize, cols: usize, cells: Vec<i64>) -> Matrix<Rational> {
    let data: Vec<Rational> = cells.into_iter().map(Rational::from_int).collect();
    Matrix::from_iter(rows, cols, data)
}

/// The fraction at `(r, c)`, as a float for approximate comparison.
fn cell_f64(m: &Matrix<Rational>, r: usize, c: usize) -> f64 {
    let v = m.get(r, c).unwrap();
    v.numer() as f64 / v.denom() as f64
}

#[test]
fn inverse_of_non_square_is_absent() {
    let m = rational_matrix(2, 3, vec![1, 2, 3, 4, 5, 6]);
    assert!(m.inverse().is_none());
}

#[test]
fn inverse_of_the_four_by_four_example() {
    let m = rational_matrix(4, 4, vec![1, 0, 2, 0, 0, 3, 0, 4, 5, 0, 6, 0, 0, 7, 0, 8]);
    let inv = m.inverse().unwrap();
    let expected: [[f64; 4]; 4] = [
        [-1.5, 0.0, 0.5, 0.0],
        [0.0, -2.0, 0.0, 1.0],
        [1.25, 0.0, -0.25, 0.0],
        [0.0, 1.75, 0.0, -0.75],
    ];
    for r in 0..4 {
        for c in 0..4 {
            assert!((cell_f64(&inv, r, c) - expected[r][c]).abs() < 0.01);
        }
    }
}

#[test]
fn matrix_times_its_inverse_is_the_identity() {
    let m = rational_matrix(4, 4, vec![1, 0, 2, 0, 0, 3, 0, 4, 5, 0, 6, 0, 0, 7, 0, 8]);
    let inv = m.inverse().unwrap();
    let p = m.mul(&inv);
    for r in 0..4 {
        for c in 0..4 {
            let v = p.get(r, c).unwrap();
            assert!(v.denom() > 0);
            if r == c {
                // exactly one
                assert_eq!(v.numer(), v.denom());
            } else {
                // exactly zero
                assert_eq!(v.numer(), 0);
            }
        }
    }
}

#[test]
fn inverse_of_one_by_one() {
    let m = rational_matrix(1, 1, vec![2]);
    let inv = m.inverse().unwrap();
    let v = inv.get(0, 0).unwrap();
    // exactly one half
    assert_eq!(v.numer() * 2, v.denom());
}

#[test]
fn inverse_of_singular_input_is_degenerate_but_returned() {
    let m = rational_matrix(2, 2, vec![1, 1, 1, 1]);
    // Singularity is not detected: a (nonsensical) result is still handed back.
    assert!(m.inverse().is_some());
}

#[test]
fn add_assign_mutates_in_place() {
    let mut a: Matrix<i64> = Matrix::from_iter(2, 2, vec![1, 2, 3, 4]);
    let b: Matrix<i64> = Matrix::from_iter(2, 2, vec![10, 20, 30, 40]);
    a.add_assign(&b);
    assert_eq!(a.get(0, 0).unwrap(), 11);
    assert_eq!(a.get(1, 1).unwrap(), 44);
}

#[test]
fn sub_assign_mutates_in_place() {
    let mut a: Matrix<i64> = Matrix::from_iter(2, 2, vec![10, 20, 30, 40]);
    let b: Matrix<i64> = Matrix::from_iter(2, 2, vec![1, 2, 3, 4]);
    a.sub_assign(&b);
    assert_eq!(a.get(0, 0).unwrap(), 9);
    assert_eq!(a.get(1, 1).unwrap(), 36);
}
