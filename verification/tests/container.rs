use simple_matrix::Matrix;

#[test]
fn from_iter_fills_row_major() {
    let m: Matrix<usize> = Matrix::from_iter(3, 6, (0..).take(100).collect());
    assert_eq!(m.rows(), 3);
    assert_eq!(m.cols(), 6);
    assert_eq!(m.get(0, 0).unwrap(), 0);
    assert_eq!(m.get(0, 1).unwrap(), 1);
    assert_eq!(m.get(1, 0).unwrap(), 6);
    assert_eq!(m.get(2, 5).unwrap(), 17);
}

#[test]
fn get_and_get_ref_agree() {
    let m: Matrix<usize> = Matrix::from_iter(3, 6, (0..18).collect());
    for r in 0..3 {
        for c in 0..6 {
            assert_eq!(m.get(r, c).unwrap(), *m.get_ref(r, c).unwrap());
        }
    }
}

#[test]
fn set_then_get_returns_written_value() {
    let mut m: Matrix<usize> = Matrix::from_iter(3, 6, (0..18).collect());
    assert_eq!(m.get(0, 0).unwrap(), 0);
    assert!(m.set(0, 0, 5));
    assert_eq!(m.get(0, 0).unwrap(), 5);
    assert!(m.set(2, 5, 42));
    assert_eq!(m.get(2, 5).unwrap(), 42);
    assert_eq!(m.get(0, 1).unwrap(), 1);
}

#[test]
fn out_of_range_access_is_absent() {
    let mut m: Matrix<usize> = Matrix::from_iter(3, 6, (0..18).collect());
    assert!(m.get(10, 2).is_none());
    assert!(m.get(2, 10).is_none());
    assert!(m.get_ref(3, 0).is_none());
    assert!(m.get_ref(0, 6).is_none());
    assert!(!m.set(3, 0, 99));
    assert!(!m.set(0, 6, 99));
    for r in 0..3 {
        for c in 0..6 {
            assert_eq!(m.get(r, c).unwrap(), c + r * 6);
        }
    }
}

#[test]
fn get_row_and_get_col_copy_the_line() {
    let m: Matrix<usize> = Matrix::from_iter(3, 6, (0..18).collect());
    assert_eq!(m.get_row(1).unwrap(), vec![6, 7, 8, 9, 10, 11]);
    assert_eq!(m.get_col(1).unwrap(), vec![1, 7, 13]);
    assert!(m.get_row(5).is_none());
    assert!(m.get_col(10).is_none());
}

#[test]
fn row_views_reflect_later_edits() {
    let mut m: Matrix<usize> = Matrix::from_iter(2, 2, (0..4).collect());
    assert_eq!(m.get_row(0).unwrap(), vec![0, 1]);
    m.set(0, 1, 9);
    assert_eq!(m.get_row(0).unwrap(), vec![0, 9]);
}

#[test]
fn swap_rows_exchanges_rows() {
    let mut m: Matrix<usize> = Matrix::from_iter(3, 2, (0..6).collect());
    m.swap_rows(0, 2);
    assert_eq!(m.get_row(0).unwrap(), vec![4, 5]);
    assert_eq!(m.get_row(1).unwrap(), vec![2, 3]);
    assert_eq!(m.get_row(2).unwrap(), vec![0, 1]);
}

#[test]
fn swap_cols_exchanges_columns() {
    let mut m: Matrix<usize> = Matrix::from_iter(2, 3, (0..6).collect());
    m.swap_cols(0, 2);
    assert_eq!(m.get_row(0).unwrap(), vec![2, 1, 0]);
    assert_eq!(m.get_row(1).unwrap(), vec![5, 4, 3]);
}

#[test]
fn transpose_swaps_shape_and_cells() {
    let m: Matrix<usize> = Matrix::from_iter(3, 6, (0..18).collect());
    let t = m.transpose();
    assert_eq!(m.rows(), t.cols());
    assert_eq!(m.cols(), t.rows());
    assert_eq!(m.get(0, 0).unwrap(), t.get(0, 0).unwrap());
    assert_eq!(m.get(1, 2).unwrap(), t.get(2, 1).unwrap());
    for r in 0..3 {
        for c in 0..6 {
            assert_eq!(m.get(r, c).unwrap(), t.get(c, r).unwrap());
        }
    }
}

#[test]
fn transpose_twice_is_identity() {
    let m: Matrix<usize> = Matrix::from_iter(3, 6, (7..25).collect());
    let u = m.transpose().transpose();
    assert_eq!(u.rows(), m.rows());
    assert_eq!(u.cols(), m.cols());
    for r in 0..3 {
        for c in 0..6 {
            assert_eq!(u.get(r, c).unwrap(), m.get(r, c).unwrap());
        }
    }
}

#[test]
fn new_flattens_the_literal_row_major() {
    // The literal is flattened and refilled row by row into an R x C
    // matrix, with R the inner length and C the outer length.
    let m: Matrix<i32> = Matrix::new([[1, 2], [3, 4], [5, 6]]);
    assert_eq!(m.rows(), 2);
    assert_eq!(m.cols(), 3);
    assert_eq!(m.get(0, 0).unwrap(), 1);
    assert_eq!(m.get(0, 1).unwrap(), 2);
    assert_eq!(m.get(0, 2).unwrap(), 3);
    assert_eq!(m.get(1, 0).unwrap(), 4);
    assert_eq!(m.get(1, 2).unwrap(), 6);
}

#[test]
fn new_square_keeps_rows() {
    let m: Matrix<i32> = Matrix::new([[1, 2], [3, 4]]);
    assert_eq!(m.get(0, 0).unwrap(), 1);
    assert_eq!(m.get(0, 1).unwrap(), 2);
    assert_eq!(m.get(1, 0).unwrap(), 3);
    assert_eq!(m.get(1, 1).unwrap(), 4);
}

#[test]
fn apply_visits_every_cell() {
    let m: Matrix<usize> = Matrix::from_iter(3, 6, (0..18).collect());
    let sum = std::cell::Cell::new(0usize);
    m.apply(|v| sum.set(sum.get() + v));
    assert_eq!(sum.get(), 153);
}

#[test]
fn apply_mut_replaces_every_cell() {
    let mut m: Matrix<usize> = Matrix::from_iter(3, 6, (0..18).collect());
    m.apply_mut(|v| v * 2);
    assert_eq!(m.get(0, 0).unwrap(), 0);
    assert_eq!(m.get(0, 1).unwrap(), 2);
    assert_eq!(m.get(0, 2).unwrap(), 4);
    assert_eq!(m.get(2, 5).unwrap(), 34);
}

#[test]
fn get_mut_writes_through() {
    let mut m: Matrix<usize> = Matrix::from_iter(3, 6, (0..18).collect());
    assert!(m.get_mut(10, 2).is_none());
    let cell = m.get_mut(0, 0).unwrap();
    *cell = 5;
    assert_eq!(m.get(0, 0).unwrap(), 5);
    assert_eq!(m.get(0, 1).unwrap(), 1);
}
