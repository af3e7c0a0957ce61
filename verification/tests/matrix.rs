use std::cell::Cell;

use nn::Matrix;

fn m(rows: usize, cols: usize, data: Vec<f64>) -> Matrix<f64> {
    Matrix::with_slice(rows, cols, data)
}

#[test]
fn shape_accessors() {
    let a = m(2, 3, vec![1.0, 2.0, 3.0, 4.0, 5.0, 6.0]);
    assert_eq!(a.rows(), 2);
    assert_eq!(a.cols(), 3);
    assert_eq!(a.len(), 6);
    assert_eq!(a.data(), &vec![1.0, 2.0, 3.0, 4.0, 5.0, 6.0]);
    assert!(a.is_wf());
}

#[test]
fn with_vec_takes_columns_first() {
    let a = Matrix::with_vec(3, 2, vec![1.0, 2.0, 3.0, 4.0, 5.0, 6.0]);
    assert_eq!(a.rows(), 2);
    assert_eq!(a.cols(), 3);
    assert_eq!(*a.get(1, 0), 4.0);
}

#[test]
fn index_get_and_set() {
    let mut a = m(2, 2, vec![1.0, 2.0, 3.0, 4.0]);
    assert_eq!(*a.index(3), 4.0);
    assert_eq!(*a.get(1, 0), 3.0);
    a.set(1, 9.0);
    assert_eq!(*a.get(0, 1), 9.0);
    assert_eq!(a.rows(), 2);
}

#[test]
fn new_is_filled() {
    let a = Matrix::new(3, 2, 0.0);
    assert_eq!(a.rows(), 3);
    assert_eq!(a.cols(), 2);
    assert_eq!(a.data(), &vec![0.0; 6]);
}

#[test]
fn copy_zeroed_keeps_shape() {
    let a = m(2, 3, vec![1.0, 2.0, 3.0, 4.0, 5.0, 6.0]);
    let z = a.copy_zeroed(0.0);
    assert_eq!((z.rows(), z.cols()), (2, 3));
    assert!(z.data().iter().all(|x| *x == 0.0));
}

#[test]
fn rand_draws_row_after_row() {
    let counter = Cell::new(0.0);
    let a = Matrix::rand(2, 2, || {
        counter.set(counter.get() + 1.0);
        counter.get()
    });
    assert_eq!(a.data(), &vec![1.0, 2.0, 3.0, 4.0]);
    let b = a.copy_random(|| 0.5);
    assert_eq!((b.rows(), b.cols()), (2, 2));
    assert_eq!(b.data(), &vec![0.5; 4]);
}

#[test]
fn static_slice_is_copied() {
    static D: [f64; 4] = [1.0, 2.0, 3.0, 4.0];
    let a = Matrix::with_static_slice(1, 4, &D);
    assert_eq!(a.data(), &vec![1.0, 2.0, 3.0, 4.0]);
    assert_eq!(a.rows(), 1);
}

#[test]
fn one_hot_row() {
    let a = Matrix::one_hot(2, 7, 0.0, 1.0);
    assert_eq!((a.rows(), a.cols()), (1, 7));
    assert_eq!(a.data(), &vec![0.0, 0.0, 1.0, 0.0, 0.0, 0.0, 0.0]);
}

#[test]
fn transpose_values() {
    let a = m(2, 3, vec![1.0, 2.0, 3.0, 4.0, 5.0, 6.0]);
    let t = a.transpose();
    assert_eq!((t.rows(), t.cols()), (3, 2));
    assert_eq!(t.data(), &vec![1.0, 4.0, 2.0, 5.0, 3.0, 6.0]);
}

#[test]
fn transpose_twice_is_identity() {
    let a = m(3, 2, vec![1.0, -2.0, 3.5, 4.0, 0.0, 6.0]);
    let tt = a.transpose().transpose();
    assert_eq!((tt.rows(), tt.cols()), (3, 2));
    assert_eq!(tt.data(), a.data());
}

#[test]
fn transpose_of_empty() {
    let a: Matrix<f64> = m(0, 3, vec![]);
    let t = a.transpose();
    assert_eq!((t.rows(), t.cols()), (3, 0));
    assert_eq!(t.len(), 0);
}

#[test]
fn map_applies_elementwise() {
    let a = m(1, 3, vec![1.0, 2.0, 3.0]);
    let b = a.map(|x| x * 2.0);
    assert_eq!(b.data(), &vec![2.0, 4.0, 6.0]);
    assert_eq!((b.rows(), b.cols()), (1, 3));
}

#[test]
fn zip_combines_positions() {
    let a = m(2, 2, vec![1.0, 2.0, 3.0, 4.0]);
    let b = m(2, 2, vec![10.0, 20.0, 30.0, 40.0]);
    let s = a.zip(&b, |x, y| x + y);
    assert_eq!(s.data(), &vec![11.0, 22.0, 33.0, 44.0]);
    let d = b.zip(&a, |x, y| x / y);
    assert_eq!(d.data(), &vec![10.0; 4]);
}

#[test]
fn sum_over_rows_sums_columns() {
    let a = m(3, 2, vec![1.0, 2.0, 3.0, 4.0, 5.0, 6.0]);
    let s = a.sum_over_rows(0.0, |x, y| x + y);
    assert_eq!((s.rows(), s.cols()), (1, 2));
    assert_eq!(s.data(), &vec![9.0, 12.0]);
}

#[test]
fn dot_mul_values() {
    let a = m(2, 2, vec![1.0, 2.0, 3.0, 4.0]);
    let b = m(2, 2, vec![5.0, 6.0, 7.0, 8.0]);
    let p = a.dot_mul(&b, 0.0, |x, y| x * y, |x, y| x + y);
    assert_eq!(p.data(), &vec![19.0, 22.0, 43.0, 50.0]);
}

#[test]
fn dot_mul_rectangular() {
    // (1 x 3) * (3 x 2) = (1 x 2)
    let a = m(1, 3, vec![1.0, 2.0, 3.0]);
    let b = m(3, 2, vec![1.0, 0.0, 0.0, 1.0, 1.0, 1.0]);
    let p = a.dot_mul(&b, 0.0, |x, y| x * y, |x, y| x + y);
    assert_eq!((p.rows(), p.cols()), (1, 2));
    assert_eq!(p.data(), &vec![4.0, 5.0]);
}

#[test]
fn dot_mul_with_integers_is_exact() {
    let a: Matrix<i64> = Matrix::with_slice(2, 3, vec![1, 2, 3, 4, 5, 6]);
    let b: Matrix<i64> = Matrix::with_slice(3, 2, vec![7, 8, 9, 10, 11, 12]);
    let p = a.dot_mul(&b, 0, |x, y| x * y, |x, y| x + y);
    assert_eq!(p.data(), &vec![58, 64, 139, 154]);
}

#[test]
fn clone_is_equal() {
    let a = m(2, 1, vec![3.0, 4.0]);
    let c = a.clone();
    assert_eq!(c.data(), a.data());
    assert_eq!((c.rows(), c.cols()), (2, 1));
}

#[test]
fn is_wf_detects_nothing_wrong_for_constructed() {
    let a = Matrix::new(4, 5, 1u8);
    assert!(a.is_wf());
}

#[test]
fn mul_assign_replaces_with_product() {
    let mut a = m(2, 2, vec![1.0, 2.0, 3.0, 4.0]);
    let b = m(2, 2, vec![5.0, 6.0, 7.0, 8.0]);
    a.mul_assign(&b, 0.0, |x, y| x * y, |x, y| x + y);
    assert_eq!((a.rows(), a.cols()), (2, 2));
    assert_eq!(a.data(), &vec![19.0, 22.0, 43.0, 50.0]);
}

#[test]
fn mul_assign_changes_shape() {
    let mut a = m(1, 3, vec![1.0, 2.0, 3.0]);
    let b = m(3, 2, vec![1.0, 0.0, 0.0, 1.0, 1.0, 1.0]);
    a.mul_assign(&b, 0.0, |x, y| x * y, |x, y| x + y);
    assert_eq!((a.rows(), a.cols()), (1, 2));
    assert_eq!(a.data(), &vec![4.0, 5.0]);
}

#[test]
fn add_assign_adds_elementwise() {
    let mut a = m(2, 2, vec![1.0, 2.0, 3.0, 4.0]);
    let b = m(2, 2, vec![0.5, -1.0, 10.0, 0.0]);
    a.add_assign(&b, |x, y| x + y);
    assert_eq!((a.rows(), a.cols()), (2, 2));
    assert_eq!(a.data(), &vec![1.5, 1.0, 13.0, 4.0]);
}

#[test]
fn sub_assign_subtracts_elementwise() {
    let mut a = m(1, 3, vec![1.0, 2.0, 3.0]);
    let b = m(1, 3, vec![3.0, 2.0, 1.0]);
    a.sub_assign(&b, |x, y| x - y);
    assert_eq!((a.rows(), a.cols()), (1, 3));
    assert_eq!(a.data(), &vec![-2.0, 0.0, 2.0]);
}

#[test]
fn subtracting_undoes_adding() {
    let old = m(2, 3, vec![1.0, -2.0, 3.0, 40.0, 5.5, 0.0]);
    let b = m(2, 3, vec![7.0, 8.0, -9.0, 0.25, 1.0, 2.0]);
    let mut a = old.clone();
    a.add_assign(&b, |x, y| x + y);
    assert_ne!(a.data(), old.data());
    a.sub_assign(&b, |x, y| x - y);
    assert_eq!((a.rows(), a.cols()), (2, 3));
    assert_eq!(a.data(), old.data());
}

#[test]
fn add_scalar_assign_adds_to_every_element() {
    let mut a = m(2, 2, vec![1.0, 2.0, 3.0, 4.0]);
    a.add_scalar_assign(0.5, |x, k| x + k);
    assert_eq!((a.rows(), a.cols()), (2, 2));
    assert_eq!(a.data(), &vec![1.5, 2.5, 3.5, 4.5]);
}

#[test]
fn sub_scalar_assign_subtracts_from_every_element() {
    let mut a = m(1, 3, vec![1.0, 2.0, 3.0]);
    a.sub_scalar_assign(2.0, |x, k| x - k);
    assert_eq!(a.data(), &vec![-1.0, 0.0, 1.0]);
}
