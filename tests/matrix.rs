use float_cmp::{ApproxEq, F32Margin};
use raytracer::Matrix;

fn same(a: f32, b: f32) -> bool {
    a.approx_eq(b, F32Margin { epsilon: 0.0, ulps: 2 })
}

fn mul_add(sum: f32, a: f32, b: f32) -> f32 {
    sum + a * b
}

fn eye(size: usize) -> Matrix<f32> {
    Matrix::identity(size, 0.0, 1.0)
}

#[test]
fn create_matrix() {
    let values = vec![
        vec![1., 2., 3., 4.],
        vec![5.5, 6.5, 7.5, 8.5],
        vec![9., 10., 11., 12.],
        vec![13.5, 14.5, 15.5, 16.5],
    ];

    let m = Matrix::from_values(values);
    assert_eq!(m.shape(), (4, 4));
    assert_eq!(m.get(0, 0), 1.);
    assert_eq!(m.get(0, 3), 4.);
    assert_eq!(m.get(1, 0), 5.5);
    assert_eq!(m.get(1, 2), 7.5);
    assert_eq!(m.get(2, 2), 11.);
    assert_eq!(m.get(3, 0), 13.5);
    assert_eq!(m.get(3, 2), 15.5);
}

#[test]
fn create_different_sized_matrices() {
    let values = vec![vec![-3., 5.], vec![1., -2.]];
    let m1 = Matrix::from_values(values);
    assert_eq!(m1.shape(), (2, 2));
    assert_eq!(m1.get(0, 0), -3.);
    assert_eq!(m1.get(0, 1), 5.);
    assert_eq!(m1.get(1, 0), 1.);
    assert_eq!(m1.get(1, 1), -2.);

    let values = vec![vec![-3., 5., 0.], vec![1., -2., -7.], vec![0., 1., 1.]];
    let m2 = Matrix::from_values(values);
    assert_eq!(m2.shape(), (3, 3));
    assert_eq!(m2.get(0, 0), -3.);
    assert_eq!(m2.get(1, 1), -2.);
    assert_eq!(m2.get(2, 2), 1.);
}

#[test]
fn compare_matrices() {
    let values = vec![
        vec![1., 2., 3., 4.],
        vec![5., 6., 7., 8.],
        vec![9., 8., 7., 6.],
        vec![5., 4., 3., 2.],
    ];
    let m1 = Matrix::from_values(values.clone());
    let m2 = Matrix::from_values(values);
    assert!(m1.equals(&m2, same));

    let values2 = vec![
        vec![5., 6., 7., 8.],
        vec![9., 8., 7., 6.],
        vec![5., 4., 3., 2.],
        vec![1., 2., 3., 4.],
    ];
    let m3 = Matrix::from_values(values2);
    assert!(!m1.equals(&m3, same));
}

#[test]
fn multiply_two_matrices() {
    let values1 = vec![
        vec![1., 2., 3., 4.],
        vec![5., 6., 7., 8.],
        vec![9., 8., 7., 6.],
        vec![5., 4., 3., 2.],
    ];
    let values2 = vec![
        vec![-2., 1., 2., 3.],
        vec![3., 2., 1., -1.],
        vec![4., 3., 6., 5.],
        vec![1., 2., 7., 8.],
    ];
    let values_res = vec![
        vec![20., 22., 50., 48.],
        vec![44., 54., 114., 108.],
        vec![40., 58., 110., 102.],
        vec![16., 26., 46., 42.],
    ];
    let m1 = Matrix::from_values(values1);
    let m2 = Matrix::from_values(values2);
    let res = Matrix::from_values(values_res);
    assert!(m1.dot(&m2, 0.0, mul_add).equals(&res, same));
}

#[test]
fn matrix_from_tuple() {
    let m_vec = Matrix::from_column(vec![1., 2., 3., 1.]);
    assert_eq!(m_vec.shape().0, 4);
    assert_eq!(m_vec.shape().1, 1);

    let res_values = vec![vec![1.], vec![2.], vec![3.], vec![1.]];
    let m_res = Matrix::from_values(res_values);
    assert!(m_vec.equals(&m_res, same));
}

#[test]
fn multiply_matrix_with_tuple() {
    let values1 = vec![
        vec![1., 2., 3., 4.],
        vec![2., 4., 4., 2.],
        vec![8., 6., 4., 1.],
        vec![0., 0., 0., 1.],
    ];
    let m = Matrix::from_values(values1);
    let vec = Matrix::from_column(vec![1., 2., 3., 1.0]);
    let res = Matrix::from_column(vec![18., 24., 33., 1.]);
    assert!(m.dot(&vec, 0.0, mul_add).equals(&res, same));
}

#[test]
fn multply_with_identity() {
    let values = vec![
        vec![1., 2., 3., 4.],
        vec![2., 4., 4., 2.],
        vec![8., 6., 4., 1.],
        vec![0., 0., 0., 1.],
    ];
    let m = Matrix::from_values(values);
    let eye = eye(4);
    assert!(m.equals(&m.dot(&eye, 0.0, mul_add), same));

    let vec = Matrix::from_column(vec![1., 2., 3., 1.0]);
    let res_vec = eye.dot(&vec, 0.0, mul_add);
    assert!(vec.equals(&res_vec, same));
}

#[test]
fn transpose_matrix() {
    let values = vec![
        vec![0., 9., 3., 0.],
        vec![9., 8., 0., 8.],
        vec![1., 8., 5., 3.],
        vec![0., 0., 5., 8.],
    ];
    let t_values = vec![
        vec![0., 9., 1., 0.],
        vec![9., 8., 8., 0.],
        vec![3., 0., 5., 5.],
        vec![0., 8., 3., 8.],
    ];
    let mut m = Matrix::from_values(values);
    m.transpose();
    assert!(m.equals(&Matrix::from_values(t_values), same));
}

#[test]
fn transpose_identity_matrix() {
    let mut eye = eye(4);
    eye.transpose();
    assert!(eye.equals(&Matrix::identity(4, 0.0, 1.0), same));
}

#[test]
fn new_matrix_is_zero_filled() {
    let m: Matrix<f32> = Matrix::new(2, 3, 0.0);
    assert_eq!(m.shape(), (2, 3));
    for r in 0..2 {
        for c in 0..3 {
            assert_eq!(m.get(r, c), 0.0);
        }
    }
}

#[test]
fn transpose_swaps_shape_and_indices() {
    let mut m = Matrix::from_values(vec![vec![1, 2, 3], vec![4, 5, 6]]);
    m.transpose();
    assert_eq!(m.shape(), (3, 2));
    assert_eq!(m.get(0, 1), 4);
    assert_eq!(m.get(2, 0), 3);
    assert_eq!(m.get(2, 1), 6);
}

#[test]
fn transpose_twice_restores_matrix() {
    let values = vec![vec![1, 2, 3], vec![4, 5, 6]];
    let original = Matrix::from_values(values.clone());
    let mut m = Matrix::from_values(values);
    m.transpose();
    m.transpose();
    assert_eq!(m.shape(), (2, 3));
    assert!(m.equals(&original, |a: i32, b: i32| a == b));
}

#[test]
fn product_of_non_square_matrices() {
    let a = Matrix::from_values(vec![vec![1, 2, 3], vec![4, 5, 6]]);
    let b = Matrix::from_values(vec![vec![7, 8], vec![9, 10], vec![11, 12]]);
    let p = a.dot(&b, 0, |s: i64, x: i64, y: i64| s + x * y);
    assert_eq!(p.shape(), (2, 2));
    assert_eq!(p.get(0, 0), 58);
    assert_eq!(p.get(0, 1), 64);
    assert_eq!(p.get(1, 0), 139);
    assert_eq!(p.get(1, 1), 154);
}

#[test]
fn product_with_transposed_operand() {
    let mut a = Matrix::from_values(vec![vec![1, 4], vec![2, 5], vec![3, 6]]);
    a.transpose();
    let b = Matrix::from_column(vec![1, 1, 1]);
    let p = a.dot(&b, 0, |s: i64, x: i64, y: i64| s + x * y);
    assert_eq!(p.shape(), (2, 1));
    assert_eq!(p.get(0, 0), 6);
    assert_eq!(p.get(1, 0), 15);
}

#[test]
fn product_accumulates_in_order() {
    let a = Matrix::from_values(vec![vec![1, 2, 3]]);
    let b = Matrix::from_column(vec![4, 5, 6]);
    let p = a.dot(&b, 0, |s: i64, x: i64, y: i64| s * 10 + x * y);
    assert_eq!(p.get(0, 0), 4 * 100 + 10 * 10 + 18);
}

#[test]
fn matrices_of_different_shapes_differ() {
    let a = Matrix::from_values(vec![vec![1, 2]]);
    let b = Matrix::from_column(vec![1, 2]);
    assert!(!a.equals(&b, |x: i32, y: i32| x == y));
}

#[test]
fn identity_has_ones_on_diagonal() {
    let eye: Matrix<i32> = Matrix::identity(3, 0, 1);
    assert_eq!(eye.shape(), (3, 3));
    for r in 0..3 {
        for c in 0..3 {
            assert_eq!(eye.get(r, c), if r == c { 1 } else { 0 });
        }
    }
}
