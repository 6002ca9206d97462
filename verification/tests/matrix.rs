use dnn_core::matrix::Matrix;

fn bits_of(values: &[f32]) -> Vec<u32> {
    values.iter().map(|x| x.to_bits()).collect()
}

#[test]
fn from_shape_vec_keeps_shape_and_row_major_order() {
    let m = Matrix::from_shape_vec(2, 3, vec![1, 2, 3, 4, 5, 6]).unwrap();
    assert_eq!(m.dim(), (2, 3));
    assert_eq!(m.rows(), 2);
    assert_eq!(m.cols(), 3);
    assert_eq!(m.get(0, 0), Some(1));
    assert_eq!(m.get(0, 2), Some(3));
    assert_eq!(m.get(1, 0), Some(4));
    assert_eq!(m.get(1, 2), Some(6));
    assert_eq!(m.to_vec(), vec![1, 2, 3, 4, 5, 6]);
}

#[test]
fn from_shape_vec_refuses_a_wrong_length() {
    assert!(Matrix::from_shape_vec(2, 2, vec![1, 2, 3]).is_none());
    assert!(Matrix::from_shape_vec(2, 2, vec![1, 2, 3, 4, 5]).is_none());
    assert!(Matrix::from_shape_vec(0, 3, vec![1]).is_none());
}

#[test]
fn from_shape_vec_accepts_empty_shapes() {
    let a = Matrix::from_shape_vec(0, 3, vec![]).unwrap();
    assert_eq!(a.dim(), (0, 3));
    assert_eq!(a.to_vec(), Vec::<u32>::new());
    let b = Matrix::from_shape_vec(4, 0, vec![]).unwrap();
    assert_eq!(b.dim(), (4, 0));
    let c = Matrix::from_shape_vec(0, 0, vec![]).unwrap();
    assert_eq!(c.dim(), (0, 0));
}

#[test]
fn from_shape_vec_refuses_a_shape_beyond_the_size_limit() {
    assert!(Matrix::from_shape_vec(usize::MAX, 0, vec![]).is_none());
    assert!(Matrix::from_shape_vec(0, usize::MAX, vec![]).is_none());
    let limit = isize::MAX as usize;
    assert!(Matrix::from_shape_vec(limit, 0, vec![]).is_some());
    assert!(Matrix::from_shape_vec(limit + 1, 0, vec![]).is_none());
}

#[test]
fn get_outside_the_shape_is_none() {
    let m = Matrix::from_shape_vec(2, 3, vec![1, 2, 3, 4, 5, 6]).unwrap();
    assert_eq!(m.get(2, 0), None);
    assert_eq!(m.get(0, 3), None);
    assert_eq!(m.get(usize::MAX, usize::MAX), None);
}

#[test]
fn transposed_exchanges_rows_and_columns() {
    let m = Matrix::from_shape_vec(2, 3, vec![1, 2, 3, 4, 5, 6]).unwrap();
    let t = m.transposed();
    assert_eq!(t.dim(), (3, 2));
    assert_eq!(t.to_vec(), vec![1, 4, 2, 5, 3, 6]);
    assert_eq!(t.get(0, 1), Some(4));
    assert_eq!(t.get(2, 0), Some(3));
    assert_eq!(t.get(2, 1), Some(6));
}

#[test]
fn transposed_twice_is_the_same_matrix() {
    let cells = bits_of(&[1.5, -2.0, 0.0, 4.25, 5.0, 6.0, 7.0, 8.0]);
    let m = Matrix::from_shape_vec(4, 2, cells.clone()).unwrap();
    let back = m.transposed().transposed();
    assert_eq!(back.dim(), (4, 2));
    assert_eq!(back.to_vec(), cells);
}

#[test]
fn transposed_of_a_single_row_is_a_single_column() {
    let m = Matrix::from_shape_vec(1, 3, vec![7, 8, 9]).unwrap();
    let t = m.transposed();
    assert_eq!(t.dim(), (3, 1));
    assert_eq!(t.to_vec(), vec![7, 8, 9]);
}

#[test]
fn transposed_of_an_empty_matrix() {
    let m = Matrix::from_shape_vec(0, 3, vec![]).unwrap();
    let t = m.transposed();
    assert_eq!(t.dim(), (3, 0));
    assert_eq!(t.to_vec(), Vec::<u32>::new());
}
