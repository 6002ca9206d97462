use dnn_core::activation::{
    relu_activation, relu_backward, relu_elementwise, relu_prime_elementwise,
};
use dnn_core::scalar::relu_gradient;
use dnn_core::matrix::Matrix;

fn pattern_vec(values: &[f32]) -> Vec<u32> {
    values.iter().map(|x| x.to_bits()).collect()
}

fn value_vec(m: &Matrix) -> Vec<f32> {
    m.to_vec().into_iter().map(f32::from_bits).collect()
}

#[test]
fn relu_elementwise_clips_each_entry() {
    let z = Matrix::from_shape_vec(2, 3, pattern_vec(&[-1.0, 2.0, 0.0, 3.5, -0.5, 1.0e-3])).unwrap();
    let a = relu_elementwise(&z);
    assert_eq!(a.dim(), (2, 3));
    assert_eq!(value_vec(&a), vec![0.0, 2.0, 0.0, 3.5, 0.0, 1.0e-3]);
    assert_eq!(value_vec(&z), vec![-1.0, 2.0, 0.0, 3.5, -0.5, 1.0e-3]);
}

#[test]
fn relu_prime_elementwise_marks_the_positive_entries() {
    let z = Matrix::from_shape_vec(2, 3, pattern_vec(&[-1.0, 2.0, 0.0, 3.5, -0.5, 1.0e-3])).unwrap();
    let d = relu_prime_elementwise(&z);
    assert_eq!(d.dim(), (2, 3));
    assert_eq!(value_vec(&d), vec![0.0, 1.0, 0.0, 1.0, 0.0, 1.0]);
}

#[test]
fn relu_elementwise_on_a_transposed_matrix_keeps_positions() {
    let z = Matrix::from_shape_vec(2, 3, pattern_vec(&[-1.0, 2.0, 3.0, 4.0, -5.0, 6.0])).unwrap();
    let a = relu_elementwise(&z.transposed());
    assert_eq!(a.dim(), (3, 2));
    assert_eq!(value_vec(&a), vec![0.0, 4.0, 2.0, 0.0, 3.0, 6.0]);
    assert_eq!(a.get(1, 0).map(f32::from_bits), Some(2.0));
    assert_eq!(a.get(1, 1).map(f32::from_bits), Some(0.0));
}

#[test]
fn relu_activation_returns_the_activated_matrix_and_caches_the_input() {
    let cells = pattern_vec(&[-2.0, 0.5, 7.0, -0.0]);
    let z = Matrix::from_shape_vec(2, 2, cells.clone()).unwrap();
    let (a, cache) = relu_activation(z);
    assert_eq!(a.dim(), (2, 2));
    assert_eq!(value_vec(&a), vec![0.0, 0.5, 7.0, 0.0]);
    assert_eq!(cache.z.dim(), (2, 2));
    assert_eq!(cache.z.to_vec(), cells);
}

#[test]
fn relu_activation_of_an_empty_matrix() {
    let z = Matrix::from_shape_vec(0, 4, vec![]).unwrap();
    let (a, cache) = relu_activation(z);
    assert_eq!(a.dim(), (0, 4));
    assert_eq!(cache.z.dim(), (0, 4));
}

#[test]
fn backward_with_a_gradient_of_ones_is_the_derivative() {
    let values = [-2.0f32, 0.5, 7.0, 0.0, 3.0, -1.0];
    let z = Matrix::from_shape_vec(3, 2, pattern_vec(&values)).unwrap();
    let (_, cache) = relu_activation(z);
    let ones = Matrix::from_shape_vec(3, 2, pattern_vec(&[1.0; 6])).unwrap();
    let expected = relu_prime_elementwise(&cache.z);
    let dz = relu_backward(&ones, cache.z);
    assert_eq!(dz.dim(), (3, 2));
    assert_eq!(dz.to_vec(), expected.to_vec());
    assert_eq!(value_vec(&dz), vec![0.0, 1.0, 1.0, 0.0, 1.0, 0.0]);
}

#[test]
fn backward_scales_the_upstream_gradient_where_the_input_was_positive() {
    let z = Matrix::from_shape_vec(2, 2, pattern_vec(&[-2.0, 0.5, 7.0, 0.0])).unwrap();
    let da = Matrix::from_shape_vec(2, 2, pattern_vec(&[10.0, 20.0, -30.0, 40.0])).unwrap();
    let dz = relu_backward(&da, z);
    assert_eq!(dz.dim(), (2, 2));
    assert_eq!(value_vec(&dz), vec![0.0, 20.0, -30.0, 0.0]);
    assert_eq!(value_vec(&da), vec![10.0, 20.0, -30.0, 40.0]);
}

#[test]
fn backward_keeps_the_sign_of_a_gradient_that_meets_a_zero_derivative() {
    let z = Matrix::from_shape_vec(1, 2, pattern_vec(&[-1.0, -1.0])).unwrap();
    let da = Matrix::from_shape_vec(1, 2, pattern_vec(&[-5.0, 5.0])).unwrap();
    let dz = relu_backward(&da, z);
    assert_eq!(dz.to_vec(), vec![(-0.0f32).to_bits(), 0.0f32.to_bits()]);
}

#[test]
fn backward_of_an_empty_matrix() {
    let z = Matrix::from_shape_vec(0, 3, vec![]).unwrap();
    let da = Matrix::from_shape_vec(0, 3, vec![]).unwrap();
    assert_eq!(relu_backward(&da, z).dim(), (0, 3));
}

#[test]
fn gradient_agrees_with_single_precision_multiplication() {
    let samples = [
        -1.0e30f32, -3.0, -1.0, -1.0e-40, -0.0, 0.0, 1.0e-40, 1.0e-3, 0.5, 1.0, 2.0, 3.0, 1.0e30,
        f32::MIN, f32::MAX, f32::MIN_POSITIVE, f32::EPSILON, f32::INFINITY, f32::NEG_INFINITY,
        f32::NAN, -f32::NAN,
    ];
    for da in samples {
        for z in samples {
            let prime = if z > 0.0 { 1.0f32 } else { 0.0 };
            let product = da * prime;
            let dz = f32::from_bits(relu_gradient(da.to_bits(), z.to_bits()));
            if product.is_nan() {
                assert!(dz.is_nan());
            } else {
                assert_eq!(dz.to_bits(), product.to_bits());
            }
        }
    }
}

#[test]
fn gradient_of_a_nan_is_the_quiet_nan() {
    assert_eq!(relu_gradient(0x7F80_0001, 1.0f32.to_bits()), 0x7FC0_0000);
    assert_eq!(relu_gradient(0xFFFF_FFFF, (-1.0f32).to_bits()), 0x7FC0_0000);
    assert_eq!(relu_gradient(f32::INFINITY.to_bits(), 0), 0x7FC0_0000);
    assert_eq!(relu_gradient(f32::NEG_INFINITY.to_bits(), 0), 0x7FC0_0000);
    assert_eq!(relu_gradient(f32::NEG_INFINITY.to_bits(), 1.0f32.to_bits()), f32::NEG_INFINITY.to_bits());
}
