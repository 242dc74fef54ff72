use ndarray::Array2;

// Matrix arithmetic is left to ndarray, outside this library.
#[test]
fn matrix_mul() {
    let m1 = Array2::from_shape_vec((3, 3), vec![1.0, 2.0, 3.0, 4.0, 5.0, 6.0, 7.0, 8.0, 9.0]).unwrap();
    let m2 = Array2::from_shape_vec((3, 2), vec![1.0, 2.0, 3.0, 4.0, 5.0, 6.0]).unwrap();
    let m3 = m1.dot(&m2);
    let expected =
        Array2::from_shape_vec((3, 2), vec![22.0, 28.0, 49.0, 64.0, 76.0, 100.0]).unwrap();
    assert_eq!(m3, expected);
}
