use neural_net::utils::{
    convert_number_to_target_vec, convert_result_vec_to_number, find_max_index, DecodeError,
};

#[test]
fn test_convert_number_to_target_vec_valid() {
    let result: Vec<f64> = convert_number_to_target_vec(3);
    let expected = vec![0.0, 0.0, 0.0, 1.0, 0.0, 0.0, 0.0, 0.0, 0.0, 0.0];
    assert_eq!(result, expected);
}

#[test]
fn test_convert_number_to_target_vec_out_of_bounds() {
    let result: Vec<f64> = convert_number_to_target_vec(10);
    let expected = vec![0.0; 10];
    assert_eq!(result, expected);
}

#[test]
fn test_find_max_index_non_empty() {
    let vec = vec![0.2, 0.9, 0.7];
    let max_index = find_max_index(vec);
    assert_eq!(max_index, Some(1));
}

#[test]
fn test_find_max_index_empty() {
    let vec: Vec<f64> = Vec::new();
    let max_index = find_max_index(vec);
    assert_eq!(max_index, None);
}

#[test]
fn test_find_max_index_equal_elements() {
    // Ties go to the earliest index.
    let vec = vec![1.0, 1.0, 1.0];
    let max_index = find_max_index(vec);
    assert_eq!(max_index, Some(0));
}

#[test]
fn test_convert_result_vec_to_number_valid() {
    let result_vec = vec![0.1, 0.5, 0.2, 0.2];
    let number = convert_result_vec_to_number(result_vec);
    assert_eq!(number, Ok(1));
}

#[test]
#[should_panic(expected = "Invalid inputs length")]
fn test_convert_result_vec_to_number_invalid() {
    let result_vec: Vec<f64> = vec![];
    convert_result_vec_to_number(result_vec).expect("Invalid inputs length");
}

#[test]
fn decoding_an_empty_vector_fails() {
    let empty: Vec<f64> = Vec::new();
    assert_eq!(convert_result_vec_to_number(empty), Err(DecodeError::EmptyVector));
}

#[test]
fn every_out_of_range_digit_encodes_to_zeros() {
    for num in [10usize, 11, 1000, usize::MAX] {
        let v: Vec<f64> = convert_number_to_target_vec(num);
        assert_eq!(v, vec![0.0; 10]);
    }
}

#[test]
fn every_digit_round_trips_through_its_encoding() {
    for num in 0..10usize {
        let v: Vec<f64> = convert_number_to_target_vec(num);
        assert_eq!(v.iter().filter(|&&x| x == 1.0).count(), 1);
        assert_eq!(convert_result_vec_to_number(v), Ok(num));
    }
}

#[test]
fn integer_encodings_use_zero_and_one() {
    let v: Vec<i32> = convert_number_to_target_vec(9);
    assert_eq!(v, vec![0, 0, 0, 0, 0, 0, 0, 0, 0, 1]);
}

#[test]
fn the_first_of_several_maxima_wins() {
    assert_eq!(find_max_index(vec![3, 7, 2, 7, 1]), Some(1));
    assert_eq!(find_max_index(vec![-1.0, -0.5, -0.5]), Some(1));
}
