use phasedm::error::{
    check_matching_length, check_min_less_max, check_positive_uncertainties, InputError,
};

fn b(x: f64) -> u64 {
    x.to_bits()
}

#[test]
fn length_mismatch_is_a_shape_error() {
    assert_eq!(
        check_matching_length(5, 4, None),
        Err(InputError::LengthMismatch { first: 5, second: 4 })
    );
}

#[test]
fn uncertainty_length_mismatch_is_a_shape_error() {
    assert_eq!(
        check_matching_length(5, 5, Some(3)),
        Err(InputError::UncertaintyLengthMismatch { data: 5, uncertainty: 3 })
    );
}

#[test]
fn matching_lengths_pass() {
    assert_eq!(check_matching_length(5, 5, None), Ok(()));
    assert_eq!(check_matching_length(5, 5, Some(5)), Ok(()));
    assert_eq!(check_matching_length(0, 0, Some(0)), Ok(()));
}

#[test]
fn min_above_max_is_a_range_error() {
    assert_eq!(
        check_min_less_max(b(5.0), b(2.0), 10),
        Err(InputError::MinAboveMax { min_freq_bits: b(5.0), max_freq_bits: b(2.0) })
    );
}

#[test]
fn equal_bounds_with_many_points_is_a_range_error() {
    assert_eq!(
        check_min_less_max(b(3.0), b(3.0), 2),
        Err(InputError::SingleFrequencyCount { n_freqs: 2 })
    );
}

#[test]
fn negative_bound_is_a_range_error() {
    assert_eq!(
        check_min_less_max(b(-1.0), b(5.0), 10),
        Err(InputError::NegativeFrequency { min_freq_bits: b(-1.0), max_freq_bits: b(5.0) })
    );
    assert_eq!(
        check_min_less_max(b(-5.0), b(-1.0), 10),
        Err(InputError::NegativeFrequency { min_freq_bits: b(-5.0), max_freq_bits: b(-1.0) })
    );
}

#[test]
fn valid_ranges_pass() {
    assert_eq!(check_min_less_max(b(0.1), b(2.0), 100), Ok(()));
    assert_eq!(check_min_less_max(b(3.0), b(3.0), 1), Ok(()));
    assert_eq!(check_min_less_max(b(0.0), b(1.0), 2), Ok(()));
    assert_eq!(check_min_less_max(b(-0.0), b(0.0), 1), Ok(()));
}

#[test]
fn negative_zero_equals_zero() {
    assert_eq!(
        check_min_less_max(b(-0.0), b(0.0), 3),
        Err(InputError::SingleFrequencyCount { n_freqs: 3 })
    );
}

#[test]
fn positive_uncertainties_pass() {
    assert_eq!(check_positive_uncertainties(&vec![b(0.5), b(1.0), b(1e-300)]), Ok(()));
    assert_eq!(check_positive_uncertainties(&vec![]), Ok(()));
}

#[test]
fn first_non_positive_uncertainty_is_reported() {
    assert_eq!(
        check_positive_uncertainties(&vec![b(0.5), b(0.0), b(-1.0)]),
        Err(InputError::NonPositiveUncertainty { index: 1 })
    );
    assert_eq!(
        check_positive_uncertainties(&vec![b(1.0), b(-0.0)]),
        Err(InputError::NonPositiveUncertainty { index: 1 })
    );
    assert_eq!(
        check_positive_uncertainties(&vec![b(f64::NAN)]),
        Err(InputError::NonPositiveUncertainty { index: 0 })
    );
}
