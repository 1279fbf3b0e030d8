use phasedm::significance::{
    degrees_of_freedom, plan_critical_theta, CriticalTheta, DegreesOfFreedom, SignificanceError,
};

#[test]
fn probability_above_one_is_refused() {
    assert_eq!(
        plan_critical_theta(100, 10, 1.5f64.to_bits()),
        Err(SignificanceError::ProbabilityOutOfRange { p_bits: 1.5f64.to_bits() })
    );
}

#[test]
fn negative_and_nan_probabilities_are_refused() {
    assert!(matches!(
        plan_critical_theta(100, 10, (-0.1f64).to_bits()),
        Err(SignificanceError::ProbabilityOutOfRange { .. })
    ));
    assert!(matches!(
        plan_critical_theta(100, 10, f64::NAN.to_bits()),
        Err(SignificanceError::ProbabilityOutOfRange { .. })
    ));
}

#[test]
fn probability_zero_gives_zero() {
    assert_eq!(plan_critical_theta(100, 10, 0.0f64.to_bits()), Ok(CriticalTheta::Zero));
    assert_eq!(plan_critical_theta(100, 10, (-0.0f64).to_bits()), Ok(CriticalTheta::Zero));
}

#[test]
fn probability_one_gives_one() {
    assert_eq!(plan_critical_theta(100, 10, 1.0f64.to_bits()), Ok(CriticalTheta::One));
}

#[test]
fn boundaries_hold_for_invalid_counts_too() {
    assert_eq!(plan_critical_theta(3, 5, 0.0f64.to_bits()), Ok(CriticalTheta::Zero));
    assert_eq!(plan_critical_theta(0, 0, 1.0f64.to_bits()), Ok(CriticalTheta::One));
}

#[test]
fn interior_probability_uses_beta_shapes() {
    assert_eq!(
        plan_critical_theta(100, 10, 0.05f64.to_bits()),
        Ok(CriticalTheta::Beta(DegreesOfFreedom { total: 99, between: 9, within: 90 }))
    );
}

#[test]
fn invalid_shapes_are_refused() {
    assert_eq!(
        plan_critical_theta(10, 10, 0.5f64.to_bits()),
        Err(SignificanceError::InvalidShape { n: 10, n_bins: 10 })
    );
    assert_eq!(
        plan_critical_theta(10, 1, 0.5f64.to_bits()),
        Err(SignificanceError::InvalidShape { n: 10, n_bins: 1 })
    );
    assert_eq!(
        degrees_of_freedom(0, 0),
        Err(SignificanceError::InvalidShape { n: 0, n_bins: 0 })
    );
}

#[test]
fn smallest_valid_shape() {
    assert_eq!(
        degrees_of_freedom(3, 2),
        Ok(DegreesOfFreedom { total: 2, between: 1, within: 1 })
    );
}
