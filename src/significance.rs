//! What the critical theta of a significance query is made of.
//!
//! For a probability strictly inside `(0, 1)` the critical theta is the
//! inverse CDF of a Beta distribution with shapes `(within / 2, between / 2)`
//! at `p * within / total`, where `total = n - 1`, `between = n_bins - 1` and
//! `within = n - n_bins`. The endpoints of `[0, 1]` map to themselves.
use vstd::prelude::*;
use crate::float_order::{
    eq, eq_bits, is_nan_bits, lt, lt_bits, order_key, ONE_BITS, ZERO_BITS,
};

verus! {

/// Degrees of freedom of the F-like test behind a critical theta.
#[derive(Debug, Clone, Copy, PartialEq, Eq, Structural)]
pub struct DegreesOfFreedom {
    /// `n - 1`
    pub total: u64,
    /// `n_bins - 1`
    pub between: u64,
    /// `n - n_bins`
    pub within: u64,
}

/// How a critical theta is obtained.
#[derive(Debug, Clone, Copy, PartialEq, Eq, Structural)]
pub enum CriticalTheta {
    /// The probability is zero: the critical theta is `0.0`.
    Zero,
    /// The probability is one: the critical theta is `1.0`.
    One,
    /// Evaluate the Beta inverse CDF with these degrees of freedom.
    Beta(DegreesOfFreedom),
}

#[derive(Debug, Clone, Copy, PartialEq, Eq, Structural)]
pub enum SignificanceError {
    /// The probability (as `f64::to_bits`) is not in `[0, 1]`, or is NaN.
    ProbabilityOutOfRange { p_bits: u64 },
    /// The Beta shapes would not be positive: `n_bins > 1` and `n > n_bins`
    /// are needed.
    InvalidShape { n: u64, n_bins: u64 },
}

/// Whether the pattern encodes a probability, a value in `[0, 1]`.
pub open spec fn is_probability(p_bits: u64) -> bool {
    !lt_bits(p_bits, ZERO_BITS) && !lt_bits(ONE_BITS, p_bits) && eq_bits(p_bits, p_bits)
}

pub open spec fn valid_shape(n: u64, n_bins: u64) -> bool {
    n_bins > 1 && n > n_bins
}

pub open spec fn degrees_of_freedom_result(n: u64, n_bins: u64) -> Result<
    DegreesOfFreedom,
    SignificanceError,
> {
    if valid_shape(n, n_bins) {
        Ok(
            DegreesOfFreedom {
                total: (n - 1) as u64,
                between: (n_bins - 1) as u64,
                within: (n - n_bins) as u64,
            },
        )
    } else {
        Err(SignificanceError::InvalidShape { n, n_bins })
    }
}

pub open spec fn critical_theta_result(n: u64, n_bins: u64, p_bits: u64) -> Result<
    CriticalTheta,
    SignificanceError,
> {
    if !is_probability(p_bits) {
        Err(SignificanceError::ProbabilityOutOfRange { p_bits })
    } else if eq_bits(p_bits, ZERO_BITS) {
        Ok(CriticalTheta::Zero)
    } else if eq_bits(p_bits, ONE_BITS) {
        Ok(CriticalTheta::One)
    } else {
        match degrees_of_freedom_result(n, n_bins) {
            Ok(d) => Ok(CriticalTheta::Beta(d)),
            Err(e) => Err(e),
        }
    }
}

/// The degrees of freedom for `n` samples in `n_bins` bins, or an error
/// when the Beta shapes they give would not both be positive.
pub fn degrees_of_freedom(n: u64, n_bins: u64) -> (r: Result<DegreesOfFreedom, SignificanceError>)
    ensures
        r == degrees_of_freedom_result(n, n_bins),
        r is Ok <==> valid_shape(n, n_bins),
{
    if n_bins > 1 && n > n_bins {
        Ok(DegreesOfFreedom { total: n - 1, between: n_bins - 1, within: n - n_bins })
    } else {
        Err(SignificanceError::InvalidShape { n, n_bins })
    }
}

/// Decides how the critical theta for `n` samples, `n_bins` bins and the
/// probability `p` (as `f64::to_bits`) is found. A probability outside
/// `[0, 1]` is refused first; `0` and `1` are answered at once; otherwise
/// the degrees of freedom must be valid.
pub fn plan_critical_theta(n: u64, n_bins: u64, p_bits: u64) -> (r: Result<
    CriticalTheta,
    SignificanceError,
>)
    ensures
        r == critical_theta_result(n, n_bins, p_bits),
{
    if lt(p_bits, ZERO_BITS) || lt(ONE_BITS, p_bits) || !eq(p_bits, p_bits) {
        return Err(SignificanceError::ProbabilityOutOfRange { p_bits });
    }
    if eq(p_bits, ZERO_BITS) {
        Ok(CriticalTheta::Zero)
    } else if eq(p_bits, ONE_BITS) {
        Ok(CriticalTheta::One)
    } else {
        match degrees_of_freedom(n, n_bins) {
            Ok(d) => Ok(CriticalTheta::Beta(d)),
            Err(e) => Err(e),
        }
    }
}

/// A probability of zero gives a critical theta of zero, and a probability
/// of one a critical theta of one, whatever the sample and bin counts.
pub proof fn lemma_critical_theta_boundaries(n: u64, n_bins: u64)
    ensures
        critical_theta_result(n, n_bins, ZERO_BITS) == Ok::<CriticalTheta, SignificanceError>(
            CriticalTheta::Zero,
        ),
        critical_theta_result(n, n_bins, ONE_BITS) == Ok::<CriticalTheta, SignificanceError>(
            CriticalTheta::One,
        ),
{
    assert(!is_nan_bits(ZERO_BITS) && order_key(ZERO_BITS) == 0) by (bit_vector);
    assert(!is_nan_bits(ONE_BITS) && order_key(ONE_BITS) == 0x3ff0_0000_0000_0000) by (bit_vector);
}

} // verus!
