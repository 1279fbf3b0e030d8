//! Checks made on the inputs of a sweep before any work starts.
use vstd::prelude::*;
use crate::float_order::{eq, eq_bits, lt, lt_bits, ZERO_BITS};

verus! {

/// Why the inputs of a sweep were refused.
///
/// Frequencies are carried as `f64` bit patterns (see `float_order`).
#[derive(Debug, Clone, Copy, PartialEq, Eq, Structural)]
pub enum InputError {
    /// The time and signal arrays differ in length.
    LengthMismatch { first: usize, second: usize },
    /// The uncertainty array differs in length from the data.
    UncertaintyLengthMismatch { data: usize, uncertainty: usize },
    /// `min_freq > max_freq`.
    MinAboveMax { min_freq_bits: u64, max_freq_bits: u64 },
    /// `min_freq == max_freq` while more than one frequency was asked for.
    SingleFrequencyCount { n_freqs: u64 },
    /// One of the bounds is negative.
    NegativeFrequency { min_freq_bits: u64, max_freq_bits: u64 },
    /// The uncertainty at `index` is not strictly positive (or is NaN).
    NonPositiveUncertainty { index: usize },
}

pub open spec fn matching_length_result(
    time_len: usize,
    signal_len: usize,
    sigma_len: Option<usize>,
) -> Result<(), InputError> {
    if time_len != signal_len {
        Err(InputError::LengthMismatch { first: time_len, second: signal_len })
    } else {
        match sigma_len {
            Some(s) if s != time_len => Err(
                InputError::UncertaintyLengthMismatch { data: time_len, uncertainty: s },
            ),
            _ => Ok(()),
        }
    }
}

/// The time, signal and (if present) uncertainty arrays, given by their
/// lengths, must all have the same length.
pub fn check_matching_length(time_len: usize, signal_len: usize, sigma_len: Option<usize>) -> (r:
    Result<(), InputError>)
    ensures
        r == matching_length_result(time_len, signal_len, sigma_len),
        r is Ok <==> (time_len == signal_len && (sigma_len matches Some(s) ==> s == time_len)),
{
    if time_len != signal_len {
        return Err(InputError::LengthMismatch { first: time_len, second: signal_len });
    }
    match sigma_len {
        Some(s) => {
            if s != time_len {
                return Err(InputError::UncertaintyLengthMismatch { data: time_len, uncertainty: s });
            }
        },
        None => {},
    }
    Ok(())
}

/// The verdict on a frequency range; the first rule broken wins.
pub open spec fn freq_range_result(min_freq_bits: u64, max_freq_bits: u64, n_freqs: u64) -> Result<
    (),
    InputError,
> {
    if lt_bits(max_freq_bits, min_freq_bits) {
        Err(InputError::MinAboveMax { min_freq_bits, max_freq_bits })
    } else if eq_bits(min_freq_bits, max_freq_bits) && n_freqs != 1 {
        Err(InputError::SingleFrequencyCount { n_freqs })
    } else if lt_bits(min_freq_bits, 0) || lt_bits(max_freq_bits, 0) {
        Err(InputError::NegativeFrequency { min_freq_bits, max_freq_bits })
    } else {
        Ok(())
    }
}

/// Checks the frequency range `[min_freq, max_freq]` with `n_freqs` points,
/// both bounds given as `f64::to_bits`: the lower bound may not exceed the
/// upper one, equal bounds ask for exactly one frequency, and neither bound
/// may be negative.
pub fn check_min_less_max(min_freq_bits: u64, max_freq_bits: u64, n_freqs: u64) -> (r: Result<
    (),
    InputError,
>)
    ensures
        r == freq_range_result(min_freq_bits, max_freq_bits, n_freqs),
{
    if lt(max_freq_bits, min_freq_bits) {
        Err(InputError::MinAboveMax { min_freq_bits, max_freq_bits })
    } else if eq(min_freq_bits, max_freq_bits) && n_freqs != 1 {
        Err(InputError::SingleFrequencyCount { n_freqs })
    } else if lt(min_freq_bits, ZERO_BITS) || lt(max_freq_bits, ZERO_BITS) {
        Err(InputError::NegativeFrequency { min_freq_bits, max_freq_bits })
    } else {
        Ok(())
    }
}

/// Whether the pattern encodes a value strictly greater than zero.
pub open spec fn is_positive_bits(b: u64) -> bool {
    lt_bits(ZERO_BITS, b)
}

/// Every uncertainty (as `f64::to_bits`) must be strictly positive; the
/// first one that is not is reported.
pub fn check_positive_uncertainties(sigma_bits: &Vec<u64>) -> (r: Result<(), InputError>)
    ensures
        r is Ok <==> forall|i: int| 0 <= i < sigma_bits@.len() ==> is_positive_bits(
            #[trigger] sigma_bits@[i],
        ),
        r matches Err(e) ==> e matches InputError::NonPositiveUncertainty { index } && index
            < sigma_bits@.len() && !is_positive_bits(sigma_bits@[index as int]) && forall|i: int|
            0 <= i < index ==> is_positive_bits(#[trigger] sigma_bits@[i]),
{
    let mut i: usize = 0;
    while i < sigma_bits.len()
        invariant
            i <= sigma_bits@.len(),
            forall|j: int| 0 <= j < i ==> is_positive_bits(#[trigger] sigma_bits@[j]),
        decreases sigma_bits@.len() - i,
    {
        if !lt(ZERO_BITS, sigma_bits[i]) {
            return Err(InputError::NonPositiveUncertainty { index: i });
        }
        i += 1;
    }
    Ok(())
}

} // verus!
