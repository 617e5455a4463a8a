//! Configuration values that models are built with.
use vstd::prelude::*;

verus! {

/// The fixed-step method that a model with differential-equation state
/// integrates with.
#[derive(Debug, Clone, Copy, PartialEq, Eq, Structural)]
pub enum SolverType {
    /// Explicit Euler: `x' = x + f(x)·Δt`.
    Euler,
    /// Classical fourth-order Runge-Kutta, all stages on the same inputs.
    RungeKutta,
}

/// The shape of a periodic source.
#[derive(Debug, Clone, Copy, PartialEq, Eq, Structural)]
pub enum WaveFuncType {
    Sin,
    Triangle,
    /// A square wave with a duty cycle of one half.
    Square,
}


/// Why a model could not be built from the sizes it was given.
#[derive(Debug, Clone, Copy, PartialEq, Eq, Structural)]
pub enum ConfigError {
    /// A state, input or output dimension is zero.
    ZeroDimension,
    /// A list holds `found` entries where the model's shape asks for `expected`.
    LengthMismatch { expected: usize, found: usize },
    /// A transfer function's numerator has more coefficients than its
    /// denominator, or none.
    NotProper,
    /// A matrix of the requested shape has more entries than `usize` counts.
    TooLarge,
}

/// State, input and output dimensions of a state-space model must all be
/// positive.
pub fn check_dims(sdim: usize, idim: usize, odim: usize) -> (r: Result<(), ConfigError>)
    ensures
        r is Ok == (sdim > 0 && idim > 0 && odim > 0),
        r is Err ==> r == Err::<(), ConfigError>(ConfigError::ZeroDimension),
{
    if sdim == 0 || idim == 0 || odim == 0 {
        Err(ConfigError::ZeroDimension)
    } else {
        Ok(())
    }
}

/// A list of `found` entries where `expected` are needed.
pub fn check_len(found: usize, expected: usize) -> (r: Result<(), ConfigError>)
    ensures
        r is Ok == (found == expected),
        r is Err ==> r == Err::<(), ConfigError>(ConfigError::LengthMismatch { expected, found }),
{
    if found == expected {
        Ok(())
    } else {
        Err(ConfigError::LengthMismatch { expected, found })
    }
}

/// Number of entries of a `rows` by `cols` matrix.
pub fn matrix_len(rows: usize, cols: usize) -> (r: Result<usize, ConfigError>)
    ensures
        rows * cols <= usize::MAX ==> r == Ok::<usize, ConfigError>((rows * cols) as usize),
        rows * cols > usize::MAX ==> r == Err::<usize, ConfigError>(ConfigError::TooLarge),
{
    match rows.checked_mul(cols) {
        Some(n) => Ok(n),
        None => Err(ConfigError::TooLarge),
    }
}

/// The state dimension of the state-space form of a transfer function with
/// `num_len` numerator and `den_len` denominator coefficients (highest
/// order first), between an input bus of `in_len` and an output bus of
/// `out_len` signals: one less than the denominator's coefficient count.
/// The denominator must be of order one at least, the function proper,
/// and both buses hold one signal; checked in that order.
pub fn tf_state_dim(num_len: usize, den_len: usize, in_len: usize, out_len: usize) -> (r: Result<
    usize,
    ConfigError,
>)
    ensures
        den_len < 2 ==> r == Err::<usize, ConfigError>(ConfigError::ZeroDimension),
        den_len >= 2 && (num_len == 0 || num_len > den_len) ==> r == Err::<usize, ConfigError>(
            ConfigError::NotProper,
        ),
        den_len >= 2 && 0 < num_len <= den_len && in_len != 1 ==> r == Err::<usize, ConfigError>(
            ConfigError::LengthMismatch { expected: 1, found: in_len },
        ),
        den_len >= 2 && 0 < num_len <= den_len && in_len == 1 && out_len != 1 ==> r == Err::<
            usize,
            ConfigError,
        >(ConfigError::LengthMismatch { expected: 1, found: out_len }),
        den_len >= 2 && 0 < num_len <= den_len && in_len == 1 && out_len == 1 ==> r == Ok::<
            usize,
            ConfigError,
        >((den_len - 1) as usize),
{
    if den_len < 2 {
        return Err(ConfigError::ZeroDimension);
    }
    if num_len == 0 || num_len > den_len {
        return Err(ConfigError::NotProper);
    }
    check_len(in_len, 1)?;
    check_len(out_len, 1)?;
    Ok(den_len - 1)
}

} // verus!
