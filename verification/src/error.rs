//! Error taxonomy of the store.
//!
//! Every failure is returned as a value; the verified core never panics.

use vstd::prelude::*;
use crate::value::DataType;

verus! {

/// The ways an operation on the store can fail.
#[derive(Clone, Debug)]
pub enum MagdsError {
    /// An operation addressed a sensor name that is not registered.
    UnknownSensor(String),
    /// A tagged value did not match the sensor's key type.
    TypeMismatch { expected: DataType, actual: DataType },
    /// A sensor was requested with the `Unknown` tag.
    InvalidType,
    /// A key that cannot be ordered was handed to a sensor.
    ///
    /// Keys are plain integers or fixed-point numbers here, so the verified
    /// core never produces this; it remains for callers converting from
    /// floating-point inputs, whose non-finite values must be rejected at the
    /// boundary.
    InvalidKey,
    /// A connection of a kind other than `Defining` was requested on a
    /// simple neuron.
    UnsupportedConnectionKind,
    /// A nested mutation of one neuron was requested.
    ///
    /// The store is held by value and mutated under exclusive borrows, so
    /// this cannot arise in the verified core; the variant stands for callers
    /// that wrap the store in shared interior-mutable cells.
    ReentrantBorrow,
    /// A scoring run found a test row whose recorded target decodes to the
    /// `Unknown` poison value.
    CorruptedTestSet,
}

} // verus!
