//! Multi-associative graph data store.
//!
//! Tabular data is ingested as one ordered sensor graph per attribute plus one
//! object neuron per row; prediction queries spread activation from matching
//! sensor values to the connected objects and read the answer back from the
//! most strongly activated one.
//!
//! Activation levels, signals, similarities and probabilities are fixed-point
//! numbers carried in millionths (see [`num::SCALE`]), which keeps every
//! computation exact and deterministic.

pub mod connection;
pub mod error;
pub mod laws;
pub mod magds;
pub mod neuron;
pub mod num;
pub mod parser;
pub mod predict;
pub mod sensor;
pub mod text;
pub mod value;
