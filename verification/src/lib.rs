//! Circuit arithmetization layer for a Kimchi-style proving system.
//!
//! The crate builds arithmetic constraint systems over a prime field out of
//! one generic gate family, and computes the matching witness values.  It
//! provides a builder for gate sequences, gadgets for boolean logic,
//! comparisons, SHA-256 compression and RSA signature verification, and the
//! witness generators that mirror each gadget row for row.  The polynomial
//! commitment engine that consumes the finished circuits is a separate
//! component and is not part of this crate.

pub mod config;
pub mod error;
pub mod field;
pub mod boolean;
pub mod comparison;
pub mod rsa;
pub mod sha256;
pub mod gate;
pub mod threshold;
pub mod types;

pub use config::{ProofResult, ProverConfig};
pub use error::{KimchiError, ProverError};
pub use field::FieldElement;
pub use gate::{Gate, GateKind, GateSequenceBuilder};
pub use boolean::{BooleanGadget, BooleanWitness};
pub use comparison::{ComparisonGadget, ComparisonWitness};
pub use rsa::{RsaGadget, RsaWitness, RSA_EXPONENT, RSA_LIMBS};
pub use sha256::{Sha256Gadget, Sha256Witness};
pub use threshold::ThresholdCircuit;
pub use types::{PublicInput, Witness, WitnessData, COLUMNS};
