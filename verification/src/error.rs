//! Error types for circuit construction, witness generation and the
//! surrounding proving workflow.

use vstd::prelude::*;
use vstd::string::StringExecFns;

verus! {

/// Errors that can occur while building circuits, generating witnesses, or
/// driving the external proving engine.
#[derive(Debug)]
pub enum ProverError {
    /// Error during circuit setup.
    SetupError(String),
    /// Error during witness generation.
    WitnessError(String),
    /// Error during proof generation.
    ProvingError(String),
    /// Error during proof verification.
    VerificationError(String),
    /// Invalid input provided.
    InvalidInput(String),
    /// Serialization or deserialization error.
    SerializationError(String),
    /// Constraint system error.
    ConstraintError(String),
    /// Generic internal error.
    InternalError(String),
}

impl ProverError {
    /// The error's full text: a fixed label for the kind followed by the
    /// detail message.
    pub open spec fn message_view(self) -> Seq<char> {
        match self {
            ProverError::SetupError(s) => "Circuit setup failed: "@ + s@,
            ProverError::WitnessError(s) => "Witness generation failed: "@ + s@,
            ProverError::ProvingError(s) => "Proof generation failed: "@ + s@,
            ProverError::VerificationError(s) => "Proof verification failed: "@ + s@,
            ProverError::InvalidInput(s) => "Invalid input: "@ + s@,
            ProverError::SerializationError(s) => "Serialization error: "@ + s@,
            ProverError::ConstraintError(s) => "Constraint system error: "@ + s@,
            ProverError::InternalError(s) => "Internal error: "@ + s@,
        }
    }

    /// Render the error as text.
    pub fn message(&self) -> (m: String)
        ensures
            m@ == self.message_view(),
    {
        match self {
            ProverError::SetupError(s) => {
                let mut m = String::from_str("Circuit setup failed: ");
                m.append(s.as_str());
                m
            },
            ProverError::WitnessError(s) => {
                let mut m = String::from_str("Witness generation failed: ");
                m.append(s.as_str());
                m
            },
            ProverError::ProvingError(s) => {
                let mut m = String::from_str("Proof generation failed: ");
                m.append(s.as_str());
                m
            },
            ProverError::VerificationError(s) => {
                let mut m = String::from_str("Proof verification failed: ");
                m.append(s.as_str());
                m
            },
            ProverError::InvalidInput(s) => {
                let mut m = String::from_str("Invalid input: ");
                m.append(s.as_str());
                m
            },
            ProverError::SerializationError(s) => {
                let mut m = String::from_str("Serialization error: ");
                m.append(s.as_str());
                m
            },
            ProverError::ConstraintError(s) => {
                let mut m = String::from_str("Constraint system error: ");
                m.append(s.as_str());
                m
            },
            ProverError::InternalError(s) => {
                let mut m = String::from_str("Internal error: ");
                m.append(s.as_str());
                m
            },
        }
    }
}

/// Errors exposed at the outermost application boundary.
#[derive(Debug)]
pub enum KimchiError {
    SetupError(String),
    ProvingError(String),
    VerificationError(String),
    SerializationError(String),
    InvalidInput(String),
    ProofNotFound(String),
}

impl KimchiError {
    /// The error's full text: a fixed label for the kind followed by the
    /// detail message.
    pub open spec fn message_view(self) -> Seq<char> {
        match self {
            KimchiError::SetupError(s) => "Setup error: "@ + s@,
            KimchiError::ProvingError(s) => "Proving error: "@ + s@,
            KimchiError::VerificationError(s) => "Verification error: "@ + s@,
            KimchiError::SerializationError(s) => "Serialization error: "@ + s@,
            KimchiError::InvalidInput(s) => "Invalid input: "@ + s@,
            KimchiError::ProofNotFound(s) => "Proof not found: "@ + s@,
        }
    }

    /// Render the error as text.
    pub fn message(&self) -> (m: String)
        ensures
            m@ == self.message_view(),
    {
        match self {
            KimchiError::SetupError(s) => {
                let mut m = String::from_str("Setup error: ");
                m.append(s.as_str());
                m
            },
            KimchiError::ProvingError(s) => {
                let mut m = String::from_str("Proving error: ");
                m.append(s.as_str());
                m
            },
            KimchiError::VerificationError(s) => {
                let mut m = String::from_str("Verification error: ");
                m.append(s.as_str());
                m
            },
            KimchiError::SerializationError(s) => {
                let mut m = String::from_str("Serialization error: ");
                m.append(s.as_str());
                m
            },
            KimchiError::InvalidInput(s) => {
                let mut m = String::from_str("Invalid input: ");
                m.append(s.as_str());
                m
            },
            KimchiError::ProofNotFound(s) => {
                let mut m = String::from_str("Proof not found: ");
                m.append(s.as_str());
                m
            },
        }
    }
}

} // verus!
