//! Configuration for the surrounding prover, and the record a proof
//! request returns to its caller.

use vstd::prelude::*;

verus! {

/// Configuration for the prover.
#[derive(Clone, Debug)]
pub struct ProverConfig {
    /// Log2 of the maximum circuit size the reference string supports.
    pub srs_log2_size: usize,
    /// Enable debug output.
    pub debug: bool,
}

impl Default for ProverConfig {
    /// 2^14 rows, no debug output.
    fn default() -> (r: Self)
        ensures
            r.srs_log2_size == 14,
            !r.debug,
    {
        ProverConfig { srs_log2_size: 14, debug: false }
    }
}

/// Result of proof generation, as handed to the application boundary.
#[derive(Clone, Debug)]
pub struct ProofResult {
    /// Handle to the proof kept in memory for later verification.
    pub proof_handle: u64,
    /// Serialized proof, hex-encoded for transmission or storage.
    pub proof_bytes: String,
    /// Public inputs as hex-encoded field elements.
    pub public_inputs: Vec<String>,
    /// Time taken in milliseconds.
    pub generation_time_ms: u64,
    /// Size of the proof in bytes.
    pub proof_size_bytes: u64,
}

} // verus!
