//! How a pruning run is configured.
use crate::error::PruneError;
use vstd::prelude::*;

verus! {

/// The smallest chunk size that is accepted.
pub const MIN_CHUNK_SIZE: usize = 1;

/// The largest chunk size that is accepted.
pub const MAX_CHUNK_SIZE: usize = 10_000_000;

/// The chunk size of the default configuration.
pub const DEFAULT_CHUNK_SIZE: usize = 100_000;

/// Mode for pruning operation.
#[derive(Debug, Clone, Copy, PartialEq, Eq, Structural)]
pub enum PruneMode {
    /// Use range proofs for each chunk to verify correctness.
    /// Provides verification that the pruned tree matches the source.
    Verified,
}

impl Default for PruneMode {
    fn default() -> (mode: Self)
        ensures
            mode == PruneMode::Verified,
    {
        PruneMode::Verified
    }
}

/// Configuration for the pruning operation.
#[derive(Debug, Clone)]
pub struct PruneConfig {
    /// Number of key-value pairs to process per chunk.
    /// Larger values use more memory but fewer proof operations.
    pub chunk_size: usize,
    /// Whether to verify chunks with range proofs.
    pub mode: PruneMode,
}

impl Default for PruneConfig {
    fn default() -> (config: Self)
        ensures
            config.chunk_size == DEFAULT_CHUNK_SIZE,
            config.mode == PruneMode::Verified,
    {
        PruneConfig { chunk_size: DEFAULT_CHUNK_SIZE, mode: PruneMode::Verified }
    }
}

impl PruneConfig {
    /// Whether pruning can run with this configuration.
    pub open spec fn is_valid(&self) -> bool {
        MIN_CHUNK_SIZE <= self.chunk_size <= MAX_CHUNK_SIZE
    }

    /// Whether an error says what is wrong with this configuration.
    pub open spec fn refused_with(&self, error: PruneError) -> bool {
        ||| error is ChunkSizeTooSmall && self.chunk_size < MIN_CHUNK_SIZE
        ||| error is ChunkSizeTooLarge && self.chunk_size > MAX_CHUNK_SIZE
    }

    /// Validates the configuration, returning an error if invalid.
    pub fn validate(&self) -> (result: Result<(), PruneError>)
        ensures
            result is Ok <==> self.is_valid(),
            result matches Err(error) ==> self.refused_with(error),
    {
        if self.chunk_size < MIN_CHUNK_SIZE {
            return Err(PruneError::ChunkSizeTooSmall);
        }
        if self.chunk_size > MAX_CHUNK_SIZE {
            return Err(PruneError::ChunkSizeTooLarge);
        }
        Ok(())
    }
}

/// The default configuration is valid.
pub proof fn default_config_is_valid(config: PruneConfig)
    requires
        config.chunk_size == DEFAULT_CHUNK_SIZE,
    ensures
        config.is_valid(),
{
}

/// The accepted chunk sizes are those from one to ten million, and a size is
/// refused as too small only below them, as too large only above.
pub proof fn accepted_chunk_sizes_are_an_interval(config: PruneConfig, error: PruneError)
    ensures
        config.is_valid() <==> 1 <= config.chunk_size <= 10_000_000,
        config.refused_with(error) && error is ChunkSizeTooSmall ==> config.chunk_size < 1,
        config.refused_with(error) && error is ChunkSizeTooLarge ==> config.chunk_size > 10_000_000,
        config.refused_with(error) ==> error is ChunkSizeTooSmall || error is ChunkSizeTooLarge,
        MIN_CHUNK_SIZE == 1,
        MAX_CHUNK_SIZE == 10_000_000,
        DEFAULT_CHUNK_SIZE == 100_000,
{
}

} // verus!
