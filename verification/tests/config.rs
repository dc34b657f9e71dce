use cnidarium::config::{DEFAULT_CHUNK_SIZE, MAX_CHUNK_SIZE, MIN_CHUNK_SIZE};
use cnidarium::{PruneConfig, PruneError, PruneMode};

#[test]
fn test_prune_config_validation() {
    // Valid config
    let config = PruneConfig::default();
    assert!(config.validate().is_ok());

    // Invalid: zero chunk size
    let config = PruneConfig {
        chunk_size: 0,
        mode: PruneMode::Verified,
    };
    assert!(config.validate().is_err());

    // Invalid: chunk size too large
    let config = PruneConfig {
        chunk_size: 100_000_000,
        mode: PruneMode::Verified,
    };
    assert!(config.validate().is_err());
}

fn with_chunk_size(chunk_size: usize) -> PruneConfig {
    PruneConfig {
        chunk_size,
        ..Default::default()
    }
}

#[test]
fn default_configuration_has_documented_values() {
    let config = PruneConfig::default();
    assert_eq!(config.chunk_size, 100_000);
    assert_eq!(config.chunk_size, DEFAULT_CHUNK_SIZE);
    assert_eq!(config.mode, PruneMode::Verified);
    assert_eq!(PruneMode::default(), PruneMode::Verified);
}

#[test]
fn chunk_size_bounds_are_inclusive() {
    assert_eq!(MIN_CHUNK_SIZE, 1);
    assert_eq!(MAX_CHUNK_SIZE, 10_000_000);
    assert!(with_chunk_size(1).validate().is_ok());
    assert!(with_chunk_size(10_000_000).validate().is_ok());
    assert!(matches!(
        with_chunk_size(0).validate(),
        Err(PruneError::ChunkSizeTooSmall)
    ));
    assert!(matches!(
        with_chunk_size(10_000_001).validate(),
        Err(PruneError::ChunkSizeTooLarge)
    ));
}

#[test]
fn refused_configurations_say_why() {
    let small = with_chunk_size(0).validate().unwrap_err();
    assert_eq!(small.message(), "chunk_size must be at least 1");
    let large = with_chunk_size(100_000_000).validate().unwrap_err();
    assert_eq!(large.message(), "chunk_size exceeds maximum of 10 million");
}
