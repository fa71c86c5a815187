//! Procedural world generation rules and player-relative chunk streaming.

pub mod biome;
pub mod features;
pub mod queue;
pub mod random;
pub mod streaming;
pub mod terrain;

pub use biome::Biome;
pub use queue::{ChunkGenerationQueue, ChunkLifecycle, ChunkPriority};
pub use terrain::{is_chunk_potentially_empty, SEA_LEVEL};
