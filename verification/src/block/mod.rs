//! Compact block IDs and centralized block metadata.

pub mod definition;
pub mod id;
pub mod registry;

pub use definition::{BlockDefinition, BlockFace, FaceTextureIndices, TextureIndex};
pub use id::{BlockId, InvalidBlockId, BUILTIN_BLOCK_COUNT};
pub use registry::BlockRegistry;
