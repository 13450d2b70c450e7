//! The bridge between forge tile pipelines and Plato agent rooms.
//!
//! One tile maps to one tick and back: a tile is carried through the pipeline
//! as the payload of a tick, agents act on ticks, and the tile is reconstructed
//! from the tick with the agents that touched it stamped into its provenance.

pub mod bridge;
pub mod ids;
pub mod mapper;
pub mod room;
pub mod types;

pub use bridge::{BridgeConfig, BridgeStats, ForgeBridge};
pub use mapper::{TickToTileMapper, TileToTickMapper};
pub use room::ForgeRoom;
pub use types::{ForgeTick, ForgeTickKind, Tile, TileMetadata};
