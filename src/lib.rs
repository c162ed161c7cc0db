//! Coordinator and worker logic of a distributed fractal renderer: the wire
//! framing, the tile planner, the dispatch state and the rendering buffer.

pub mod cli;
pub mod codec;
pub mod error;
pub mod models;
pub mod palette;
pub mod payload;
pub mod registry;
pub mod render;
pub mod server;
pub mod server_state;
pub mod tiles;
pub mod worker;
