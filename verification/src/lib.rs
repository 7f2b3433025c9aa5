//! The decisions of a sandbox daemon: who owns a sandbox and until when, how it moves
//! between nodes, how its network is fenced, where a fleet places it, and what a
//! restarted daemon makes of what it finds.
//!
//! Nothing here does I/O. A procedure that alternates with the outside world is a
//! machine that names its next step and takes what came of it.
pub mod decimal;
pub mod error;
pub mod floats;
pub mod json;
pub mod mesh;
pub mod models;
pub mod net;
pub mod numset;
pub mod orch;
pub mod outside;
pub mod paths;
pub mod pools;
pub mod registry;
pub mod sharded;
pub mod split;
pub mod text;
pub mod textmap;
