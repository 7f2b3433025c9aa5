//! The mesh half: ownership of sandboxes across nodes, migration, replicas
//! and template transfer.
pub mod params;
pub mod sets;
pub mod runtime;
pub mod records;
pub mod migration;
pub mod takeback;
pub mod journal;
pub mod transfer;
pub mod votes;
pub mod replicas;
pub mod publish;
pub mod materialize;
pub mod leases;
pub mod lookup;
pub mod members;
pub mod topology;
pub mod runs;
