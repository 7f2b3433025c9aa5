//! The sandbox registry: what each sandbox is meant to be, what it was last seen
//! to be, and the rules by which one catches up with the other.
pub mod codec;
pub mod identity;
pub mod lifecycle;
pub mod record;
pub mod rehydrate;
pub mod store;
