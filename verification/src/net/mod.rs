//! Host networking of sandboxes: addresses, rules, leases and what is run for them.
pub mod addr;
pub mod cidr;
pub mod lease;
pub mod rules;
pub mod allocator;
pub mod plan;
pub mod packets;
pub mod refresh;
pub mod slots;
pub mod host;
pub mod fill;
pub mod status;
pub mod vpc;
pub mod sandbox;
pub mod journal;
pub mod readback;
