//! A registry of dairy cows: identity allocation that never reuses an id,
//! an id-ordered record store with create / read / update / delete and
//! milk-production operations, and a byte codec for persisting its records,
//! each with a verified contract.

pub mod codec;
pub mod cow;
pub mod herd;
pub mod laws;
pub mod model;
