//! Protection of sensitive data that is resident in a running process:
//! authenticated encryption of in-memory fragments, a slot-indexed encrypted
//! store, a typed provider over it, seed mixing for key material, and the
//! scrambling and tampering of byte regions.

pub mod actors;
pub mod cipher;
pub mod random;
pub mod tools;
pub mod utils;
