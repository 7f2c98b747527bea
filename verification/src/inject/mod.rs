//! Injecting the `__DECMPFS` section into a prebuilt stub.

pub mod dispatch;
pub mod elf;
pub mod error;
pub mod fields;
pub mod macho;
pub mod macho_laws;
pub mod macho_walk_laws;
pub mod pe;
pub mod pe_laws;
pub mod sign;
pub mod sign_laws;
pub mod signable_laws;
pub mod superblob;
