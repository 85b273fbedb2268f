//! Verified core of a runtime script-replacement plugin: plugin address
//! ranges, registries of replacement scripts, ELF symbol lookup, agent
//! creator decoding and hex dumps.

pub mod raw_dump;
pub mod rtld;
pub mod scripts;
pub mod silent;
pub mod text;
pub mod unwind;
