//! FinnOS firmware handoff, boot-manager ELF checks, and the architecture
//! policy of the early kernel, with their contracts proved by Verus.
#![allow(non_upper_case_globals)]
#![allow(non_snake_case)]

pub mod boot_protocol;
pub mod boot_validation;
pub mod elf;
pub mod loader;
pub mod x86_64;
pub mod task;
pub mod aarch64;
