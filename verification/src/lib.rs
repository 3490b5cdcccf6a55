//! Memory protection and system image assembly for an ARMv7-M microkernel.
//!
//! Two verified components live here:
//!
//! * the PMSAv7 region compiler, which turns logical memory regions into MPU
//!   register images, together with the register write protocol;
//! * the system assembler, which merges a kernel ELF image with application
//!   ELF images while keeping every load address where the linker put it.

pub mod assembler_laws;
pub mod elf;
pub mod memory_config;
pub mod merge;
pub mod object_ops;
pub mod protection_v7;
pub mod region_laws;
pub mod regs;
pub mod system_assembler;
pub mod text;
