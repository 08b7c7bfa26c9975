//! The decisions of a boot chain for x86_64, from the firmware to the kernel:
//! which memory the boot loader takes, how the kernel's ELF file is loaded, which
//! page tables the kernel starts with, what it is told of the machine, and how
//! it answers hardware interrupts.
//!
//! Everything here works on plain values and on page tables that are not in use.
//! Firmware calls, processor registers, raw memory and the interrupt entries are
//! in `app/`.

pub mod address;
pub mod boot;
pub mod elf;
pub mod frames;
pub mod interrupts;
pub mod kernel_space;
pub mod line;
pub mod loader;
pub mod lower_half;
pub mod memory_map;
pub mod mmu;
pub mod page_table;
pub mod paging;
