//! Early-boot building blocks of a small kernel: a physical frame allocator
//! that walks the firmware memory map around the reserved ranges, and the
//! text console that lays characters out on a 25 x 80 grid.

pub mod boot;
pub mod lock;
pub mod memory;
pub mod memory_proofs;
pub mod vga_buffer;
pub mod vga_proofs;
