use vstd::prelude::*;

pub mod cfg;
pub mod emu;
pub mod endian;
pub mod mmu;
pub mod module;
pub mod reg;
pub mod workspace;

verus! {

/// A virtual address in the emulated address space.
///
/// Addresses are uniformly 64 bits wide; in 32-bit mode the upper half is
/// simply zero.
pub type VA = u64;

/// A relative virtual address: an offset from a module's base address.
pub type RVA = u64;

/// The instruction-set architecture of a module or emulator.
#[derive(Clone, Copy, PartialEq, Eq, Structural, Debug)]
pub enum Arch {
    X32,
    X64,
}

} // verus!
