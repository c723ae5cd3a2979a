use vstd::prelude::*;

verus! {

/// The sixteen general-purpose 64-bit register slots, named by their full
/// 64-bit form.  Narrower views (32/16/8-bit) are addressed by passing the
/// operand size to `write_gpr`.
#[derive(Clone, Copy, PartialEq, Eq, Structural, Debug)]
pub enum Gpr {
    Rax,
    Rcx,
    Rdx,
    Rbx,
    Rsp,
    Rbp,
    Rsi,
    Rdi,
    R8,
    R9,
    R10,
    R11,
    R12,
    R13,
    R14,
    R15,
}

/// The architectural register file: sixteen general-purpose registers plus
/// the instruction pointer.  A flags word is reserved for later work and is
/// not modelled yet.
#[derive(Clone, Copy, PartialEq, Eq, Structural, Debug)]
pub struct Registers {
    pub rax: u64,
    pub rcx: u64,
    pub rdx: u64,
    pub rbx: u64,
    pub rsp: u64,
    pub rbp: u64,
    pub rsi: u64,
    pub rdi: u64,
    pub r8: u64,
    pub r9: u64,
    pub r10: u64,
    pub r11: u64,
    pub r12: u64,
    pub r13: u64,
    pub r14: u64,
    pub r15: u64,
    pub rip: u64,
}

/// The partial-register update rule: the value the full 64-bit slot holds
/// after a write of `value` at the given operand `size`.
///
/// - 64-bit writes replace the slot;
/// - 32-bit writes zero-extend: bits [63:32] of the result are zero;
/// - 16- and 8-bit writes replace only the low bits and keep the rest.
pub open spec fn merged(prior: u64, size: u16, value: u64) -> u64 {
    if size == 64 {
        value
    } else if size == 32 {
        value & 0xFFFF_FFFF
    } else if size == 16 {
        (prior & 0xFFFF_FFFF_FFFF_0000) | (value & 0xFFFF)
    } else {
        (prior & 0xFFFF_FFFF_FFFF_FF00) | (value & 0xFF)
    }
}

/// The value of the named slot.
pub open spec fn spec_get(regs: Registers, g: Gpr) -> u64 {
    match g {
        Gpr::Rax => regs.rax,
        Gpr::Rcx => regs.rcx,
        Gpr::Rdx => regs.rdx,
        Gpr::Rbx => regs.rbx,
        Gpr::Rsp => regs.rsp,
        Gpr::Rbp => regs.rbp,
        Gpr::Rsi => regs.rsi,
        Gpr::Rdi => regs.rdi,
        Gpr::R8 => regs.r8,
        Gpr::R9 => regs.r9,
        Gpr::R10 => regs.r10,
        Gpr::R11 => regs.r11,
        Gpr::R12 => regs.r12,
        Gpr::R13 => regs.r13,
        Gpr::R14 => regs.r14,
        Gpr::R15 => regs.r15,
    }
}

/// The register file after the named slot is replaced by `v`.  `rip` and all
/// other slots are untouched.
pub open spec fn spec_set(regs: Registers, g: Gpr, v: u64) -> Registers {
    match g {
        Gpr::Rax => Registers { rax: v, ..regs },
        Gpr::Rcx => Registers { rcx: v, ..regs },
        Gpr::Rdx => Registers { rdx: v, ..regs },
        Gpr::Rbx => Registers { rbx: v, ..regs },
        Gpr::Rsp => Registers { rsp: v, ..regs },
        Gpr::Rbp => Registers { rbp: v, ..regs },
        Gpr::Rsi => Registers { rsi: v, ..regs },
        Gpr::Rdi => Registers { rdi: v, ..regs },
        Gpr::R8 => Registers { r8: v, ..regs },
        Gpr::R9 => Registers { r9: v, ..regs },
        Gpr::R10 => Registers { r10: v, ..regs },
        Gpr::R11 => Registers { r11: v, ..regs },
        Gpr::R12 => Registers { r12: v, ..regs },
        Gpr::R13 => Registers { r13: v, ..regs },
        Gpr::R14 => Registers { r14: v, ..regs },
        Gpr::R15 => Registers { r15: v, ..regs },
    }
}

/// The register file with every slot zero.
pub open spec fn zeroed() -> Registers {
    Registers {
        rax: 0u64, rcx: 0u64, rdx: 0u64, rbx: 0u64,
        rsp: 0u64, rbp: 0u64, rsi: 0u64, rdi: 0u64,
        r8: 0u64, r9: 0u64, r10: 0u64, r11: 0u64,
        r12: 0u64, r13: 0u64, r14: 0u64, r15: 0u64,
        rip: 0u64,
    }
}

impl Registers {
    /// A zeroed register file.
    pub fn new() -> (r: Registers)
        ensures
            r == zeroed(),
    {
        Registers {
            rax: 0u64, rcx: 0u64, rdx: 0u64, rbx: 0u64,
            rsp: 0u64, rbp: 0u64, rsi: 0u64, rdi: 0u64,
            r8: 0u64, r9: 0u64, r10: 0u64, r11: 0u64,
            r12: 0u64, r13: 0u64, r14: 0u64, r15: 0u64,
            rip: 0u64,
        }
    }

    /// Read the full 64-bit slot of the named register.  Narrow reads mask
    /// after reading.
    pub fn read_gpr(&self, g: Gpr) -> (r: u64)
        ensures
            r == spec_get(*self, g),
    {
        match g {
            Gpr::Rax => self.rax,
            Gpr::Rcx => self.rcx,
            Gpr::Rdx => self.rdx,
            Gpr::Rbx => self.rbx,
            Gpr::Rsp => self.rsp,
            Gpr::Rbp => self.rbp,
            Gpr::Rsi => self.rsi,
            Gpr::Rdi => self.rdi,
            Gpr::R8 => self.r8,
            Gpr::R9 => self.r9,
            Gpr::R10 => self.r10,
            Gpr::R11 => self.r11,
            Gpr::R12 => self.r12,
            Gpr::R13 => self.r13,
            Gpr::R14 => self.r14,
            Gpr::R15 => self.r15,
        }
    }

    /// Write the named register at the given operand size, applying the
    /// partial-register update rule to the full 64-bit slot.
    pub fn write_gpr(&mut self, g: Gpr, size: u16, value: u64)
        requires
            size == 8 || size == 16 || size == 32 || size == 64,
        ensures
            *final(self) == spec_set(*old(self), g, merged(spec_get(*old(self), g), size, value)),
    {
        let prior = self.read_gpr(g);
        let v: u64 = if size == 64 {
            value
        } else if size == 32 {
            value & 0xFFFF_FFFF
        } else if size == 16 {
            (prior & 0xFFFF_FFFF_FFFF_0000) | (value & 0xFFFF)
        } else {
            (prior & 0xFFFF_FFFF_FFFF_FF00) | (value & 0xFF)
        };
        match g {
            Gpr::Rax => self.rax = v,
            Gpr::Rcx => self.rcx = v,
            Gpr::Rdx => self.rdx = v,
            Gpr::Rbx => self.rbx = v,
            Gpr::Rsp => self.rsp = v,
            Gpr::Rbp => self.rbp = v,
            Gpr::Rsi => self.rsi = v,
            Gpr::Rdi => self.rdi = v,
            Gpr::R8 => self.r8 = v,
            Gpr::R9 => self.r9 = v,
            Gpr::R10 => self.r10 = v,
            Gpr::R11 => self.r11 = v,
            Gpr::R12 => self.r12 = v,
            Gpr::R13 => self.r13 = v,
            Gpr::R14 => self.r14 = v,
            Gpr::R15 => self.r15 = v,
        }
    }

    /// The low byte of `rax`.
    pub fn al(&self) -> (r: u8)
        ensures
            r == self.rax & 0xFF,
    {
        let x: u64 = self.rax;
        proof {
            assert(x & 0xFF <= 0xFF) by (bit_vector);
        }
        (x & 0xFF) as u8
    }

    /// The low 16 bits of `rax`.
    pub fn ax(&self) -> (r: u16)
        ensures
            r == self.rax & 0xFFFF,
    {
        let x: u64 = self.rax;
        proof {
            assert(x & 0xFFFF <= 0xFFFF) by (bit_vector);
        }
        (x & 0xFFFF) as u16
    }

    /// The low 32 bits of `rax`.
    pub fn eax(&self) -> (r: u32)
        ensures
            r == self.rax & 0xFFFF_FFFF,
    {
        let x: u64 = self.rax;
        proof {
            assert(x & 0xFFFF_FFFF <= 0xFFFF_FFFF) by (bit_vector);
        }
        (x & 0xFFFF_FFFF) as u32
    }

    /// The full 64-bit `rax` slot.
    pub fn rax(&self) -> (r: u64)
        ensures
            r == self.rax,
    {
        self.rax
    }
}

impl Default for Registers {
    /// A zeroed register file.
    fn default() -> (r: Registers)
        ensures
            r == zeroed(),
    {
        Registers::new()
    }
}

/// A write at size 32 leaves bits [63:32] of the slot zero, whatever the
/// prior slot value and whatever value is written.
pub proof fn lemma_write32_zero_extends(prior: u64, value: u64)
    ensures
        merged(prior, 32, value) >> 32 == 0,
        merged(prior, 32, value) <= 0xFFFF_FFFF,
{
    assert((value & 0xFFFF_FFFF) >> 32 == 0 && (value & 0xFFFF_FFFF) <= 0xFFFF_FFFF)
        by (bit_vector);
}

} // verus!
