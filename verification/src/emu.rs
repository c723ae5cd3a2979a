use vstd::prelude::*;

use crate::mmu::{MMU, PERM_X, mem_byte, mem_has, Page};
use crate::reg::{Gpr, Registers, merged, spec_get, spec_set, zeroed};
use crate::{Arch, VA};

verus! {

/// An architectural register name as the decoder reports it: a view of one
/// of the sixteen general-purpose slots at some width, or something the
/// emulator does not model.
#[derive(Clone, Copy, PartialEq, Eq, Structural, Debug)]
pub enum RegName {
    /// The operand carries no register.
    NoReg,
    /// The low 8-bit view (AL, CL, ..., SIL, R8B, ...).
    Low8(Gpr),
    /// The high 8-bit view (AH, CH, DH, BH).
    High8(Gpr),
    /// The 16-bit view (AX, CX, ...).
    Word(Gpr),
    /// The 32-bit view (EAX, ECX, ...).
    Dword(Gpr),
    /// The full 64-bit slot (RAX, RCX, ...).
    Qword(Gpr),
    /// Any other architectural register (segment, vector, flags, ...).
    Other,
}

/// The kind of a decoded operand.
#[derive(Clone, Copy, PartialEq, Eq, Structural, Debug)]
pub enum OperandKind {
    Unused,
    Register,
    Immediate,
    Memory,
    Pointer,
}

/// One decoded operand: its kind, its logical size in bits, and the
/// register or immediate payload (already sign/zero-extended by the
/// decoder per the instruction's encoding).
#[derive(Clone, Copy, PartialEq, Eq, Structural, Debug)]
pub struct Operand {
    pub kind: OperandKind,
    pub size: u16,
    pub reg: RegName,
    pub imm: u64,
    /// Whether an immediate is instruction-pointer-relative, as branch
    /// displacements are.
    pub relative: bool,
}

/// The mnemonics the engine distinguishes.  Everything else is `Other`:
/// executed as a state no-op and treated as plain fall-through control flow.
#[derive(Clone, Copy, PartialEq, Eq, Structural, Debug)]
pub enum Mnemonic {
    Mov,
    Jmp,
    /// A conditional branch (JCC, LOOP and kin): it may fall through or
    /// jump to its explicit target.
    CondBr,
    Call,
    Ret,
    Iret,
    Iretd,
    Iretq,
    Other,
}

/// A decoded instruction, as the abstract decoder interface hands it over:
/// mnemonic, total byte length, and the operand list.
#[derive(Clone, Debug)]
pub struct Insn {
    pub mnemonic: Mnemonic,
    pub length: u8,
    pub operands: Vec<Operand>,
}

impl Insn {
    /// A legal x86 instruction is between 1 and 16 bytes long.
    pub open spec fn wf(self) -> bool {
        1 <= self.length <= 16
    }
}

/// The features an execution path may hit before they are implemented.
#[derive(Clone, Copy, PartialEq, Eq, Structural, Debug)]
pub enum Unsupported {
    /// A write through AH/BH/CH/DH.
    HighByteRegister,
    /// A register the emulator does not model.
    Register,
    /// An operand size outside {8, 16, 32, 64}.
    OperandSize,
    /// An operand pattern with no handler.
    OperandShape,
}

/// Errors surfaced by the emulator.
#[derive(Clone, Copy, PartialEq, Eq, Structural, Debug)]
pub enum EmuError {
    /// Fetch failed on the first byte, or decode failed, at this address.
    InvalidInstruction(VA),
    /// Execution reached semantics that are not implemented yet.
    Unimplemented(Unsupported),
}

/// What `read_register` returns: the full 64-bit slot under the named view,
/// or an error for registers the emulator does not model.
pub open spec fn spec_read_reg(regs: Registers, name: RegName) -> Result<u64, EmuError> {
    match name {
        RegName::Low8(g) => Ok(spec_get(regs, g)),
        RegName::Word(g) => Ok(spec_get(regs, g)),
        RegName::Dword(g) => Ok(spec_get(regs, g)),
        RegName::Qword(g) => Ok(spec_get(regs, g)),
        RegName::High8(_) => Err(EmuError::Unimplemented(Unsupported::HighByteRegister)),
        RegName::NoReg => Err(EmuError::Unimplemented(Unsupported::Register)),
        RegName::Other => Err(EmuError::Unimplemented(Unsupported::Register)),
    }
}

/// What `write_register` does: the partial-update rule of the register file
/// applied to the named slot, or an error for unsupported targets.
pub open spec fn spec_write_reg(regs: Registers, name: RegName, size: u16, value: u64) -> Result<
    Registers,
    EmuError,
> {
    match name {
        RegName::High8(_) => Err(EmuError::Unimplemented(Unsupported::HighByteRegister)),
        RegName::NoReg => Err(EmuError::Unimplemented(Unsupported::Register)),
        RegName::Other => Err(EmuError::Unimplemented(Unsupported::Register)),
        RegName::Low8(g) | RegName::Word(g) | RegName::Dword(g) | RegName::Qword(g) => {
            if size == 8 || size == 16 || size == 32 || size == 64 {
                Ok(spec_set(regs, g, merged(spec_get(regs, g), size, value)))
            } else {
                Err(EmuError::Unimplemented(Unsupported::OperandSize))
            }
        },
    }
}

/// The value a source operand contributes: an immediate's payload, or the
/// full slot of a register operand.
pub open spec fn spec_src_value(regs: Registers, op: Operand) -> Result<u64, EmuError> {
    match op.kind {
        OperandKind::Immediate => Ok(op.imm),
        OperandKind::Register => spec_read_reg(regs, op.reg),
        _ => Err(EmuError::Unimplemented(Unsupported::OperandShape)),
    }
}

/// The register file after the semantic action of one instruction, not yet
/// advancing `rip`.  Mnemonics without a handler act as state no-ops.
pub open spec fn spec_exec(regs: Registers, insn: Insn) -> Result<Registers, EmuError> {
    match insn.mnemonic {
        Mnemonic::Mov => {
            if insn.operands@.len() < 2 {
                Err(EmuError::Unimplemented(Unsupported::OperandShape))
            } else {
                let dst = insn.operands@[0];
                let src = insn.operands@[1];
                match spec_src_value(regs, src) {
                    Err(e) => Err(e),
                    Ok(v) => match dst.kind {
                        OperandKind::Register => spec_write_reg(regs, dst.reg, dst.size, v),
                        _ => Err(EmuError::Unimplemented(Unsupported::OperandShape)),
                    },
                }
            }
        },
        _ => Ok(regs),
    }
}

/// The register file after one full step of the given instruction: the
/// semantic action, then `rip` advanced past the instruction.  A fault
/// leaves the state unchanged.
pub open spec fn spec_step(regs: Registers, insn: Insn) -> Result<Registers, EmuError> {
    match spec_exec(regs, insn) {
        Ok(r2) => Ok(Registers { rip: (regs.rip + insn.length) as u64, ..r2 }),
        Err(e) => Err(e),
    }
}

/// Is the byte `j` past `rip` inside the address space and executable?
pub open spec fn fetch_ok(m: Map<u64, Page>, rip: u64, j: int) -> bool {
    rip + j <= u64::MAX && mem_has(m, ((rip + j) as u64), PERM_X)
}

/// The length of the fetch window, continued from offset `j`: how many
/// consecutive executable bytes follow `rip`, capped at 16 (the longest
/// legal x86 instruction).
pub open spec fn fetch_len_from(m: Map<u64, Page>, rip: u64, j: int) -> int
    decreases 16 - j,
{
    if j >= 16 || !fetch_ok(m, rip, j) {
        j
    } else {
        fetch_len_from(m, rip, j + 1)
    }
}

/// The bytes an instruction fetch at `rip` sees: the maximal executable
/// window of at most 16 bytes.
pub open spec fn fetch_window(m: Map<u64, Page>, rip: u64) -> Seq<u8> {
    Seq::new(fetch_len_from(m, rip, 0) as nat, |j: int| mem_byte(m, ((rip + j) as u64)))
}

/// The single-threaded instruction-level emulator: an address space, a
/// register file, and the architecture the decoder should assume.
#[derive(Clone, Debug)]
pub struct Emulator {
    pub mem: MMU,
    pub reg: Registers,
    pub arch: Arch,
}

impl Emulator {
    /// A fresh emulator for the given architecture: empty memory, zeroed
    /// registers.
    pub fn with_arch(arch: Arch) -> (r: Emulator)
        ensures
            r.mem.inv(),
            r.mem@ == Map::<u64, Page>::empty(),
            r.reg == zeroed(),
            r.arch == arch,
    {
        Emulator { mem: MMU::new(), reg: Registers::new(), arch }
    }

    /// Read the full 64-bit slot named by a decoded register.  Narrow reads
    /// mask after reading.
    pub fn read_register(&self, name: RegName) -> (r: Result<u64, EmuError>)
        ensures
            r == spec_read_reg(self.reg, name),
    {
        match name {
            RegName::Low8(g) => Ok(self.reg.read_gpr(g)),
            RegName::Word(g) => Ok(self.reg.read_gpr(g)),
            RegName::Dword(g) => Ok(self.reg.read_gpr(g)),
            RegName::Qword(g) => Ok(self.reg.read_gpr(g)),
            RegName::High8(_) => Err(EmuError::Unimplemented(Unsupported::HighByteRegister)),
            RegName::NoReg => Err(EmuError::Unimplemented(Unsupported::Register)),
            RegName::Other => Err(EmuError::Unimplemented(Unsupported::Register)),
        }
    }

    /// Write a register at the given operand size, following the
    /// partial-register update rules; memory and `rip` are untouched, and a
    /// failure leaves every register unchanged.
    pub fn write_register(&mut self, name: RegName, size: u16, value: u64) -> (r: Result<
        (),
        EmuError,
    >)
        ensures
            final(self).mem == old(self).mem,
            final(self).arch == old(self).arch,
            match r {
                Ok(()) => spec_write_reg(old(self).reg, name, size, value)
                    == Ok::<Registers, EmuError>(final(self).reg),
                Err(e) => spec_write_reg(old(self).reg, name, size, value)
                    == Err::<Registers, EmuError>(e) && final(self).reg == old(self).reg,
            },
    {
        let g = match name {
            RegName::Low8(g) => g,
            RegName::Word(g) => g,
            RegName::Dword(g) => g,
            RegName::Qword(g) => g,
            RegName::High8(_) => {
                return Err(EmuError::Unimplemented(Unsupported::HighByteRegister));
            },
            RegName::NoReg => {
                return Err(EmuError::Unimplemented(Unsupported::Register));
            },
            RegName::Other => {
                return Err(EmuError::Unimplemented(Unsupported::Register));
            },
        };
        if size == 8 || size == 16 || size == 32 || size == 64 {
            self.reg.write_gpr(g, size, value);
            Ok(())
        } else {
            Err(EmuError::Unimplemented(Unsupported::OperandSize))
        }
    }

    /// Read the fetch window at `rip`: up to 16 consecutive executable
    /// bytes.  An empty window (the very first byte is unmapped or not
    /// executable) surfaces `InvalidInstruction(rip)`.
    pub fn fetch(&self) -> (r: Result<Vec<u8>, EmuError>)
        requires
            self.mem.inv(),
        ensures
            match r {
                Ok(v) => v@ == fetch_window(self.mem@, self.reg.rip) && v@.len() >= 1,
                Err(e) => e == EmuError::InvalidInstruction(self.reg.rip)
                    && fetch_window(self.mem@, self.reg.rip).len() == 0,
            },
    {
        let rip = self.reg.rip;
        let mut out: Vec<u8> = Vec::new();
        let mut j: u64 = 0;
        let mut stop: bool = false;
        while j < 16 && !stop
            invariant
                self.mem.inv(),
                j <= 16,
                out@.len() == j,
                forall|k: int| 0 <= k < j ==> fetch_ok(self.mem@, rip, k),
                forall|k: int| 0 <= k < j ==> out@[k] == mem_byte(self.mem@, ((rip + k) as u64)),
                fetch_len_from(self.mem@, rip, 0) == fetch_len_from(self.mem@, rip, j as int),
                stop ==> !fetch_ok(self.mem@, rip, j as int),
                rip == self.reg.rip,
            decreases 16 - j, (if stop { 0int } else { 1int }),
        {
            if rip > u64::MAX - j {
                stop = true;
                proof {
                    assert(!fetch_ok(self.mem@, rip, j as int));
                }
            } else {
                let addr: u64 = rip + j;
                match self.mem.read_perm(addr, 1, PERM_X) {
                    Ok(b) => {
                        proof {
                            reveal_with_fuel(crate::mmu::span_err, 3);
                            assert(crate::mmu::span_err(self.mem@, addr, 1, PERM_X) is None);
                            assert(mem_has(self.mem@, addr, PERM_X));
                            assert(fetch_ok(self.mem@, rip, j as int));
                            assert(crate::mmu::mem_read_seq(self.mem@, addr, 1)[0]
                                == mem_byte(self.mem@, ((addr + 0) as u64)));
                            assert(((addr + 0) as u64) == addr);
                            assert(fetch_len_from(self.mem@, rip, j as int)
                                == fetch_len_from(self.mem@, rip, j as int + 1));
                        }
                        out.push(b[0]);
                        j += 1;
                    },
                    Err(_) => {
                        stop = true;
                        proof {
                            reveal_with_fuel(crate::mmu::span_err, 3);
                            assert(!mem_has(self.mem@, addr, PERM_X));
                            assert(!fetch_ok(self.mem@, rip, j as int));
                        }
                    },
                }
            }
        }
        proof {
            if out@.len() < 16 {
                assert(fetch_len_from(self.mem@, rip, out@.len() as int) == out@.len() as int);
            }
            assert(fetch_window(self.mem@, rip) =~= out@);
        }
        if out.len() == 0 {
            Err(EmuError::InvalidInstruction(rip))
        } else {
            Ok(out)
        }
    }

    /// Apply one decoded instruction: perform its semantic action and
    /// advance `rip` past it.  Memory is untouched by the implemented
    /// handlers; a fault leaves all state at its pre-step values.
    pub fn step(&mut self, insn: &Insn) -> (r: Result<(), EmuError>)
        requires
            insn.wf(),
            old(self).reg.rip as int + insn.length as int <= u64::MAX as int,
        ensures
            final(self).mem == old(self).mem,
            final(self).arch == old(self).arch,
            match r {
                Ok(()) => spec_step(old(self).reg, *insn) == Ok::<Registers, EmuError>(
                    final(self).reg,
                ),
                Err(e) => spec_step(old(self).reg, *insn) == Err::<Registers, EmuError>(e)
                    && final(self).reg == old(self).reg,
            },
    {
        match insn.mnemonic {
            Mnemonic::Mov => {
                if insn.operands.len() < 2 {
                    return Err(EmuError::Unimplemented(Unsupported::OperandShape));
                }
                let dst = insn.operands[0];
                let src = insn.operands[1];
                let value = match src.kind {
                    OperandKind::Immediate => src.imm,
                    OperandKind::Register => {
                        match self.read_register(src.reg) {
                            Ok(v) => v,
                            Err(e) => {
                                return Err(e);
                            },
                        }
                    },
                    _ => {
                        return Err(EmuError::Unimplemented(Unsupported::OperandShape));
                    },
                };
                match dst.kind {
                    OperandKind::Register => {
                        match self.write_register(dst.reg, dst.size, value) {
                            Ok(()) => {},
                            Err(e) => {
                                return Err(e);
                            },
                        }
                    },
                    _ => {
                        return Err(EmuError::Unimplemented(Unsupported::OperandShape));
                    },
                }
                self.reg.rip = self.reg.rip + insn.length as u64;
                Ok(())
            },
            _ => {
                self.reg.rip = self.reg.rip + insn.length as u64;
                Ok(())
            },
        }
    }
}

/// On success, `step` advances `rip` by exactly the instruction's byte
/// length, and since that length is at least one, `rip` strictly increases.
pub proof fn lemma_step_rip_monotonic(regs: Registers, insn: Insn)
    requires
        insn.wf(),
        regs.rip as int + insn.length as int <= u64::MAX as int,
        spec_step(regs, insn) is Ok,
    ensures
        spec_step(regs, insn)->Ok_0.rip == regs.rip + insn.length,
        spec_step(regs, insn)->Ok_0.rip > regs.rip,
{
}

} // verus!
