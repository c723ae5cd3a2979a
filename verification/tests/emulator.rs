use lancelot::emu::{Emulator, EmuError, Insn, Mnemonic, Operand, OperandKind, RegName, Unsupported};
use lancelot::mmu::{PERM_RW, PERM_RWX};
use lancelot::module::Module;
use lancelot::reg::Gpr;
use lancelot::Arch;

const BASE_ADDRESS: u64 = 0x1000;

fn op_reg(reg: RegName, size: u16) -> Operand {
    Operand { kind: OperandKind::Register, size, reg, imm: 0, relative: false }
}

fn op_imm(v: u64, size: u16) -> Operand {
    Operand { kind: OperandKind::Immediate, size, reg: RegName::NoReg, imm: v, relative: false }
}

fn mov(dst: Operand, src: Operand, len: u8) -> Insn {
    Insn { mnemonic: Mnemonic::Mov, length: len, operands: vec![dst, src] }
}

fn emu_from_sc(code: &[u8]) -> Emulator {
    let m = Module::shellcode(Arch::X64, BASE_ADDRESS, code);
    let mut emu = lancelot::module::from_module(&m);
    emu.reg.rip = m.address_space.base_address;

    emu.mem.mmap(0x5000, 0x2000, PERM_RW).unwrap();
    emu.reg.rsp = 0x6000;
    emu.reg.rbp = 0x6000;

    emu
}

#[test]
fn raw_create() {
    let mut emu: Emulator = Emulator::with_arch(Arch::X64);

    emu.mem.mmap(BASE_ADDRESS, 0x1000, PERM_RWX).unwrap();

    // 0:  48 c7 c0 01 00 00 00    mov    rax,0x1
    let code = b"\x48\xC7\xC0\x01\x00\x00\x00";
    emu.mem.write(BASE_ADDRESS, &code[..]).unwrap();

    emu.reg.rip = BASE_ADDRESS;
    let window = emu.fetch().unwrap();
    assert_eq!(&window[..7], &code[..]);

    let insn = mov(op_reg(RegName::Qword(Gpr::Rax), 64), op_imm(1, 64), 7);
    emu.step(&insn).unwrap();

    assert_eq!(emu.reg.rip, BASE_ADDRESS + 0x7);
    assert_eq!(emu.reg.rax, 1);
}

#[test]
fn from_module() {
    // 0:  48 c7 c0 01 00 00 00    mov    rax,0x1
    let m = Module::shellcode(Arch::X64, BASE_ADDRESS, &b"\x48\xC7\xC0\x01\x00\x00\x00"[..]);

    let mut emu = lancelot::module::from_module(&m);
    emu.reg.rip = m.address_space.base_address;
    let window = emu.fetch().unwrap();
    assert_eq!(&window[..7], &b"\x48\xC7\xC0\x01\x00\x00\x00"[..]);

    let insn = mov(op_reg(RegName::Qword(Gpr::Rax), 64), op_imm(1, 64), 7);
    emu.step(&insn).unwrap();

    assert_eq!(emu.reg.rip, m.address_space.base_address + 0x7);
    assert_eq!(emu.reg.rax, 1);
}

#[test]
fn insn_mov_reg_imm() {
    // 0:  48 c7 c0 01 00 00 00    mov    rax,0x1
    let mut emu = emu_from_sc(&b"\x48\xC7\xC0\x01\x00\x00\x00"[..]);
    emu.step(&mov(op_reg(RegName::Qword(Gpr::Rax), 64), op_imm(1, 64), 7)).unwrap();
    assert_eq!(emu.reg.rax, 1);

    // 0:  b8 01 00 00 00          mov    eax,0x1
    // A 32-bit write zero-extends into the full 64-bit slot.
    let mut emu = emu_from_sc(&b"\xB8\x01\x00\x00\x00"[..]);
    emu.reg.rax = 0xFFFF_FFFF_FFFF_FFFF;
    emu.step(&mov(op_reg(RegName::Dword(Gpr::Rax), 32), op_imm(1, 32), 5)).unwrap();
    assert_eq!(emu.reg.eax(), 1);
    assert_eq!(emu.reg.rax(), 0x0000_0000_0000_0001);

    // 0:  66 b8 01 00             mov    ax,0x1
    let mut emu = emu_from_sc(&b"\x66\xB8\x01\x00"[..]);
    emu.reg.rax = 0xFFFF_FFFF_FFFF_FFFF;
    emu.step(&mov(op_reg(RegName::Word(Gpr::Rax), 16), op_imm(1, 16), 4)).unwrap();
    assert_eq!(emu.reg.ax(), 1);
    assert_eq!(emu.reg.eax(), 0xFFFF_0001);
    assert_eq!(emu.reg.rax(), 0xFFFF_FFFF_FFFF_0001);

    // 0:  b0 01                   mov    al,0x1
    let mut emu = emu_from_sc(&b"\xB0\x01"[..]);
    emu.reg.rax = 0xFFFF_FFFF_FFFF_FFFF;
    emu.step(&mov(op_reg(RegName::Low8(Gpr::Rax), 8), op_imm(1, 8), 2)).unwrap();
    assert_eq!(emu.reg.al(), 1);
    assert_eq!(emu.reg.ax(), 0xFF01);
    assert_eq!(emu.reg.eax(), 0xFFFF_FF01);
    assert_eq!(emu.reg.rax(), 0xFFFF_FFFF_FFFF_FF01);
}

#[test]
fn insn_mov_reg_reg() {
    // 0:  48 89 c3                mov    rbx,rax
    let mut emu = emu_from_sc(&b"\x48\x89\xC3"[..]);
    emu.reg.rax = 1;
    emu.step(&mov(
        op_reg(RegName::Qword(Gpr::Rbx), 64),
        op_reg(RegName::Qword(Gpr::Rax), 64),
        3,
    )).unwrap();

    assert_eq!(emu.reg.rax, 1);
    assert_eq!(emu.reg.rbx, 1);
}

#[test]
fn step_advances_rip_by_length() {
    // An unhandled mnemonic acts as a state no-op but still advances rip.
    let mut emu = emu_from_sc(&b"\x90\x90"[..]);
    let nop = Insn { mnemonic: Mnemonic::Other, length: 1, operands: vec![] };
    emu.step(&nop).unwrap();
    assert_eq!(emu.reg.rip, BASE_ADDRESS + 1);
    emu.step(&nop).unwrap();
    assert_eq!(emu.reg.rip, BASE_ADDRESS + 2);
}

#[test]
fn fetch_on_unmapped_page() {
    let mut emu: Emulator = Emulator::with_arch(Arch::X64);
    emu.reg.rip = 0xDEAD_0000;
    match emu.fetch() {
        Err(EmuError::InvalidInstruction(va)) => assert_eq!(va, 0xDEAD_0000),
        other => panic!("expected an invalid-instruction fault, got {:?}", other),
    }
    assert_eq!(emu.reg.rip, 0xDEAD_0000);
}

#[test]
fn fetch_requires_execute_permission() {
    // Pages mapped RW but not X cannot be fetched from.
    let mut emu: Emulator = Emulator::with_arch(Arch::X64);
    emu.mem.mmap(BASE_ADDRESS, 0x1000, PERM_RW).unwrap();
    emu.reg.rip = BASE_ADDRESS;
    assert!(emu.fetch().is_err());
}

#[test]
fn fetch_short_window_at_region_end() {
    // Only three executable bytes before unmapped space: fetch returns them.
    let mut emu: Emulator = Emulator::with_arch(Arch::X64);
    emu.mem.mmap(BASE_ADDRESS, 0x1000, PERM_RWX).unwrap();
    emu.mem.write(0x1FFD, &b"\xAA\xBB\xCC"[..]).unwrap();
    emu.reg.rip = 0x1FFD;
    let w = emu.fetch().unwrap();
    assert_eq!(&w[..], &b"\xAA\xBB\xCC"[..]);
}

#[test]
fn write_register_rejects_high_byte() {
    let mut emu: Emulator = Emulator::with_arch(Arch::X64);
    let before = emu.reg;
    let r = emu.write_register(RegName::High8(Gpr::Rax), 8, 0xAB);
    assert_eq!(r, Err(EmuError::Unimplemented(Unsupported::HighByteRegister)));
    assert_eq!(emu.reg, before);
}

#[test]
fn write_register_rejects_unknown_register() {
    let mut emu: Emulator = Emulator::with_arch(Arch::X64);
    let r = emu.write_register(RegName::Other, 64, 1);
    assert_eq!(r, Err(EmuError::Unimplemented(Unsupported::Register)));
}

#[test]
fn write_register_rejects_odd_size() {
    let mut emu: Emulator = Emulator::with_arch(Arch::X64);
    let r = emu.write_register(RegName::Qword(Gpr::Rax), 48, 1);
    assert_eq!(r, Err(EmuError::Unimplemented(Unsupported::OperandSize)));
}

#[test]
fn step_faults_leave_state_unchanged() {
    // MOV with a memory destination has no handler yet; nothing may change.
    let mut emu = emu_from_sc(&b"\x48\x89\x03"[..]);
    emu.reg.rax = 7;
    let before = emu.reg;
    let bad = Insn {
        mnemonic: Mnemonic::Mov,
        length: 3,
        operands: vec![
            Operand {
                kind: OperandKind::Memory,
                size: 64,
                reg: RegName::NoReg,
                imm: 0,
                relative: false,
            },
            op_reg(RegName::Qword(Gpr::Rax), 64),
        ],
    };
    assert_eq!(emu.step(&bad), Err(EmuError::Unimplemented(Unsupported::OperandShape)));
    assert_eq!(emu.reg, before);
}

#[test]
fn read_register_returns_full_slot() {
    let mut emu: Emulator = Emulator::with_arch(Arch::X64);
    emu.reg.rcx = 0x1122_3344_5566_7788;
    assert_eq!(emu.read_register(RegName::Dword(Gpr::Rcx)).unwrap(), 0x1122_3344_5566_7788);
    assert_eq!(emu.read_register(RegName::Qword(Gpr::Rcx)).unwrap(), 0x1122_3344_5566_7788);
}

#[test]
fn from_module_zero_pads_partial_page() {
    // A three-byte module still maps a whole zeroed page around it.
    let m = Module::shellcode(Arch::X64, BASE_ADDRESS, &b"\x01\x02\x03"[..]);
    let emu = lancelot::module::from_module(&m);
    let head = emu.mem.read_perm(BASE_ADDRESS, 4, 0).unwrap();
    assert_eq!(&head[..], &b"\x01\x02\x03\x00"[..]);
    let tail = emu.mem.read_perm(BASE_ADDRESS + 0xFFF, 1, 0).unwrap();
    assert_eq!(tail[0], 0);
    assert!(emu.mem.read_perm(BASE_ADDRESS + 0x1000, 1, 0).is_err());
}

#[test]
fn with_arch_starts_zeroed() {
    let emu: Emulator = Emulator::with_arch(Arch::X32);
    assert_eq!(emu.arch, Arch::X32);
    assert_eq!(emu.reg.rax, 0);
    assert_eq!(emu.reg.rsp, 0);
    assert_eq!(emu.reg.rip, 0);
    assert!(emu.mem.read(0, 1).is_err());
}

#[test]
fn clone_is_independent() {
    // Exploratory forks: a clone's mutations leave the original untouched.
    let mut emu = emu_from_sc(&b"\x90"[..]);
    emu.reg.rax = 0;
    let mut fork = emu.clone();
    fork.reg.rax = 5;
    fork.mem.write(0x5000, &b"\x01"[..]).unwrap();
    assert_eq!(emu.reg.rax, 0);
    assert_eq!(emu.mem.read(0x5000, 1).unwrap()[0], 0);
    assert_eq!(fork.mem.read(0x5000, 1).unwrap()[0], 1);
    assert_eq!(fork.reg.rax, 5);
}
