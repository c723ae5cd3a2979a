use std::collections::HashMap;

use lancelot::cfg::{build_cfg, does_insn_fallthrough, BasicBlock, CFG};
use lancelot::emu::{Insn, Mnemonic, Operand, OperandKind, RegName};
use lancelot::workspace::{Loader, Workspace, WorkspaceError};
use lancelot::Arch;

fn insn(mnemonic: Mnemonic, length: u8) -> Insn {
    Insn { mnemonic, length, operands: vec![] }
}

fn branch(mnemonic: Mnemonic, length: u8, target: u64) -> Insn {
    Insn {
        mnemonic,
        length,
        operands: vec![Operand {
            kind: OperandKind::Immediate,
            size: 64,
            reg: RegName::NoReg,
            imm: target,
            relative: false,
        }],
    }
}

fn block<'a>(cfg: &'a CFG, addr: u64) -> &'a BasicBlock {
    cfg.basic_blocks.get(&addr).expect("a basic block should exist at this address")
}

#[test]
fn fallthrough_classification() {
    assert!(!does_insn_fallthrough(&insn(Mnemonic::Jmp, 2)));
    assert!(!does_insn_fallthrough(&insn(Mnemonic::Ret, 1)));
    assert!(!does_insn_fallthrough(&insn(Mnemonic::Iret, 1)));
    assert!(!does_insn_fallthrough(&insn(Mnemonic::Iretd, 1)));
    assert!(!does_insn_fallthrough(&insn(Mnemonic::Iretq, 1)));
    // CALL is deliberately over-approximated as falling through.
    assert!(does_insn_fallthrough(&insn(Mnemonic::Call, 5)));
    assert!(does_insn_fallthrough(&insn(Mnemonic::Mov, 3)));
    assert!(does_insn_fallthrough(&insn(Mnemonic::CondBr, 2)));
    assert!(does_insn_fallthrough(&insn(Mnemonic::Other, 1)));
}

#[test]
fn cfg_straight_line() {
    // Three straight-line instructions ending in RET form one block.
    let mut insns: HashMap<u64, Insn> = HashMap::new();
    insns.insert(0x1000, insn(Mnemonic::Other, 2));
    insns.insert(0x1002, insn(Mnemonic::Other, 3));
    insns.insert(0x1005, insn(Mnemonic::Ret, 1));
    let cfg = build_cfg(&insns, 0x1000);
    assert_eq!(cfg.basic_blocks.len(), 1);
    let b = block(&cfg, 0x1000);
    assert_eq!(b.addr, 0x1000);
    assert_eq!(b.length, 6);
    assert!(b.successors.is_empty());
    assert!(b.predecessors.is_empty());
}

#[test]
fn cfg_self_loop() {
    // 0x1000: two fall-through bytes, then JMP back to the top.
    let mut insns: HashMap<u64, Insn> = HashMap::new();
    insns.insert(0x1000, insn(Mnemonic::Other, 2));
    insns.insert(0x1002, branch(Mnemonic::Jmp, 2, 0x1000));
    let cfg = build_cfg(&insns, 0x1000);
    assert_eq!(cfg.basic_blocks.len(), 1);
    let b = block(&cfg, 0x1000);
    assert_eq!(b.length, 4);
    assert_eq!(b.successors, vec![0x1000]);
    assert_eq!(b.predecessors, vec![0x1000]);
}

#[test]
fn cfg_conditional_branch_splits_blocks() {
    // 0x1000: jcc 0x1006; 0x1002: filler; 0x1006: ret.
    let mut insns: HashMap<u64, Insn> = HashMap::new();
    insns.insert(0x1000, branch(Mnemonic::CondBr, 2, 0x1006));
    insns.insert(0x1002, insn(Mnemonic::Other, 4));
    insns.insert(0x1006, insn(Mnemonic::Ret, 1));
    let cfg = build_cfg(&insns, 0x1000);
    assert_eq!(cfg.basic_blocks.len(), 3);

    let top = block(&cfg, 0x1000);
    assert_eq!(top.length, 2);
    assert_eq!(top.successors, vec![0x1002, 0x1006]);
    assert!(top.predecessors.is_empty());

    let mid = block(&cfg, 0x1002);
    assert_eq!(mid.length, 4);
    assert_eq!(mid.successors, vec![0x1006]);
    assert_eq!(mid.predecessors, vec![0x1000]);

    let tail = block(&cfg, 0x1006);
    assert_eq!(tail.length, 1);
    assert!(tail.successors.is_empty());
    assert_eq!(tail.predecessors, vec![0x1000, 0x1002]);
}

#[test]
fn cfg_closure_over_decoded_region() {
    // A branch to an undecodable address keeps the dangling edge but makes
    // no block for it; every decodable successor gets a block.
    let mut insns: HashMap<u64, Insn> = HashMap::new();
    insns.insert(0x1000, branch(Mnemonic::Jmp, 2, 0x9999));
    let cfg = build_cfg(&insns, 0x1000);
    assert_eq!(cfg.basic_blocks.len(), 1);
    let b = block(&cfg, 0x1000);
    assert_eq!(b.successors, vec![0x9999]);
    assert!(!cfg.basic_blocks.contains_key(&0x9999));
    for (_, blk) in cfg.basic_blocks.iter() {
        for s in blk.successors.iter() {
            assert!(cfg.basic_blocks.contains_key(s) || !insns.contains_key(s));
        }
    }
}

#[test]
fn cfg_relative_branch_target() {
    // A relative displacement counts from the end of the instruction:
    // 0x1000 + 2 + 4 = 0x1006.
    let mut insns: HashMap<u64, Insn> = HashMap::new();
    let mut j = branch(Mnemonic::Jmp, 2, 4);
    j.operands[0].relative = true;
    insns.insert(0x1000, j);
    insns.insert(0x1006, insn(Mnemonic::Ret, 1));
    let cfg = build_cfg(&insns, 0x1000);
    assert_eq!(cfg.basic_blocks.len(), 2);
    assert_eq!(block(&cfg, 0x1000).successors, vec![0x1006]);
    assert_eq!(block(&cfg, 0x1006).predecessors, vec![0x1000]);
}

#[test]
fn cfg_unmapped_entry_is_empty() {
    let insns: HashMap<u64, Insn> = HashMap::new();
    let cfg = build_cfg(&insns, 0xDEAD_0000);
    assert!(cfg.basic_blocks.is_empty());
}

#[test]
fn workspace_from_bytes_default_loader() {
    let ws = Workspace::from_bytes("foo.bin", b"\xEB\xFE").load().unwrap();
    assert_eq!(ws.loader.get_name(), "Windows/64/Raw");
    assert_eq!(ws.module.base_address, 0x0);
    assert_eq!(ws.module.sections[0].name, "raw");
}

#[test]
fn workspace_with_loader() {
    let ws = Workspace::from_bytes("foo.bin", b"\xEB\xFE")
        .with_loader(Loader::Shellcode32)
        .load()
        .unwrap();
    assert_eq!(ws.loader.get_name(), "Windows/32/Raw");
    assert_eq!(ws.arch, Arch::X32);
    assert_eq!(ws.module.base_address, 0x0);
    assert_eq!(ws.module.sections[0].name, "raw");
}

#[test]
fn workspace_read_bytes() {
    let ws = Workspace::from_bytes("foo.bin", b"\xEB\xFE")
        .with_loader(Loader::Shellcode32)
        .load()
        .unwrap();
    assert_eq!(ws.read_bytes(0x0, 0x1).unwrap(), vec![0xEB]);
    assert_eq!(ws.read_bytes(0x1, 0x1).unwrap(), vec![0xFE]);
    assert_eq!(ws.read_bytes(0x0, 0x2).unwrap(), vec![0xEB, 0xFE]);
    assert_eq!(ws.read_bytes(0x0, 0x3), Err(WorkspaceError::BufferOverrun));
    assert_eq!(ws.read_bytes(0x2, 0x1), Err(WorkspaceError::InvalidAddress));
}

#[test]
fn workspace_read_u8_u16() {
    let ws = Workspace::from_bytes("foo.bin", b"\xEB\xFE")
        .with_loader(Loader::Shellcode32)
        .load()
        .unwrap();
    assert_eq!(ws.read_u8(0x0).unwrap(), 0xEB);
    assert_eq!(ws.read_u8(0x1).unwrap(), 0xFE);
    assert!(ws.read_u8(0x2).is_err());
    assert_eq!(ws.read_u16(0x0).unwrap(), 0xFEEB);
    assert!(ws.read_u16(0x1).is_err());
    assert!(ws.read_u16(0x2).is_err());
}

#[test]
fn workspace_read_rva_and_va() {
    let ws = Workspace::from_bytes("foo.bin", b"\x00\x11\x22\x33")
        .with_loader(Loader::Shellcode32)
        .load()
        .unwrap();
    assert_eq!(ws.read_rva(0x0).unwrap(), 0x33221100);
    assert!(ws.read_rva(0x1).is_err());
    assert_eq!(ws.read_va(0x0).unwrap(), 0x33221100);

    let ws64 = Workspace::from_bytes("foo.bin", b"\x01\x02\x03\x04\x05\x06\x07\x08")
        .with_loader(Loader::Shellcode64)
        .load()
        .unwrap();
    assert_eq!(ws64.read_rva(0x0).unwrap(), 0x0807_0605_0403_0201);
}

#[test]
fn workspace_probe() {
    let ws = Workspace::from_bytes("foo.bin", b"\xEB\xFE")
        .with_loader(Loader::Shellcode32)
        .load()
        .unwrap();
    assert!(ws.probe(0x0, 1));
    assert!(ws.probe(0x0, 2));
    assert!(!ws.probe(0x0, 3));
    assert!(!ws.probe(0x2, 1));
    assert!(ws.probe(0x1, 0));
}

#[test]
fn workspace_analyze_drains_queue() {
    let mut ws = Workspace::from_bytes("foo.bin", b"\xEB\xFE").load().unwrap();
    ws.make_insn(0x0).unwrap();
    ws.make_insn(0x1).unwrap();
    assert_eq!(ws.analysis_queue.len(), 2);
    ws.analyze().unwrap();
    assert_eq!(ws.analysis_queue.len(), 0);
}
