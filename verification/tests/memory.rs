use lancelot::mmu::{MMU, MmuError, PAGE_SIZE, PERM_R, PERM_RW, PERM_RWX, PERM_W, PERM_X};

#[test]
fn mmap_rejects_unaligned_arguments() {
    let mut m = MMU::new();
    assert_eq!(m.mmap(0x1001, 0x1000, PERM_RW), Err(MmuError::Unaligned(0x1001)));
    assert_eq!(m.mmap(0x1000, 0x800, PERM_RW), Err(MmuError::Unaligned(0x800)));
}

#[test]
fn mmap_rejects_overlap() {
    let mut m = MMU::new();
    m.mmap(0x1000, 0x2000, PERM_RW).unwrap();
    assert_eq!(m.mmap(0x2000, 0x1000, PERM_RW), Err(MmuError::AlreadyMapped(0x2000)));
    assert_eq!(m.mmap(0x0, 0x2000, PERM_RW), Err(MmuError::AlreadyMapped(0x1000)));
}

#[test]
fn fresh_pages_are_zero() {
    let mut m = MMU::new();
    m.mmap(0x1000, 0x1000, PERM_RW).unwrap();
    let v = m.read(0x1000, PAGE_SIZE as usize).unwrap();
    assert_eq!(v.len(), PAGE_SIZE as usize);
    assert!(v.iter().all(|b| *b == 0));
}

#[test]
fn write_then_read_round_trip() {
    let mut m = MMU::new();
    m.mmap(0x1000, 0x2000, PERM_RW).unwrap();
    // The span crosses a page boundary on purpose.
    let data = b"\xDE\xAD\xBE\xEF\x01\x02\x03\x04";
    m.write(0x1FFC, &data[..]).unwrap();
    let v = m.read(0x1FFC, 8).unwrap();
    assert_eq!(&v[..], &data[..]);
}

#[test]
fn read_requires_r_permission() {
    let mut m = MMU::new();
    m.mmap(0x1000, 0x1000, PERM_W).unwrap();
    assert_eq!(m.read(0x1000, 1), Err(MmuError::AccessViolation(0x1000, PERM_R)));
}

#[test]
fn write_requires_w_permission() {
    let mut m = MMU::new();
    m.mmap(0x1000, 0x1000, PERM_R).unwrap();
    assert_eq!(m.write(0x1000, &b"\x01"[..]), Err(MmuError::AccessViolation(0x1000, PERM_W)));
}

#[test]
fn read_unmapped_fails() {
    let m = MMU::new();
    assert_eq!(m.read(0x4000, 1), Err(MmuError::NotMapped(0x4000)));
}

#[test]
fn failed_write_leaves_memory_untouched() {
    // The span runs off the mapped page: nothing at all may be written.
    let mut m = MMU::new();
    m.mmap(0x1000, 0x1000, PERM_RW).unwrap();
    let r = m.write(0x1FFE, &b"\xAA\xBB\xCC"[..]);
    assert_eq!(r, Err(MmuError::NotMapped(0x2000)));
    let v = m.read(0x1FFE, 2).unwrap();
    assert_eq!(&v[..], &b"\x00\x00"[..]);
}

#[test]
fn mprotect_changes_permissions_not_bytes() {
    let mut m = MMU::new();
    m.mmap(0x1000, 0x1000, PERM_RW).unwrap();
    m.write(0x1000, &b"\x2A"[..]).unwrap();
    m.mprotect(0x1000, 0x1000, PERM_X).unwrap();
    // R is gone now.
    assert_eq!(m.read(0x1000, 1), Err(MmuError::AccessViolation(0x1000, PERM_R)));
    // ...but the byte survives and comes back once R returns.
    m.mprotect(0x1000, 0x1000, PERM_RWX).unwrap();
    assert_eq!(m.read(0x1000, 1).unwrap()[0], 0x2A);
}

#[test]
fn mprotect_unmapped_fails() {
    let mut m = MMU::new();
    assert_eq!(m.mprotect(0x1000, 0x1000, PERM_R), Err(MmuError::NotMapped(0x1000)));
}

#[test]
fn munmap_removes_pages() {
    let mut m = MMU::new();
    m.mmap(0x1000, 0x2000, PERM_RW).unwrap();
    m.munmap(0x1000, 0x1000).unwrap();
    assert_eq!(m.read(0x1000, 1), Err(MmuError::NotMapped(0x1000)));
    assert!(m.read(0x2000, 1).is_ok());
    assert_eq!(m.munmap(0x1000, 0x1000), Err(MmuError::NotMapped(0x1000)));
}

#[test]
fn write_page_bypasses_write_protection() {
    let mut m = MMU::new();
    m.mmap(0x1000, 0x1000, PERM_R).unwrap();
    let mut page = vec![0u8; PAGE_SIZE as usize];
    page[0] = 0x7F;
    m.write_page(0x1000, page.as_slice()).unwrap();
    assert_eq!(m.read(0x1000, 1).unwrap()[0], 0x7F);
    // Permissions are untouched: still not writable through `write`.
    assert_eq!(m.write(0x1000, &b"\x00"[..]), Err(MmuError::AccessViolation(0x1000, PERM_W)));
}

#[test]
fn typed_reads_are_little_endian() {
    let mut m = MMU::new();
    m.mmap(0x1000, 0x1000, PERM_RW).unwrap();
    m.write(0x1000, &b"\x88\x77\x66\x55\x44\x33\x22\x11"[..]).unwrap();
    assert_eq!(m.read_u8(0x1000).unwrap(), 0x88);
    assert_eq!(m.read_u16(0x1000).unwrap(), 0x7788);
    assert_eq!(m.read_u32(0x1000).unwrap(), 0x5566_7788);
    assert_eq!(m.read_u64(0x1000).unwrap(), 0x1122_3344_5566_7788);
}

#[test]
fn typed_writes_round_trip() {
    let mut m = MMU::new();
    m.mmap(0x1000, 0x1000, PERM_RW).unwrap();
    m.write_u16(0x1000, 0xBEEF).unwrap();
    assert_eq!(m.read_u16(0x1000).unwrap(), 0xBEEF);
    assert_eq!(m.read(0x1000, 2).unwrap(), vec![0xEF, 0xBE]);
    m.write_u32(0x1010, 0xDEAD_BEEF).unwrap();
    assert_eq!(m.read_u32(0x1010).unwrap(), 0xDEAD_BEEF);
    m.write_u64(0x1020, 0x0102_0304_0506_0708).unwrap();
    assert_eq!(m.read_u64(0x1020).unwrap(), 0x0102_0304_0506_0708);
    m.write_u128(0x1030, 0x0102_0304_0506_0708_090A_0B0C_0D0E_0F10).unwrap();
    assert_eq!(m.read_u128(0x1030).unwrap(), 0x0102_0304_0506_0708_090A_0B0C_0D0E_0F10);
    m.write_u8(0x1040, 0x5A).unwrap();
    assert_eq!(m.read_u8(0x1040).unwrap(), 0x5A);
}
