use vstd::prelude::*;

verus! {

/// The value of two little-endian bytes.
pub open spec fn le16_val(s: Seq<u8>) -> u16
    recommends
        s.len() == 2,
{
    (s[0] + 0x100 * s[1]) as u16
}

/// The value of four little-endian bytes.
pub open spec fn le32_val(s: Seq<u8>) -> u32
    recommends
        s.len() == 4,
{
    (s[0] + 0x100 * s[1] + 0x1_0000 * s[2] + 0x100_0000 * s[3]) as u32
}

/// The value of eight little-endian bytes.
pub open spec fn le64_val(s: Seq<u8>) -> u64
    recommends
        s.len() == 8,
{
    (s[0] + 0x100 * s[1] + 0x1_0000 * s[2] + 0x100_0000 * s[3]
        + 0x1_0000_0000 * s[4] + 0x100_0000_0000 * s[5]
        + 0x1_0000_0000_0000 * s[6] + 0x100_0000_0000_0000 * s[7]) as u64
}

/// The value of sixteen little-endian bytes.
pub open spec fn le128_val(s: Seq<u8>) -> u128
    recommends
        s.len() == 16,
{
    (le64_val(s.subrange(0, 8)) + 0x1_0000_0000_0000_0000 * le64_val(s.subrange(8, 16))) as u128
}

/// The two little-endian bytes of a 16-bit value.
pub open spec fn le16_bytes(v: u16) -> Seq<u8> {
    seq![(v % 0x100) as u8, ((v / 0x100) % 0x100) as u8]
}

/// The four little-endian bytes of a 32-bit value.
pub open spec fn le32_bytes(v: u32) -> Seq<u8> {
    seq![
        (v % 0x100) as u8,
        ((v / 0x100) % 0x100) as u8,
        ((v / 0x1_0000) % 0x100) as u8,
        ((v / 0x100_0000) % 0x100) as u8,
    ]
}

/// The eight little-endian bytes of a 64-bit value.
pub open spec fn le64_bytes(v: u64) -> Seq<u8> {
    seq![
        (v % 0x100) as u8,
        ((v / 0x100) % 0x100) as u8,
        ((v / 0x1_0000) % 0x100) as u8,
        ((v / 0x100_0000) % 0x100) as u8,
        ((v / 0x1_0000_0000) % 0x100) as u8,
        ((v / 0x100_0000_0000) % 0x100) as u8,
        ((v / 0x1_0000_0000_0000) % 0x100) as u8,
        ((v / 0x100_0000_0000_0000) % 0x100) as u8,
    ]
}

/// The sixteen little-endian bytes of a 128-bit value.
pub open spec fn le128_bytes(v: u128) -> Seq<u8> {
    le64_bytes((v % 0x1_0000_0000_0000_0000) as u64)
        + le64_bytes((v / 0x1_0000_0000_0000_0000) as u64)
}

/// Assemble a 16-bit value from its two little-endian bytes.
pub fn le16_of_bytes(b: &Vec<u8>) -> (r: u16)
    requires
        b@.len() == 2,
    ensures
        r == le16_val(b@),
{
    b[0] as u16 + 0x100 * (b[1] as u16)
}

/// Assemble a 32-bit value from its four little-endian bytes.
pub fn le32_of_bytes(b: &Vec<u8>) -> (r: u32)
    requires
        b@.len() == 4,
    ensures
        r == le32_val(b@),
{
    b[0] as u32 + 0x100 * (b[1] as u32) + 0x1_0000 * (b[2] as u32) + 0x100_0000 * (b[3] as u32)
}

/// Assemble a 64-bit value from its eight little-endian bytes.
pub fn le64_of_bytes(b: &Vec<u8>) -> (r: u64)
    requires
        b@.len() == 8,
    ensures
        r == le64_val(b@),
{
    b[0] as u64 + 0x100 * (b[1] as u64) + 0x1_0000 * (b[2] as u64) + 0x100_0000 * (b[3] as u64)
        + 0x1_0000_0000 * (b[4] as u64) + 0x100_0000_0000 * (b[5] as u64)
        + 0x1_0000_0000_0000 * (b[6] as u64) + 0x100_0000_0000_0000 * (b[7] as u64)
}

/// Assemble a 128-bit value from its sixteen little-endian bytes.
pub fn le128_of_bytes(b: &Vec<u8>) -> (r: u128)
    requires
        b@.len() == 16,
    ensures
        r == le128_val(b@),
{
    let mut lo: Vec<u8> = Vec::new();
    let mut hi: Vec<u8> = Vec::new();
    let mut i: usize = 0;
    while i < 8
        invariant
            i <= 8,
            b@.len() == 16,
            lo@ =~= b@.subrange(0, i as int),
        decreases 8 - i,
    {
        lo.push(b[i]);
        i += 1;
    }
    let mut j: usize = 8;
    while j < 16
        invariant
            8 <= j <= 16,
            b@.len() == 16,
            hi@ =~= b@.subrange(8, j as int),
        decreases 16 - j,
    {
        hi.push(b[j]);
        j += 1;
    }
    let lo_v = le64_of_bytes(&lo);
    let hi_v = le64_of_bytes(&hi);
    lo_v as u128 + 0x1_0000_0000_0000_0000 * (hi_v as u128)
}

/// The two little-endian bytes of a 16-bit value.
pub fn le16_to_bytes(v: u16) -> (r: Vec<u8>)
    ensures
        r@ =~= le16_bytes(v),
{
    let mut out: Vec<u8> = Vec::new();
    out.push((v % 0x100) as u8);
    out.push(((v / 0x100) % 0x100) as u8);
    out
}

/// The four little-endian bytes of a 32-bit value.
pub fn le32_to_bytes(v: u32) -> (r: Vec<u8>)
    ensures
        r@ =~= le32_bytes(v),
{
    let mut out: Vec<u8> = Vec::new();
    out.push((v % 0x100) as u8);
    out.push(((v / 0x100) % 0x100) as u8);
    out.push(((v / 0x1_0000) % 0x100) as u8);
    out.push(((v / 0x100_0000) % 0x100) as u8);
    out
}

/// The eight little-endian bytes of a 64-bit value.
pub fn le64_to_bytes(v: u64) -> (r: Vec<u8>)
    ensures
        r@ =~= le64_bytes(v),
{
    let mut out: Vec<u8> = Vec::new();
    out.push((v % 0x100) as u8);
    out.push(((v / 0x100) % 0x100) as u8);
    out.push(((v / 0x1_0000) % 0x100) as u8);
    out.push(((v / 0x100_0000) % 0x100) as u8);
    out.push(((v / 0x1_0000_0000) % 0x100) as u8);
    out.push(((v / 0x100_0000_0000) % 0x100) as u8);
    out.push(((v / 0x1_0000_0000_0000) % 0x100) as u8);
    out.push(((v / 0x100_0000_0000_0000) % 0x100) as u8);
    out
}

/// The sixteen little-endian bytes of a 128-bit value.
pub fn le128_to_bytes(v: u128) -> (r: Vec<u8>)
    ensures
        r@ =~= le128_bytes(v),
{
    let mut out = le64_to_bytes((v % 0x1_0000_0000_0000_0000) as u64);
    let mut hi = le64_to_bytes((v / 0x1_0000_0000_0000_0000) as u64);
    out.append(&mut hi);
    out
}

} // verus!
