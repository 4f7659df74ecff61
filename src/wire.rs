//! Big-endian two's-complement encoding of 32-bit signed integers.
use vstd::prelude::*;

verus! {

/// The unsigned value of four bytes read most significant first.
pub open spec fn be_u32(s: Seq<u8>) -> int {
    s[0] as int * 0x100_0000 + s[1] as int * 0x1_0000 + s[2] as int * 0x100 + s[3] as int
}

/// The signed 32-bit value of four big-endian two's-complement bytes.
pub open spec fn be_i32(s: Seq<u8>) -> int {
    let u = be_u32(s);
    if u >= 0x8000_0000 {
        u - 0x1_0000_0000
    } else {
        u
    }
}

/// The four big-endian two's-complement bytes of `v`.
pub open spec fn be_bytes(v: i32) -> Seq<u8> {
    let u: int = if v < 0 {
        v + 0x1_0000_0000
    } else {
        v as int
    };
    seq![
        (u / 0x100_0000) as u8,
        (u / 0x1_0000 % 0x100) as u8,
        (u / 0x100 % 0x100) as u8,
        (u % 0x100) as u8,
    ]
}

/// Reads a big-endian two's-complement `i32` from exactly four bytes.
pub fn to_num(bytes: &[u8]) -> (r: i32)
    requires
        bytes@.len() == 4,
    ensures
        r as int == be_i32(bytes@),
{
    let u: u64 = bytes[0] as u64 * 0x100_0000 + bytes[1] as u64 * 0x1_0000 + bytes[2] as u64
        * 0x100 + bytes[3] as u64;
    if u >= 0x8000_0000 {
        (u as i64 - 0x1_0000_0000) as i32
    } else {
        u as i32
    }
}

/// Writes `v` as four big-endian two's-complement bytes.
pub fn encode_i32(v: i32) -> (r: Vec<u8>)
    ensures
        r@ == be_bytes(v),
{
    let u: u64 = if v < 0 {
        (v as i64 + 0x1_0000_0000) as u64
    } else {
        v as u64
    };
    let mut r: Vec<u8> = Vec::new();
    r.push((u / 0x100_0000) as u8);
    r.push((u / 0x1_0000 % 0x100) as u8);
    r.push((u / 0x100 % 0x100) as u8);
    r.push((u % 0x100) as u8);
    proof {
        assert(r@ =~= be_bytes(v));
    }
    r
}

} // verus!
