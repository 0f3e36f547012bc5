use vstd::prelude::*;

verus! {

/// The 16-bit value whose little-endian bytes are `lo`, `hi`.
pub open spec fn le16(lo: u8, hi: u8) -> u16 {
    (lo as int + 256 * hi as int) as u16
}

/// The low byte of a 16-bit value.
pub open spec fn lo_byte(v: u16) -> u8 {
    (v as int % 256) as u8
}

/// The high byte of a 16-bit value.
pub open spec fn hi_byte(v: u16) -> u8 {
    (v as int / 256) as u8
}

/// Splitting a 16-bit value into bytes and joining them gives it back.
pub proof fn lemma_le16_of_bytes(v: u16)
    ensures
        le16(lo_byte(v), hi_byte(v)) == v,
{
    assert((v as int % 256) + 256 * (v as int / 256) == v as int) by (nonlinear_arith);
}

/// Joining two bytes and splitting the value gives them back.
pub proof fn lemma_bytes_of_le16(lo: u8, hi: u8)
    ensures
        lo_byte(le16(lo, hi)) == lo,
        hi_byte(le16(lo, hi)) == hi,
{
    let v = lo as int + 256 * hi as int;
    assert(v % 256 == lo as int && v / 256 == hi as int) by (nonlinear_arith)
        requires
            v == lo as int + 256 * hi as int,
            0 <= lo < 256,
            0 <= hi < 256,
    ;
}

/// Reads a little-endian 16-bit value.
pub fn read_le16(lo: u8, hi: u8) -> (r: u16)
    ensures
        r == le16(lo, hi),
{
    (lo as u16) + (hi as u16) * 256
}

/// Writes a 16-bit value as its little-endian bytes.
pub fn write_le16(v: u16) -> (r: (u8, u8))
    ensures
        r.0 == lo_byte(v),
        r.1 == hi_byte(v),
{
    ((v % 256) as u8, (v / 256) as u8)
}

} // verus!
