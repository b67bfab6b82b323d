//! Pure pieces of the input/output plumbing: scan-code translation and
//! interrupt-redirection entry packing.

use vstd::prelude::*;

verus! {

/// The character a keyboard scan code stands for, zero when it stands for
/// none.  Released keys yield nothing, except the up- and down-arrow
/// codes, which are folded onto values above the printable range.
pub open spec fn ascii_of(data: u8) -> u8 {
    if false { 0u8
    } else if data == 0x10 { 0x51
    } else if data == 0x11 { 0x57
    } else if data == 0x12 { 0x45
    } else if data == 0x13 { 0x52
    } else if data == 0x14 { 0x54
    } else if data == 0x2c { 0x5a
    } else if data == 0x16 { 0x55
    } else if data == 0x17 { 0x49
    } else if data == 0x18 { 0x4f
    } else if data == 0x19 { 0x50
    } else if data == 0x1e { 0x41
    } else if data == 0x1f { 0x53
    } else if data == 0x20 { 0x44
    } else if data == 0x21 { 0x46
    } else if data == 0x22 { 0x47
    } else if data == 0x23 { 0x48
    } else if data == 0x24 { 0x4a
    } else if data == 0x25 { 0x4b
    } else if data == 0x26 { 0x4c
    } else if data == 0x15 { 0x59
    } else if data == 0x2d { 0x58
    } else if data == 0x2e { 0x43
    } else if data == 0x2f { 0x56
    } else if data == 0x30 { 0x42
    } else if data == 0x31 { 0x4e
    } else if data == 0x32 { 0x4d
    } else if data == 0x0b { 0x30
    } else if data == 0x02 { 0x31
    } else if data == 0x03 { 0x32
    } else if data == 0x04 { 0x33
    } else if data == 0x05 { 0x34
    } else if data == 0x06 { 0x35
    } else if data == 0x07 { 0x36
    } else if data == 0x08 { 0x37
    } else if data == 0x09 { 0x38
    } else if data == 0x0a { 0x39
    } else if data == 0x1c { 0x0a
    } else if data == 0x39 { 0x20
    } else if data == 0x0c { 0x2d
    } else if data == 0x35 { 0x2d
    } else if data == 0x0e { 0x08
    } else if data == 0xc8 { 0x82
    } else if data == 0xd0 { 0x83
    } else { 0x00 }
}

/// Translate one keyboard scan code to its character.
pub fn data_to_ascii(data: u8) -> (r: u8)
    ensures
        r == ascii_of(data),
{
    match data {
        0x10 => 0x51,
        0x11 => 0x57,
        0x12 => 0x45,
        0x13 => 0x52,
        0x14 => 0x54,
        0x2c => 0x5a,
        0x16 => 0x55,
        0x17 => 0x49,
        0x18 => 0x4f,
        0x19 => 0x50,
        0x1e => 0x41,
        0x1f => 0x53,
        0x20 => 0x44,
        0x21 => 0x46,
        0x22 => 0x47,
        0x23 => 0x48,
        0x24 => 0x4a,
        0x25 => 0x4b,
        0x26 => 0x4c,
        0x15 => 0x59,
        0x2d => 0x58,
        0x2e => 0x43,
        0x2f => 0x56,
        0x30 => 0x42,
        0x31 => 0x4e,
        0x32 => 0x4d,
        0x0b => 0x30,
        0x02 => 0x31,
        0x03 => 0x32,
        0x04 => 0x33,
        0x05 => 0x34,
        0x06 => 0x35,
        0x07 => 0x36,
        0x08 => 0x37,
        0x09 => 0x38,
        0x0a => 0x39,
        0x1c => 0x0a,
        0x39 => 0x20,
        0x0c => 0x2d,
        0x35 => 0x2d,
        0x0e => 0x08,
        0xc8 => 0x82,
        0xd0 => 0x83,
        _ => 0x00,
    }
}

/// The character a key press stands for once the shift state is applied:
/// an upper-case letter stays upper case under shift and folds to lower
/// case otherwise.
pub open spec fn shifted_ascii_of(data: u8, shift: bool) -> u8 {
    let c = ascii_of(data);
    if !shift && 0x41 <= c <= 0x5a {
        (c + 0x20) as u8
    } else {
        c
    }
}

/// Translate a key press under the given shift state.
pub fn shifted_ascii(data: u8, shift: bool) -> (r: u8)
    ensures
        r == shifted_ascii_of(data, shift),
{
    let c = data_to_ascii(data);
    if !shift && 0x41 <= c && c <= 0x5a {
        c + 0x20
    } else {
        c
    }
}

/// Pack an interrupt-redirection entry from its fields: the destination in
/// the high register, and mask, trigger mode, polarity, destination mode,
/// delivery mode and vector at their fixed bit positions in the low one.
pub fn gen_irq(dest: u8, dest_mod: u8, mask: u8, trig: u8, pol: u8, del_mod: u8, int_vec: u8) -> (r:
    (u32, u32))
    ensures
        r.0 == (dest as u32) << 24,
        r.1 == (((mask as u32) & 0x1) << 16) | (((trig as u32) & 0x1) << 15) | (((pol as u32)
            & 0x1) << 13) | (((dest_mod as u32) & 0x1) << 11) | (((del_mod as u32) & 0x7) << 8) | (
        int_vec as u32),
{
    let hi: u32 = (dest as u32) << 24;
    let lo: u32 = (((mask as u32) & 0x1) << 16) | (((trig as u32) & 0x1) << 15) | (((pol as u32)
        & 0x1) << 13) | (((dest_mod as u32) & 0x1) << 11) | (((del_mod as u32) & 0x7) << 8) | (
    int_vec as u32);
    (hi, lo)
}

} // verus!
