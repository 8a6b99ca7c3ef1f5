use vstd::prelude::*;
use crate::model::{ByteOrder, DataType, Value};

verus! {

/// High byte of a register.
pub open spec fn hi_byte(x: u16) -> u8 {
    (x / 256) as u8
}

/// Low byte of a register.
pub open spec fn lo_byte(x: u16) -> u8 {
    (x % 256) as u8
}

/// The four bytes, most significant first, that the byte order `order`
/// makes of the registers `hi = AB` and `lo = CD`.
pub open spec fn ordered_bytes(hi: u16, lo: u16, order: ByteOrder) -> Seq<u8> {
    match order {
        ByteOrder::Abcd => seq![hi_byte(hi), lo_byte(hi), hi_byte(lo), lo_byte(lo)],
        ByteOrder::Badc => seq![lo_byte(hi), hi_byte(hi), lo_byte(lo), hi_byte(lo)],
        ByteOrder::Cdab => seq![hi_byte(lo), lo_byte(lo), hi_byte(hi), lo_byte(hi)],
        ByteOrder::Dcba => seq![lo_byte(lo), hi_byte(lo), lo_byte(hi), hi_byte(hi)],
    }
}

/// A register with its two bytes exchanged.
pub open spec fn swap16(x: u16) -> int {
    (x % 256) * 256 + x / 256
}

/// The 32-bit word that `order` makes of `hi` and `lo`.
pub open spec fn word32(hi: u16, lo: u16, order: ByteOrder) -> int {
    match order {
        ByteOrder::Abcd => hi * 65536 + lo,
        ByteOrder::Badc => swap16(hi) * 65536 + swap16(lo),
        ByteOrder::Cdab => lo * 65536 + hi,
        ByteOrder::Dcba => swap16(lo) * 65536 + swap16(hi),
    }
}

/// Two's complement reading of a register.
pub open spec fn signed16(x: u16) -> int {
    if x < 0x8000 { x as int } else { x - 0x10000 }
}

/// Two's complement reading of a 32-bit word.
pub open spec fn signed32(x: int) -> int {
    if x < 0x8000_0000 { x } else { x - 0x1_0000_0000 }
}

/// What `decode_registers` returns: `None` when too few registers are given.
pub open spec fn decoded(regs: Seq<u16>, data_type: DataType, order: ByteOrder) -> Option<Value> {
    match data_type {
        DataType::Bool => if regs.len() == 0 { None } else { Some(Value::Bool(regs[0] != 0)) },
        DataType::U16 => if regs.len() == 0 { None } else { Some(Value::U16(regs[0])) },
        DataType::I16 => if regs.len() == 0 { None } else { Some(Value::I16(signed16(regs[0]) as i16)) },
        DataType::U32 => if regs.len() < 2 { None } else {
            Some(Value::U32(word32(regs[0], regs[1], order) as u32))
        },
        DataType::I32 => if regs.len() < 2 { None } else {
            Some(Value::I32(signed32(word32(regs[0], regs[1], order)) as i32))
        },
        DataType::F32 => if regs.len() < 2 { None } else {
            Some(Value::F32(word32(regs[0], regs[1], order) as u32))
        },
    }
}

/// Lays out the bytes of two registers in the order `order` names.
pub fn assemble_32(hi: u16, lo: u16, order: ByteOrder) -> (r: [u8; 4])
    ensures
        r@ == ordered_bytes(hi, lo, order),
{
    let h0 = (hi >> 8) as u8;
    let h1 = (hi & 0xff) as u8;
    let l0 = (lo >> 8) as u8;
    let l1 = (lo & 0xff) as u8;
    assert(h0 == hi_byte(hi) && h1 == lo_byte(hi)) by (bit_vector)
        requires h0 == (hi >> 8) as u8, h1 == (hi & 0xff) as u8;
    assert(l0 == hi_byte(lo) && l1 == lo_byte(lo)) by (bit_vector)
        requires l0 == (lo >> 8) as u8, l1 == (lo & 0xff) as u8;
    let r = match order {
        ByteOrder::Abcd => [h0, h1, l0, l1],
        ByteOrder::Badc => [h1, h0, l1, l0],
        ByteOrder::Cdab => [l0, l1, h0, h1],
        ByteOrder::Dcba => [l1, l0, h1, h0],
    };
    assert(r@ =~= ordered_bytes(hi, lo, order));
    r
}

/// Big-endian reading of four bytes.
fn be_u32(b: [u8; 4]) -> (r: u32)
    ensures
        r == b[0] * 0x100_0000 + b[1] * 0x1_0000 + b[2] * 0x100 + b[3],
{
    let (b0, b1, b2, b3) = (b[0], b[1], b[2], b[3]);
    let r = ((b0 as u32) << 24) | ((b1 as u32) << 16) | ((b2 as u32) << 8) | (b3 as u32);
    assert(r == b0 * 0x100_0000 + b1 * 0x1_0000 + b2 * 0x100 + b3) by (bit_vector)
        requires r == ((b0 as u32) << 24) | ((b1 as u32) << 16) | ((b2 as u32) << 8) | (b3 as u32);
    r
}

proof fn lemma_word32(hi: u16, lo: u16, order: ByteOrder)
    ensures
        ({
            let b = ordered_bytes(hi, lo, order);
            b[0] * 0x100_0000 + b[1] * 0x1_0000 + b[2] * 0x100 + b[3] == word32(hi, lo, order)
        }),
        0 <= word32(hi, lo, order) < 0x1_0000_0000,
{
}

/// Decodes the registers of a tag. Too few registers for the type give `None`;
/// a 32-bit float comes back as its bit pattern, unscaled.
pub fn decode_registers(registers: &[u16], data_type: DataType, byte_order: ByteOrder) -> (r: Option<Value>)
    ensures
        r == decoded(registers@, data_type, byte_order),
{
    match data_type {
        DataType::Bool => if registers.len() == 0 { None } else { Some(Value::Bool(registers[0] != 0)) },
        DataType::U16 => if registers.len() == 0 { None } else { Some(Value::U16(registers[0])) },
        DataType::I16 => if registers.len() == 0 { None } else {
            let x = registers[0];
            let v = x as i16;
            assert(v == signed16(x) as i16) by (bit_vector)
                requires v == x as i16;
            Some(Value::I16(v))
        },
        DataType::U32 | DataType::I32 | DataType::F32 => {
            if registers.len() < 2 {
                return None;
            }
            let bytes = assemble_32(registers[0], registers[1], byte_order);
            let raw = be_u32(bytes);
            proof { lemma_word32(registers[0], registers[1], byte_order); }
            match data_type {
                DataType::U32 => Some(Value::U32(raw)),
                DataType::I32 => {
                    let v = raw as i32;
                    assert(v == signed32(raw as int) as i32) by (bit_vector)
                        requires v == raw as i32;
                    Some(Value::I32(v))
                },
                _ => Some(Value::F32(raw)),
            }
        },
    }
}


/// Two registers as one 32-bit word: under `Abcd` the first register is the
/// high half, big-endian; `Cdab` reads the same registers in the other word
/// order, `Badc` with the bytes of each register exchanged, `Dcba` both.
/// Whatever the order, `U32`, `I32` and `F32` read the same 32-bit word:
/// `I32` is its two's complement reading and `F32` its bit pattern.
pub proof fn lemma_decode_words(hi: u16, lo: u16, order: ByteOrder)
    ensures
        ({
            let regs = seq![hi, lo];
            let sh: u16 = ((hi % 256) * 256 + hi / 256) as u16;
            let sl: u16 = ((lo % 256) * 256 + lo / 256) as u16;
            &&& decoded(seq![hi, lo], DataType::U32, ByteOrder::Abcd) == Some(Value::U32((hi * 65536 + lo) as u32))
            &&& decoded(regs, DataType::U32, ByteOrder::Cdab) == decoded(seq![lo, hi], DataType::U32, ByteOrder::Abcd)
            &&& decoded(regs, DataType::U32, ByteOrder::Badc) == decoded(seq![sh, sl], DataType::U32, ByteOrder::Abcd)
            &&& decoded(regs, DataType::U32, ByteOrder::Dcba) == decoded(seq![sl, sh], DataType::U32, ByteOrder::Abcd)
            &&& decoded(regs, DataType::U32, order) matches Some(Value::U32(u)) && {
                &&& decoded(regs, DataType::F32, order) == Some(Value::F32(u))
                &&& decoded(regs, DataType::I32, order) matches Some(Value::I32(x))
                &&& x as int == (if u < 0x8000_0000 { u as int } else { u - 0x1_0000_0000 })
            }
        }),
{
    let sh: u16 = ((hi % 256) * 256 + hi / 256) as u16;
    let sl: u16 = ((lo % 256) * 256 + lo / 256) as u16;
    assert(seq![hi, lo][0] == hi && seq![hi, lo][1] == lo);
    assert(seq![lo, hi][0] == lo && seq![lo, hi][1] == hi);
    assert(seq![sh, sl][0] == sh && seq![sh, sl][1] == sl);
    assert(seq![sl, sh][0] == sl && seq![sl, sh][1] == sh);
    assert(sh == swap16(hi) && sl == swap16(lo));
    let w = word32(hi, lo, order);
    assert(0 <= w < 0x1_0000_0000);
}

/// One register: `U16` is the register, `I16` its two's complement reading,
/// `Bool` whether it is non-zero; none of them depends on the byte order.
pub proof fn lemma_decode_register(x: u16, order: ByteOrder, other: ByteOrder)
    ensures
        decoded(seq![x], DataType::U16, order) == Some(Value::U16(x)),
        decoded(seq![x], DataType::I16, order) matches Some(Value::I16(v)) && v as int == (if x < 0x8000 {
            x as int
        } else {
            x - 0x1_0000
        }),
        decoded(seq![x], DataType::Bool, order) == Some(Value::Bool(x != 0)),
        decoded(seq![x], DataType::I16, order) == decoded(seq![x], DataType::I16, other),
{
    assert(seq![x][0] == x);
}

} // verus!
