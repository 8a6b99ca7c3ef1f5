use hc_host::decoder::{assemble_32, decode_registers};
use hc_host::model::ByteOrder::{self, Abcd, Badc, Cdab, Dcba};
use hc_host::model::DataType::{self, Bool, F32, I16, I32, U16, U32};
use hc_host::model::Value;

fn d(v: u16, t: DataType, o: ByteOrder) -> Option<Value> {
    decode_registers(&[v], t, o)
}

fn d2(a: u16, b: u16, t: DataType, o: ByteOrder) -> Option<Value> {
    decode_registers(&[a, b], t, o)
}

fn f32v(x: f32) -> Value {
    Value::F32(x.to_bits())
}

#[test]
fn test_bool() {
    assert_eq!(d(1, Bool, Abcd), Some(Value::Bool(true)));
    assert_eq!(d(0, Bool, Abcd), Some(Value::Bool(false)));
}

#[test]
fn test_u16() {
    assert_eq!(d(42, U16, Abcd), Some(Value::U16(42)));
}

#[test]
fn test_i16() {
    assert_eq!(d(0xFFF6, I16, Abcd), Some(Value::I16(-10)));
}

#[test]
fn test_u32_byte_orders() {
    assert_eq!(d2(0xABCD, 0x1234, U32, Abcd), Some(Value::U32(0xABCD1234)));
    assert_eq!(d2(0xABCD, 0x1234, U32, Badc), Some(Value::U32(0xCDAB3412)));
    assert_eq!(d2(0xABCD, 0x1234, U32, Cdab), Some(Value::U32(0x1234ABCD)));
    assert_eq!(d2(0xABCD, 0x1234, U32, Dcba), Some(Value::U32(0x3412CDAB)));
}

#[test]
fn test_insufficient() {
    assert_eq!(decode_registers(&[], U32, Abcd), None);
    assert_eq!(decode_registers(&[1], F32, Abcd), None);
}

#[test]
fn test_all_byte_orders_f32() {
    let (h, l) = (0x41C8, 0x0000);
    for order in [Abcd, Badc, Cdab, Dcba] {
        let v = d2(h, l, F32, order).unwrap();
        if order == Abcd {
            assert_eq!(v, f32v(25.0));
        }
        assert!(matches!(v, Value::F32(_)));
    }
}

#[test]
fn test_i32_negative() {
    assert_eq!(d2(0xFFFF, 0xFFF6, I32, Abcd), Some(Value::I32(-10)));
}

#[test]
fn test_u32_scale_offset() {
    assert_eq!(d2(0x0000, 0x0064, U32, Abcd), Some(Value::U32(0x64)));
}

#[test]
fn test_bool_edge() {
    assert_eq!(d(2, Bool, Abcd), Some(Value::Bool(true)));
    assert_eq!(d(0, Bool, Abcd), Some(Value::Bool(false)));
}

#[test]
fn f32_raw_pattern_per_order() {
    assert_eq!(decode_registers(&[0x41C8, 0x0000], F32, Abcd), Some(Value::F32(0x41C8_0000)));
    assert_eq!(decode_registers(&[0x41C8, 0x0000], F32, Badc), Some(Value::F32(0xC841_0000)));
    assert_eq!(decode_registers(&[0x41C8, 0x0000], F32, Cdab), Some(Value::F32(0x0000_41C8)));
    assert_eq!(decode_registers(&[0x41C8, 0x0000], F32, Dcba), Some(Value::F32(0x0000_C841)));
}

#[test]
fn empty_registers_give_nothing() {
    for t in [U16, I16, U32, I32, F32, Bool] {
        assert_eq!(decode_registers(&[], t, Abcd), None);
    }
    assert_eq!(decode_registers(&[7], I32, Dcba), None);
}

#[test]
fn extra_registers_are_ignored() {
    assert_eq!(decode_registers(&[5, 6, 7], U16, Abcd), Some(Value::U16(5)));
    assert_eq!(decode_registers(&[1, 2, 3], U32, Abcd), Some(Value::U32(0x0001_0002)));
}

#[test]
fn i16_and_i32_extremes() {
    assert_eq!(decode_registers(&[0x8000], I16, Abcd), Some(Value::I16(i16::MIN)));
    assert_eq!(decode_registers(&[0x7FFF], I16, Abcd), Some(Value::I16(i16::MAX)));
    assert_eq!(decode_registers(&[0x8000, 0x0000], I32, Abcd), Some(Value::I32(i32::MIN)));
    assert_eq!(decode_registers(&[0xF6FF, 0xFFFF], I32, Dcba), Some(Value::I32(-10)));
}

#[test]
fn assemble_orders() {
    assert_eq!(assemble_32(0xABCD, 0x1234, Abcd), [0xAB, 0xCD, 0x12, 0x34]);
    assert_eq!(assemble_32(0xABCD, 0x1234, Badc), [0xCD, 0xAB, 0x34, 0x12]);
    assert_eq!(assemble_32(0xABCD, 0x1234, Cdab), [0x12, 0x34, 0xAB, 0xCD]);
    assert_eq!(assemble_32(0xABCD, 0x1234, Dcba), [0x34, 0x12, 0xCD, 0xAB]);
}
