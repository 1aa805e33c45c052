use sqltree::pgcodec::{Decode, Encode, IsNull, PgArgumentBuffer, PgValue, PgValueFormat, PgTypeInfo, TypeInfo};

fn bin(data: Vec<u8>) -> PgValue {
    PgValue { format: PgValueFormat::Binary, data }
}

fn text(s: &str) -> PgValue {
    PgValue { format: PgValueFormat::Text, data: s.as_bytes().to_vec() }
}

#[test]
fn decode_u64_binary() {
    let v: u64 = Decode::decode(bin(vec![0, 0, 0, 0, 0, 0, 1, 2])).unwrap();
    assert_eq!(v, 258);
}

#[test]
fn decode_u64_short_buffer_is_error() {
    let r: Result<u64, String> = Decode::decode(bin(vec![1, 2]));
    assert_eq!(r.unwrap_err(), "error u64 bytes len");
}

#[test]
fn decode_u32_from_wide_and_exact_buffers() {
    let wide: u32 = Decode::decode(bin(vec![0, 0, 0, 0, 0, 0, 0, 9])).unwrap();
    assert_eq!(wide, 9);
    let exact: u32 = Decode::decode(bin(vec![0, 0, 1, 0])).unwrap();
    assert_eq!(exact, 256);
    let bad: Result<u32, String> = Decode::decode(bin(vec![0, 0, 1]));
    assert_eq!(bad.unwrap_err(), "error u32 bytes len");
}

#[test]
fn decode_u16_from_all_widths() {
    let w8: u16 = Decode::decode(bin(vec![0, 0, 0, 0, 0, 0, 0, 5])).unwrap();
    assert_eq!(w8, 5);
    let w4: u16 = Decode::decode(bin(vec![0, 0, 0, 6])).unwrap();
    assert_eq!(w4, 6);
    let w2: u16 = Decode::decode(bin(vec![1, 1])).unwrap();
    assert_eq!(w2, 257);
}

#[test]
fn decode_u8_takes_first_byte_or_zero() {
    let v: u8 = Decode::decode(bin(vec![42, 1])).unwrap();
    assert_eq!(v, 42);
    let z: u8 = Decode::decode(bin(vec![])).unwrap();
    assert_eq!(z, 0);
}

#[test]
fn decode_text_values() {
    let v: u64 = Decode::decode(text("12345")).unwrap();
    assert_eq!(v, 12345);
    let i: i64 = Decode::decode(text("-7")).unwrap();
    assert_eq!(i, -7);
    let bad: Result<u64, String> = Decode::decode(text("12x"));
    assert!(bad.is_err());
    let too_big: Result<u16, String> = Decode::decode(text("70000"));
    assert!(too_big.is_err());
}

#[test]
fn decode_i64_binary_negative() {
    let v: i64 = Decode::decode(bin(vec![0xff; 8])).unwrap();
    assert_eq!(v, -1);
}

#[test]
fn decode_i16_binary_negative() {
    let v: i16 = Decode::decode(bin(vec![0xff, 0xfe])).unwrap();
    assert_eq!(v, -2);
}

#[test]
fn decode_i8_wraps_first_byte() {
    let v: i8 = Decode::decode(bin(vec![0xff])).unwrap();
    assert_eq!(v, -1);
}

#[test]
fn encode_big_endian_bytes() {
    let mut buf = PgArgumentBuffer { data: Vec::new() };
    assert_eq!(258u64.encode(&mut buf).unwrap(), IsNull::No);
    assert_eq!(buf.data, vec![0, 0, 0, 0, 0, 0, 1, 2]);
    let mut buf = PgArgumentBuffer { data: Vec::new() };
    (-1i32).encode(&mut buf).unwrap();
    assert_eq!(buf.data, vec![0xff, 0xff, 0xff, 0xff]);
    let mut buf = PgArgumentBuffer { data: Vec::new() };
    257u16.encode(&mut buf).unwrap();
    assert_eq!(buf.data, vec![1, 1]);
}

#[test]
fn encode_then_decode_roundtrip() {
    let mut buf = PgArgumentBuffer { data: Vec::new() };
    0xdead_beef_0102_0304u64.encode(&mut buf).unwrap();
    let v: u64 = Decode::decode(bin(buf.data)).unwrap();
    assert_eq!(v, 0xdead_beef_0102_0304);
}

#[test]
fn i8_type_info_is_bytea() {
    assert_eq!(5i8.type_info(), PgTypeInfo::Bytea);
}
