//! Wire-format checks for the pw codec: each test serializes a value the
//! way the tagged length-prefixed format defines it, compares the bytes
//! against the expected frame, and then reads the value back from those
//! bytes.

use ds::pw::{parse_tag, Deserializer, Serializer};

fn i32_bytes(ser: &mut Serializer, v: i32) {
    ser.serialize_i32(v).unwrap();
}

#[test]
fn test1() {
    // struct { a: i32, b: String }
    let mut ser = Serializer::new(Vec::new());
    i32_bytes(&mut ser, 42);
    ser.serialize_str("fish").unwrap();
    let buf = ser.into_inner();
    assert_eq!(buf, vec![0, 0, 0, 42, 4, b'f', b'i', b's', b'h']);

    let mut de = Deserializer::new(&buf[..]);
    assert_eq!(de.visit_i32().unwrap(), 42);
    assert_eq!(de.visit_bytes().unwrap(), b"fish".to_vec());
}

#[test]
fn test2() {
    // tuples elide the length: (i32, String) has the same frame
    let mut ser = Serializer::new(Vec::new());
    i32_bytes(&mut ser, 42);
    ser.serialize_str("fish").unwrap();
    let buf = ser.into_inner();
    assert_eq!(buf, vec![0, 0, 0, 42, 4, b'f', b'i', b's', b'h']);

    let mut de = Deserializer::new(&buf[..]);
    assert_eq!(de.visit_i32().unwrap(), 42);
    assert_eq!(String::from_utf8(de.visit_bytes().unwrap()).unwrap(), "fish");
}

#[test]
fn test3() {
    // (Some(42u16), None::<i32>, Ok::<i32, i16>(42))
    let mut ser = Serializer::new(Vec::new());
    ser.serialize_some().unwrap();
    ser.serialize_u16(42).unwrap();
    ser.serialize_none().unwrap();
    ser.serialize_variant(parse_tag("Result") as u32, 0).unwrap();
    i32_bytes(&mut ser, 42);
    let buf = ser.into_inner();
    assert_eq!(buf, vec![1, 0, 42, 0, 0, 0, 0, 0, 42]);

    let mut de = Deserializer::new(&buf[..]);
    assert!(de.visit_option().unwrap());
    assert_eq!(de.visit_u16().unwrap(), 42);
    assert!(!de.visit_option().unwrap());
    assert_eq!(de.visit_variant_tag().unwrap(), 0);
    assert_eq!(de.visit_i32().unwrap(), 42);
}

#[test]
fn test4() {
    // Enum::Three(i32) is variant index 2 of an untagged-name enum
    let mut ser = Serializer::new(Vec::new());
    ser.serialize_variant(parse_tag("Enum") as u32, 2).unwrap();
    i32_bytes(&mut ser, 666);
    let buf = ser.into_inner();
    assert_eq!(buf, vec![2, 0, 0, 2, 154]);

    let mut de = Deserializer::new(&buf[..]);
    assert_eq!(de.visit_variant_tag().unwrap(), 2);
    assert_eq!(de.visit_i32().unwrap(), 666);
}

#[test]
fn test5() {
    // Enum::Four(Struct { a: 1024, b: "good man" }) is variant index 3
    let mut ser = Serializer::new(Vec::new());
    ser.serialize_variant(0, 3).unwrap();
    i32_bytes(&mut ser, 1024);
    ser.serialize_str("good man").unwrap();
    let buf = ser.into_inner();
    assert_eq!(
        buf,
        vec![3, 0, 0, 4, 0, 8, b'g', b'o', b'o', b'd', b' ', b'm', b'a', b'n']
    );

    let mut de = Deserializer::new(&buf[..]);
    assert_eq!(de.visit_variant_tag().unwrap(), 3);
    assert_eq!(de.visit_i32().unwrap(), 1024);
    assert_eq!(String::from_utf8(de.visit_bytes().unwrap()).unwrap(), "good man");
}

#[test]
fn test6() {
    // vec![1, 233, 666] of i32: compact count, then flat elements
    let mut ser = Serializer::new(Vec::new());
    ser.serialize_seq_len(3).unwrap();
    i32_bytes(&mut ser, 1);
    i32_bytes(&mut ser, 233);
    i32_bytes(&mut ser, 666);
    let buf = ser.into_inner();
    assert_eq!(buf, vec![3, 0, 0, 0, 1, 0, 0, 0, 233, 0, 0, 2, 154]);

    let mut de = Deserializer::new(&buf[..]);
    let n = de.visit_seq_len().unwrap();
    assert_eq!(n, 3);
    let mut out = Vec::new();
    for _ in 0..n {
        out.push(de.visit_i32().unwrap());
    }
    assert_eq!(out, vec![1, 233, 666]);
}

#[test]
fn test7() {
    // a byte string is its compact count followed by the raw bytes
    let mut ser = Serializer::new(Vec::new());
    ser.serialize_bytes(b"binary").unwrap();
    let buf = ser.into_inner();
    assert_eq!(buf, vec![6, b'b', b'i', b'n', b'a', b'r', b'y']);

    let mut de = Deserializer::new(&buf[..]);
    assert_eq!(de.visit_bytes().unwrap(), b"binary".to_vec());
}

#[test]
fn test8() {
    // only the variant index travels, never a declared discriminant
    let mut ser = Serializer::new(Vec::new());
    ser.serialize_variant(parse_tag("MoreEnum") as u32, 0).unwrap();
    let buf = ser.into_inner();
    assert_eq!(buf, vec![0]);

    let mut de = Deserializer::new(&buf[..]);
    assert_eq!(de.visit_variant_tag().unwrap(), 0);
}

#[test]
fn test9() {
    // ProtocolFrom8000::Seven(880): offset tag, payload as a byte blob
    assert_eq!(parse_tag("ProtocolFrom8000"), 8000);
    let mut inner = Serializer::new(Vec::new());
    i32_bytes(&mut inner, 880);
    let body = inner.into_inner();
    let mut ser = Serializer::new(Vec::new());
    ser.serialize_variant(parse_tag("ProtocolFrom8000") as u32, 0).unwrap();
    ser.serialize_bytes(&body).unwrap();
    let buf = ser.into_inner();
    assert_eq!(buf, vec![159, 64, 4, 0, 0, 3, 112]);

    let mut de = Deserializer::new(&buf[..]);
    assert_eq!(de.visit_variant_tag().unwrap(), 8000);
    let blob = de.visit_bytes().unwrap();
    let mut db = Deserializer::new(&blob[..]);
    assert_eq!(db.visit_i32().unwrap(), 880);
}

#[test]
fn test10() {
    // ProtocolFrom8000::Eight { i: 880 } is variant index 1
    let mut inner = Serializer::new(Vec::new());
    i32_bytes(&mut inner, 880);
    let body = inner.into_inner();
    let mut ser = Serializer::new(Vec::new());
    ser.serialize_variant(parse_tag("ProtocolFrom8000") as u32, 1).unwrap();
    ser.serialize_bytes(&body).unwrap();
    let buf = ser.into_inner();
    assert_eq!(buf, vec![159, 65, 4, 0, 0, 3, 112]);

    let mut de = Deserializer::new(&buf[..]);
    assert_eq!(de.visit_variant_tag().unwrap(), 8001);
    let blob = de.visit_bytes().unwrap();
    let mut db = Deserializer::new(&blob[..]);
    assert_eq!(db.visit_i32().unwrap(), 880);
}

#[test]
fn test11() {
    // ProtocolFrom8000::Nine(Struct { a: 880, b: "" }) is variant index 2
    let mut inner = Serializer::new(Vec::new());
    i32_bytes(&mut inner, 880);
    inner.serialize_str("").unwrap();
    let body = inner.into_inner();
    let mut ser = Serializer::new(Vec::new());
    ser.serialize_variant(parse_tag("ProtocolFrom8000") as u32, 2).unwrap();
    ser.serialize_bytes(&body).unwrap();
    let buf = ser.into_inner();
    assert_eq!(buf, vec![159, 66, 5, 0, 0, 3, 112, 0]);

    let mut de = Deserializer::new(&buf[..]);
    assert_eq!(de.visit_variant_tag().unwrap(), 8002);
    let blob = de.visit_bytes().unwrap();
    let mut db = Deserializer::new(&blob[..]);
    assert_eq!(db.visit_i32().unwrap(), 880);
    assert_eq!(db.visit_bytes().unwrap(), Vec::<u8>::new());
}
