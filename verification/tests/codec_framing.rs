//! Buffer behavior, compact-integer widths, memcached packet round trips,
//! and framing over a shared receive buffer: several whole frames decode
//! in order, and a partial header consumes nothing.

use ds::buffer::Buffer;
use ds::headbody::ServiceStreamer;
use ds::memcached::{
    MemcachedStreamer, Packet as McPacket, PROTOCOL_BINARY_CMD_GET, PROTOCOL_BINARY_CMD_SET,
    PROTOCOL_BINARY_RES, PROTOCOL_BINARY_RESPONSE_SUCCESS,
};
use ds::pw::{Packet as PwPacket, ProtocolFrom1, PwStreamer, Serializer};

#[test]
fn buffer_consume_keeps_space() {
    let mut b = Buffer::with_capacity(8);
    b.write_bytes(&[1, 2, 3, 4, 5]);
    assert_eq!(b.data_slice(), &[1, 2, 3, 4, 5]);
    let space_before = b.space_len();
    b.consume(2);
    assert_eq!(b.data_len(), 3);
    assert!(b.space_len() >= space_before);
    assert_eq!(b.data_slice(), &[3, 4, 5]);
    b.consume(3);
    assert!(b.is_empty());
    // empty buffers snap to the origin: all capacity is writable again
    assert_eq!(b.space_len(), b.cap());
}

#[test]
fn buffer_grows_without_losing_bytes() {
    let mut b = Buffer::with_capacity(4);
    b.write_bytes(&[9, 8]);
    b.consume(1);
    b.write_bytes(&[7, 6, 5, 4, 3, 2, 1]);
    assert_eq!(b.data_slice(), &[8, 7, 6, 5, 4, 3, 2, 1]);
    assert!(b.cap() >= 8);
}

#[test]
fn compact_u32_widths() {
    for (v, expect) in [
        (0u32, vec![0u8]),
        (0x7f, vec![0x7f]),
        (0x80, vec![0x80, 0x80]),
        (0x3fff, vec![0xbf, 0xff]),
        (0x4000, vec![0xc0, 0x00, 0x40, 0x00]),
        (0x1fff_ffff, vec![0xdf, 0xff, 0xff, 0xff]),
        (0x2000_0000, vec![0xe0, 0x20, 0x00, 0x00, 0x00]),
        (0xffff_ffff, vec![0xe0, 0xff, 0xff, 0xff, 0xff]),
    ] {
        let mut ser = Serializer::new(Vec::new());
        ser.compact_u32(v).unwrap();
        assert_eq!(ser.into_inner(), expect, "encoding of {v:#x}");
        let mut de = ds::pw::Deserializer::new(&expect[..]);
        assert_eq!(de.uncompact_u32().unwrap(), v, "decoding of {v:#x}");
    }
}

fn pw_frame(x: i32, y: i32, zzz: Vec<u8>) -> Vec<u8> {
    let mut buf = Buffer::with_capacity(0);
    let p = ProtocolFrom1::Proto1(PwPacket { x, y, zzz });
    PwStreamer::write_packet(&p, &mut buf).unwrap();
    buf.data_slice().to_vec()
}

#[test]
fn multi_packet_buffer_drains_in_order() {
    // three frames preloaded at once decode one by one, then None
    let mut rx = Buffer::with_capacity(0);
    let mut all = Vec::new();
    all.extend_from_slice(&pw_frame(1, 10, vec![0x21; 3]));
    all.extend_from_slice(&pw_frame(2, 20, Vec::new()));
    all.extend_from_slice(&pw_frame(3, 30, vec![7; 256]));
    rx.write_bytes(&all);
    for (ex, ey, elen) in [(1, 10, 3usize), (2, 20, 0), (3, 30, 256)] {
        match PwStreamer::read_packet(&mut rx).unwrap() {
            Some(ProtocolFrom1::Proto1(p)) => {
                assert_eq!(p.x, ex);
                assert_eq!(p.y, ey);
                assert_eq!(p.zzz.len(), elen);
            },
            None => panic!("expected a frame"),
        }
    }
    assert!(PwStreamer::read_packet(&mut rx).unwrap().is_none());
    assert_eq!(rx.data_len(), 0);
}

#[test]
fn partial_header_consumes_nothing() {
    // the first byte of a two-byte compact length decides nothing yet
    let mut rx = Buffer::with_capacity(0);
    rx.write_bytes(&[0x9f]);
    assert!(PwStreamer::read_packet(&mut rx).unwrap().is_none());
    assert_eq!(rx.data_len(), 1);
    assert_eq!(rx.data_slice(), &[0x9f]);
    // a whole frame delivered in arbitrary pieces still decodes once done
    let frame = pw_frame(5, 6, vec![1, 2, 3]);
    let mut rx2 = Buffer::with_capacity(0);
    for chunk in frame.chunks(2) {
        rx2.write_bytes(chunk);
        if rx2.data_len() < frame.len() {
            assert!(PwStreamer::read_packet(&mut rx2).unwrap().is_none());
        }
    }
    match PwStreamer::read_packet(&mut rx2).unwrap() {
        Some(ProtocolFrom1::Proto1(p)) => {
            assert_eq!((p.x, p.y, p.zzz), (5, 6, vec![1, 2, 3]));
        },
        None => panic!("expected the completed frame"),
    }
}

#[test]
fn memcached_set_then_get_roundtrip() {
    // the client's SET travels intact
    let set = McPacket::new_request_set(0, b"@@aaa.123".to_vec(), b"123a123".to_vec());
    let mut wire = Buffer::with_capacity(0);
    MemcachedStreamer::write_packet(&set, &mut wire).unwrap();
    let got = MemcachedStreamer::read_packet(&mut wire).unwrap().unwrap();
    assert_eq!(got, set);
    assert_eq!(got.header.opcode.0, PROTOCOL_BINARY_CMD_SET);
    assert_eq!(got.header.opaque, 0);
    assert_eq!(got.extras.len(), 8);

    // the GET and the server's response with the stored value
    let get = McPacket::new_request_get(1, b"@@aaa.123".to_vec());
    MemcachedStreamer::write_packet(&get, &mut wire).unwrap();
    let got = MemcachedStreamer::read_packet(&mut wire).unwrap().unwrap();
    assert_eq!(got.header.opcode.0, PROTOCOL_BINARY_CMD_GET);
    assert_eq!(got.header.opaque, 1);

    let mut resp = McPacket::new_request_get(1, Vec::new());
    resp.header.magic.0 = PROTOCOL_BINARY_RES;
    resp.header.status.0 = PROTOCOL_BINARY_RESPONSE_SUCCESS;
    resp.value = b"123a123".to_vec();
    resp.header.bodylen = resp.value.len() as u32;
    MemcachedStreamer::write_packet(&resp, &mut wire).unwrap();
    let got = MemcachedStreamer::read_packet(&mut wire).unwrap().unwrap();
    assert_eq!(got.header.status.0, 0);
    assert_eq!(got.value, b"123a123");
    assert!(MemcachedStreamer::read_packet(&mut wire).unwrap().is_none());
}

#[test]
fn memcached_partial_frames_wait() {
    let set = McPacket::new_request_set(7, b"k".to_vec(), b"v".to_vec());
    let mut whole = Buffer::with_capacity(0);
    MemcachedStreamer::write_packet(&set, &mut whole).unwrap();
    let bytes = whole.data_slice().to_vec();
    let mut rx = Buffer::with_capacity(0);
    // fewer than 24 bytes: no header yet
    rx.write_bytes(&bytes[..10]);
    assert!(MemcachedStreamer::read_packet(&mut rx).unwrap().is_none());
    assert_eq!(rx.data_len(), 10);
    // header complete but body short: still waiting
    rx.write_bytes(&bytes[10..30]);
    assert!(MemcachedStreamer::read_packet(&mut rx).unwrap().is_none());
    // the rest arrives: exactly one packet, exactly the frame consumed
    rx.write_bytes(&bytes[30..]);
    let got = MemcachedStreamer::read_packet(&mut rx).unwrap().unwrap();
    assert_eq!(got, set);
    assert_eq!(rx.data_len(), 0);
}

#[test]
fn memcached_overrunning_header_is_fatal() {
    // extras plus key longer than the body length: Err, nothing consumed
    let mut rx = Buffer::with_capacity(0);
    let mut head = Vec::new();
    head.extend_from_slice(&[0x80, 0x01]);
    head.extend_from_slice(&[0x00, 0x09]); // key length 9
    head.push(0x08); // extras length 8
    head.push(0x00);
    head.extend_from_slice(&[0x00, 0x00]);
    head.extend_from_slice(&[0x00, 0x00, 0x00, 0x02]); // body length 2
    head.extend_from_slice(&[0x00, 0x00, 0x00, 0x00]);
    head.extend_from_slice(&[0x00; 8]);
    head.extend_from_slice(&[0xaa, 0xbb]);
    rx.write_bytes(&head);
    assert!(MemcachedStreamer::read_packet(&mut rx).is_err());
    assert_eq!(rx.data_len(), head.len());
}

#[test]
fn wire_signed_roundtrip() {
    for v in [i32::MIN, -1, 0, 1, 880, i32::MAX] {
        let u = ds::wire::i32_to_u32(v);
        assert_eq!(ds::wire::u32_to_i32(u), v);
    }
    for v in [i64::MIN, -5, 0, 7, i64::MAX] {
        let u = ds::wire::i64_to_u64(v);
        assert_eq!(ds::wire::u64_to_i64(u), v);
    }
    let mut w = Vec::new();
    ds::wire::push_u32_be(&mut w, 0x0102_0304);
    assert_eq!(w, vec![1, 2, 3, 4]);
    assert_eq!(ds::wire::u32_from_be(1, 2, 3, 4), 0x0102_0304);
    assert_eq!(ds::wire::u64_from_be(0, 0, 0, 0, 0, 0, 1, 0), 256);
}
