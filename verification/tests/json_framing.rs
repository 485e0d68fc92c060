//! The JSON `[n]` framing: the header round trip, chunked arrival, and
//! opaque document bytes surviving the frame unchanged.

use ds::buffer::Buffer;
use ds::headbody::ServiceStreamer;
use ds::json::JsonStreamer;

#[test]
fn json_frame_roundtrip() {
    let doc = br#"{"answer": 42}"#.to_vec();
    let mut wire = Buffer::with_capacity(0);
    JsonStreamer::write_packet(&doc, &mut wire).unwrap();
    let framed = wire.data_slice().to_vec();
    assert_eq!(&framed[..4], b"[14]");
    assert_eq!(&framed[4..], &doc[..]);
    let got = JsonStreamer::read_packet(&mut wire).unwrap().unwrap();
    assert_eq!(got, doc);
    assert!(JsonStreamer::read_packet(&mut wire).unwrap().is_none());
}

#[test]
fn json_partial_header_waits() {
    let mut rx = Buffer::with_capacity(0);
    for piece in [&b"["[..], &b"1"[..], &b"2"[..]] {
        rx.write_bytes(piece);
        assert!(JsonStreamer::read_packet(&mut rx).unwrap().is_none());
    }
    rx.write_bytes(b"]");
    // header complete, body still missing
    assert!(JsonStreamer::read_packet(&mut rx).unwrap().is_none());
    rx.write_bytes(&[7u8; 8]);
    assert!(JsonStreamer::read_packet(&mut rx).unwrap().is_none());
    assert_eq!(rx.data_len(), 12);
    rx.write_bytes(&[7u8; 4]);
    let got = JsonStreamer::read_packet(&mut rx).unwrap().unwrap();
    assert_eq!(got, vec![7u8; 12]);
    assert_eq!(rx.data_len(), 0);
}

#[test]
fn json_zero_length_body() {
    let mut wire = Buffer::with_capacity(0);
    JsonStreamer::write_packet(&Vec::new(), &mut wire).unwrap();
    assert_eq!(wire.data_slice(), b"[0]");
    let got = JsonStreamer::read_packet(&mut wire).unwrap().unwrap();
    assert!(got.is_empty());
}
