//! The memcached binary protocol: a 24-byte fixed header followed by
//! `extras || key || value`, with all lengths carried big-endian in the
//! header. Framing needs only the header: once 24 bytes are buffered the
//! total frame length is known.

use vstd::prelude::*;
use vstd::slice::{slice_subrange, slice_to_vec};
use crate::buffer::Buffer;
use crate::headbody::{Framing, ServiceStreamer};
use crate::wire::{
    be16, be16_val, be32, be32_at, be64, be64_val, push_u16_be, push_u32_be, push_u64_be,
    u16_from_be, u32_from_be, u64_from_be,
};

verus! {

/// Which side of the conversation a packet belongs to.
#[derive(Clone, Copy, Debug, PartialEq, Eq, Structural)]
pub struct Magic(pub u8);

pub const PROTOCOL_BINARY_REQ: u8 = 0x80;

pub const PROTOCOL_BINARY_RES: u8 = 0x81;

/// Outcome code of a response.
#[derive(Clone, Copy, Debug, PartialEq, Eq, Structural)]
pub struct ResponseStatus(pub u16);

pub const PROTOCOL_BINARY_RESPONSE_SUCCESS: u16 = 0x00;

pub const PROTOCOL_BINARY_RESPONSE_KEY_ENOENT: u16 = 0x01;

pub const PROTOCOL_BINARY_RESPONSE_KEY_EEXISTS: u16 = 0x02;

pub const PROTOCOL_BINARY_RESPONSE_E2BIG: u16 = 0x03;

pub const PROTOCOL_BINARY_RESPONSE_EINVAL: u16 = 0x04;

pub const PROTOCOL_BINARY_RESPONSE_NOT_STORED: u16 = 0x05;

pub const PROTOCOL_BINARY_RESPONSE_DELTA_BADVAL: u16 = 0x06;

pub const PROTOCOL_BINARY_RESPONSE_NOT_MY_VBUCKET: u16 = 0x07;

pub const PROTOCOL_BINARY_RESPONSE_AUTH_ERROR: u16 = 0x20;

pub const PROTOCOL_BINARY_RESPONSE_AUTH_CONTINUE: u16 = 0x21;

pub const PROTOCOL_BINARY_RESPONSE_UNKNOWN_COMMAND: u16 = 0x81;

pub const PROTOCOL_BINARY_RESPONSE_ENOMEM: u16 = 0x82;

pub const PROTOCOL_BINARY_RESPONSE_NOT_SUPPORTED: u16 = 0x83;

pub const PROTOCOL_BINARY_RESPONSE_EINTERNAL: u16 = 0x84;

pub const PROTOCOL_BINARY_RESPONSE_EBUSY: u16 = 0x85;

pub const PROTOCOL_BINARY_RESPONSE_ETMPFAIL: u16 = 0x86;

/// Command number of a request or response.
#[derive(Clone, Copy, Debug, PartialEq, Eq, Structural)]
pub struct Opcode(pub u8);

pub const PROTOCOL_BINARY_CMD_GET: u8 = 0x00;

pub const PROTOCOL_BINARY_CMD_SET: u8 = 0x01;

pub const PROTOCOL_BINARY_CMD_ADD: u8 = 0x02;

pub const PROTOCOL_BINARY_CMD_REPLACE: u8 = 0x03;

pub const PROTOCOL_BINARY_CMD_DELETE: u8 = 0x04;

pub const PROTOCOL_BINARY_CMD_INCREMENT: u8 = 0x05;

pub const PROTOCOL_BINARY_CMD_DECREMENT: u8 = 0x06;

pub const PROTOCOL_BINARY_CMD_QUIT: u8 = 0x07;

pub const PROTOCOL_BINARY_CMD_FLUSH: u8 = 0x08;

pub const PROTOCOL_BINARY_CMD_GETQ: u8 = 0x09;

pub const PROTOCOL_BINARY_CMD_NOOP: u8 = 0x0a;

pub const PROTOCOL_BINARY_CMD_VERSION: u8 = 0x0b;

pub const PROTOCOL_BINARY_CMD_GETK: u8 = 0x0c;

pub const PROTOCOL_BINARY_CMD_GETKQ: u8 = 0x0d;

pub const PROTOCOL_BINARY_CMD_APPEND: u8 = 0x0e;

pub const PROTOCOL_BINARY_CMD_PREPEND: u8 = 0x0f;

pub const PROTOCOL_BINARY_CMD_STAT: u8 = 0x10;

pub const PROTOCOL_BINARY_CMD_SETQ: u8 = 0x11;

pub const PROTOCOL_BINARY_CMD_ADDQ: u8 = 0x12;

pub const PROTOCOL_BINARY_CMD_REPLACEQ: u8 = 0x13;

pub const PROTOCOL_BINARY_CMD_DELETEQ: u8 = 0x14;

pub const PROTOCOL_BINARY_CMD_INCREMENTQ: u8 = 0x15;

pub const PROTOCOL_BINARY_CMD_DECREMENTQ: u8 = 0x16;

pub const PROTOCOL_BINARY_CMD_QUITQ: u8 = 0x17;

pub const PROTOCOL_BINARY_CMD_FLUSHQ: u8 = 0x18;

pub const PROTOCOL_BINARY_CMD_APPENDQ: u8 = 0x19;

pub const PROTOCOL_BINARY_CMD_PREPENDQ: u8 = 0x1a;

pub const PROTOCOL_BINARY_CMD_VERBOSITY: u8 = 0x1b;

pub const PROTOCOL_BINARY_CMD_TOUCH: u8 = 0x1c;

pub const PROTOCOL_BINARY_CMD_GAT: u8 = 0x1d;

pub const PROTOCOL_BINARY_CMD_GATQ: u8 = 0x1e;

pub const PROTOCOL_BINARY_CMD_GATK: u8 = 0x23;

pub const PROTOCOL_BINARY_CMD_GATKQ: u8 = 0x24;

pub const PROTOCOL_BINARY_CMD_SASL_LIST_MECHS: u8 = 0x20;

pub const PROTOCOL_BINARY_CMD_SASL_AUTH: u8 = 0x21;

pub const PROTOCOL_BINARY_CMD_SASL_STEP: u8 = 0x22;

pub const PROTOCOL_BINARY_CMD_RGET: u8 = 0x30;

pub const PROTOCOL_BINARY_CMD_RSET: u8 = 0x31;

pub const PROTOCOL_BINARY_CMD_RSETQ: u8 = 0x32;

pub const PROTOCOL_BINARY_CMD_RAPPEND: u8 = 0x33;

pub const PROTOCOL_BINARY_CMD_RAPPENDQ: u8 = 0x34;

pub const PROTOCOL_BINARY_CMD_RPREPEND: u8 = 0x35;

pub const PROTOCOL_BINARY_CMD_RPREPENDQ: u8 = 0x36;

pub const PROTOCOL_BINARY_CMD_RDELETE: u8 = 0x37;

pub const PROTOCOL_BINARY_CMD_RDELETEQ: u8 = 0x38;

pub const PROTOCOL_BINARY_CMD_RINCR: u8 = 0x39;

pub const PROTOCOL_BINARY_CMD_RINCRQ: u8 = 0x3a;

pub const PROTOCOL_BINARY_CMD_RDECR: u8 = 0x3b;

pub const PROTOCOL_BINARY_CMD_RDECRQ: u8 = 0x3c;

pub const PROTOCOL_BINARY_CMD_SET_VBUCKET: u8 = 0x3d;

pub const PROTOCOL_BINARY_CMD_GET_VBUCKET: u8 = 0x3e;

pub const PROTOCOL_BINARY_CMD_DEL_VBUCKET: u8 = 0x3f;

pub const PROTOCOL_BINARY_CMD_TAP_CONNECT: u8 = 0x40;

pub const PROTOCOL_BINARY_CMD_TAP_MUTATION: u8 = 0x41;

pub const PROTOCOL_BINARY_CMD_TAP_DELETE: u8 = 0x42;

pub const PROTOCOL_BINARY_CMD_TAP_FLUSH: u8 = 0x43;

pub const PROTOCOL_BINARY_CMD_TAP_OPAQUE: u8 = 0x44;

pub const PROTOCOL_BINARY_CMD_TAP_VBUCKET_SET: u8 = 0x45;

pub const PROTOCOL_BINARY_CMD_TAP_CHECKPOINT_START: u8 = 0x46;

pub const PROTOCOL_BINARY_CMD_TAP_CHECKPOINT_END: u8 = 0x47;

pub const PROTOCOL_BINARY_CMD_LAST_RESERVED: u8 = 0xef;

pub const PROTOCOL_BINARY_CMD_SCRUB: u8 = 0xf0;

/// Payload interpretation; only raw bytes are defined.
#[derive(Clone, Copy, Debug, PartialEq, Eq, Structural)]
pub struct DataType(pub u8);

pub const PROTOCOL_BINARY_RAW_BYTES: u8 = 0x00;

/// Bytes of the fixed header.
pub const HEADER_SIZE: usize = 24;

/// The fixed 24-byte packet header.
#[derive(Clone, Copy, Debug, PartialEq, Eq, Structural)]
pub struct Header {
    pub magic: Magic,
    pub opcode: Opcode,
    pub keylen: u16,
    pub extlen: u8,
    pub datatype: DataType,
    pub status: ResponseStatus,
    pub bodylen: u32,
    pub opaque: u32,
    pub cas: u64,
}

/// One protocol packet: header plus its three body sections.
#[derive(Clone, Debug)]
pub struct Packet {
    pub header: Header,
    pub extras: Vec<u8>,
    pub key: Vec<u8>,
    pub value: Vec<u8>,
}

/// The mathematical shadow of a [`Packet`]: header plus byte sequences.
pub struct PacketModel {
    pub header: Header,
    pub extras: Seq<u8>,
    pub key: Seq<u8>,
    pub value: Seq<u8>,
}

impl View for Packet {
    type V = PacketModel;

    open spec fn view(&self) -> PacketModel {
        PacketModel { header: self.header, extras: self.extras@, key: self.key@, value: self.value@ }
    }
}

impl PartialEq for Packet {
    fn eq(&self, other: &Packet) -> (r: bool) {
        let r = self.header == other.header && self.extras == other.extras && self.key == other.key
            && self.value == other.value;
        proof {
            if self.extras@.len() == other.extras@.len() && (forall|i: int|
                #![auto]
                0 <= i < self.extras@.len() ==> self.extras@[i] == other.extras@[i]) {
                assert(self.extras@ =~= other.extras@);
            }
            if self.key@.len() == other.key@.len() && (forall|i: int|
                #![auto]
                0 <= i < self.key@.len() ==> self.key@[i] == other.key@[i]) {
                assert(self.key@ =~= other.key@);
            }
            if self.value@.len() == other.value@.len() && (forall|i: int|
                #![auto]
                0 <= i < self.value@.len() ==> self.value@[i] == other.value@[i]) {
                assert(self.value@ =~= other.value@);
            }
        }
        r
    }
}

impl vstd::std_specs::cmp::PartialEqSpecImpl for Packet {
    open spec fn obeys_eq_spec() -> bool {
        true
    }

    open spec fn eq_spec(&self, other: &Packet) -> bool {
        self.header == other.header && self.extras@ == other.extras@ && self.key@ == other.key@
            && self.value@ == other.value@
    }
}

/// A header whose length fields agree with the body sections.
pub open spec fn wf_packet(m: PacketModel) -> bool {
    &&& m.header.keylen == m.key.len()
    &&& m.header.extlen == m.extras.len()
    &&& m.header.bodylen == m.extras.len() + m.key.len() + m.value.len()
    &&& m.key.len() <= u16::MAX
    &&& m.extras.len() <= u8::MAX
    &&& m.extras.len() + m.key.len() + m.value.len() <= u32::MAX
    &&& 24 + m.extras.len() + m.key.len() + m.value.len() <= usize::MAX
}

/// The 24 header bytes the encoder emits for `m`: the length fields are
/// derived from the body sections themselves.
pub open spec fn spec_header_bytes(m: PacketModel) -> Seq<u8> {
    seq![m.header.magic.0, m.header.opcode.0] + be16(m.key.len() as u16) + seq![
        m.extras.len() as u8,
        m.header.datatype.0,
    ] + be16(m.header.status.0) + be32((m.extras.len() + m.key.len() + m.value.len()) as u32)
        + be32(m.header.opaque) + be64(m.header.cas)
}

/// The full wire encoding of `m`.
pub open spec fn spec_write_packet(m: PacketModel) -> Seq<u8> {
    spec_header_bytes(m) + m.extras + m.key + m.value
}

/// The header read back from the first 24 bytes of `s`.
pub open spec fn spec_parse_header(s: Seq<u8>) -> Header
    recommends
        s.len() >= 24,
{
    Header {
        magic: Magic(s[0]),
        opcode: Opcode(s[1]),
        keylen: be16_val(s[2], s[3]),
        extlen: s[4],
        datatype: DataType(s[5]),
        status: ResponseStatus(be16_val(s[6], s[7])),
        bodylen: be32_at(s, 8),
        opaque: be32_at(s, 12),
        cas: be64_val(s[16], s[17], s[18], s[19], s[20], s[21], s[22], s[23]),
    }
}

/// The packet read back from one full frame at the front of `s`.
pub open spec fn spec_parse_packet(s: Seq<u8>) -> PacketModel
    recommends
        s.len() >= 24 + be32_at(s, 8),
        s[4] + be16_val(s[2], s[3]) <= be32_at(s, 8),
{
    let h = spec_parse_header(s);
    let extend = 24 + h.extlen as int;
    let keyend = extend + h.keylen as int;
    let valueend = 24 + h.bodylen as int;
    PacketModel {
        header: h,
        extras: s.subrange(24, extend),
        key: s.subrange(extend, keyend),
        value: s.subrange(keyend, valueend),
    }
}

/// What can go wrong while encoding or decoding: `IoError` stands for the
/// transport failing mid-frame, `WrongLen` for a header whose extras and
/// key overrun its body length.
#[derive(Clone, Copy, Debug, PartialEq, Eq, Structural)]
pub enum Error {
    IoError,
    WrongLen,
}

impl Header {
    /// A request header for `opcode` whose length fields describe a body
    /// of `extlen` extras bytes, `keylen` key bytes and `valuelen` value
    /// bytes.
    pub fn new_request(opcode: Opcode, opaque: u32, extlen: usize, keylen: usize, valuelen: usize)
        -> (r: Header)
        requires
            keylen <= u16::MAX,
            extlen <= u8::MAX,
            extlen + keylen + valuelen <= u32::MAX,
        ensures
            r == (Header {
                magic: Magic(PROTOCOL_BINARY_REQ),
                opcode: opcode,
                keylen: keylen as u16,
                extlen: extlen as u8,
                datatype: DataType(PROTOCOL_BINARY_RAW_BYTES),
                status: ResponseStatus(PROTOCOL_BINARY_RESPONSE_SUCCESS),
                bodylen: (extlen + keylen + valuelen) as u32,
                opaque: opaque,
                cas: 0,
            }),
    {
        Header {
            magic: Magic(PROTOCOL_BINARY_REQ),
            opcode: opcode,
            keylen: keylen as u16,
            extlen: extlen as u8,
            datatype: DataType(PROTOCOL_BINARY_RAW_BYTES),
            status: ResponseStatus(PROTOCOL_BINARY_RESPONSE_SUCCESS),
            bodylen: ((extlen + keylen) + valuelen) as u32,
            opaque: opaque,
            cas: 0,
        }
    }
}

impl Packet {
    /// A GET request for `key`.
    pub fn new_request_get(opaque: u32, key: Vec<u8>) -> (r: Packet)
        requires
            key@.len() <= u16::MAX,
        ensures
            wf_packet(r@),
            r.header.opcode.0 == PROTOCOL_BINARY_CMD_GET,
            r.header.opaque == opaque,
            r@.key == key@,
            r@.extras == Seq::<u8>::empty(),
            r@.value == Seq::<u8>::empty(),
    {
        let klen: usize = key.len();
        let r = Packet {
            header: Header::new_request(Opcode(PROTOCOL_BINARY_CMD_GET), opaque, 0, klen, 0),
            extras: Vec::new(),
            key: key,
            value: Vec::new(),
        };
        r
    }

    /// A SET request storing `value` under `key`, with the standard
    /// 8 bytes of zeroed flags/expiry extras.
    pub fn new_request_set(opaque: u32, key: Vec<u8>, value: Vec<u8>) -> (r: Packet)
        requires
            key@.len() <= u16::MAX,
            key@.len() + value@.len() + 8 <= u32::MAX,
            key@.len() + value@.len() + 32 <= usize::MAX,
        ensures
            wf_packet(r@),
            r.header.opcode.0 == PROTOCOL_BINARY_CMD_SET,
            r.header.opaque == opaque,
            r@.key == key@,
            r@.extras =~= seq![0u8, 0, 0, 0, 0, 0, 0, 0],
            r@.value == value@,
    {
        let klen: usize = key.len();
        let vlen: usize = value.len();
        let mut extras: Vec<u8> = Vec::new();
        let mut i: usize = 0;
        while i < 8
            invariant
                i <= 8,
                extras@.len() == i,
                forall|j: int| 0 <= j < i ==> extras@[j] == 0u8,
            decreases 8 - i,
        {
            extras.push(0);
            i += 1;
        }
        let r = Packet {
            header: Header::new_request(Opcode(PROTOCOL_BINARY_CMD_SET), opaque, 8, klen, vlen),
            extras: extras,
            key: key,
            value: value,
        };
        r
    }
}

/// The memcached framing and serialization, on whole buffers.
pub struct MemcachedStreamer;

impl MemcachedStreamer {
    /// Append the full wire encoding of `packet` to `writer`.
    pub fn write_packet(packet: &Packet, writer: &mut Buffer) -> (r: Result<(), Error>)
        requires
            old(writer).wf(),
            packet.key@.len() <= u16::MAX,
            packet.extras@.len() <= u8::MAX,
            packet.extras@.len() + packet.key@.len() + packet.value@.len() <= u32::MAX,
            old(writer)@.len() + 24 + packet.extras@.len() + packet.key@.len()
                + packet.value@.len() <= usize::MAX,
        ensures
            final(writer).wf(),
            final(writer)@ == old(writer)@ + spec_write_packet(packet@),
            r is Ok,
    {
        let mut head: Vec<u8> = Vec::new();
        head.push(packet.header.magic.0);
        head.push(packet.header.opcode.0);
        push_u16_be(&mut head, packet.key.len() as u16);
        head.push(packet.extras.len() as u8);
        head.push(packet.header.datatype.0);
        push_u16_be(&mut head, packet.header.status.0);
        let bodylen: usize = packet.extras.len() + packet.key.len() + packet.value.len();
        push_u32_be(&mut head, bodylen as u32);
        push_u32_be(&mut head, packet.header.opaque);
        push_u64_be(&mut head, packet.header.cas);
        proof {
            assert(head@ =~= spec_header_bytes(packet@));
        }
        writer.write_bytes(head.as_slice());
        writer.write_bytes(packet.extras.as_slice());
        writer.write_bytes(packet.key.as_slice());
        writer.write_bytes(packet.value.as_slice());
        proof {
            assert(final(writer)@ =~= old(writer)@ + spec_write_packet(packet@));
        }
        Ok(())
    }

    /// Take one full frame off the front of `reader`, if one is complete.
    ///
    /// Fewer than 24 buffered bytes, or fewer than the header's full frame
    /// length, leave the buffer untouched and yield `Ok(None)`. A header
    /// whose extras and key overrun its body length yields `Err(WrongLen)`
    /// and also consumes nothing. Otherwise exactly the frame is consumed
    /// and the packet read from it is returned.
    pub fn read_packet(reader: &mut Buffer) -> (r: Result<Option<Packet>, Error>)
        requires
            old(reader).wf(),
        ensures
            final(reader).wf(),
            ({
                let s = old(reader)@;
                if s.len() < 24 {
                    r == Ok::<Option<Packet>, Error>(None) && final(reader)@ == s
                } else if s.len() < 24 + be32_at(s, 8) {
                    r == Ok::<Option<Packet>, Error>(None) && final(reader)@ == s
                } else if s[4] + be16_val(s[2], s[3]) > be32_at(s, 8) {
                    r == Err::<Option<Packet>, Error>(Error::WrongLen) && final(reader)@ == s
                } else {
                    &&& r is Ok
                    &&& (r matches Ok(o) ==> o is Some)
                    &&& (r matches Ok(Some(p)) ==> p@ == spec_parse_packet(s))
                    &&& final(reader)@ == s.skip(24 + be32_at(s, 8) as int)
                }
            }),
    {
        let buflen: usize = reader.data_len();
        if buflen < 24 {
            return Ok(None);
        }
        let total: usize;
        let p: Packet;
        {
            let buf: &[u8] = reader.data_slice();
            let bodylen: u32 = u32_from_be(buf[8], buf[9], buf[10], buf[11]);
            if (buflen as u64) < 24u64 + bodylen as u64 {
                return Ok(None);
            }
            let magic: u8 = buf[0];
            let opcode: u8 = buf[1];
            let keylen: u16 = u16_from_be(buf[2], buf[3]);
            let extlen: u8 = buf[4];
            let datatype: u8 = buf[5];
            let status: u16 = u16_from_be(buf[6], buf[7]);
            let opaque: u32 = u32_from_be(buf[12], buf[13], buf[14], buf[15]);
            let cas: u64 = u64_from_be(
                buf[16],
                buf[17],
                buf[18],
                buf[19],
                buf[20],
                buf[21],
                buf[22],
                buf[23],
            );
            if (extlen as u32) + (keylen as u32) > bodylen {
                return Err(Error::WrongLen);
            }
            let extend: usize = 24 + extlen as usize;
            let keyend: usize = extend + keylen as usize;
            let valueend: usize = 24 + bodylen as usize;
            let ext: Vec<u8> = slice_to_vec(slice_subrange(buf, 24, extend));
            let key: Vec<u8> = slice_to_vec(slice_subrange(buf, extend, keyend));
            let value: Vec<u8> = slice_to_vec(slice_subrange(buf, keyend, valueend));
            total = valueend;
            p = Packet {
                header: Header {
                    magic: Magic(magic),
                    opcode: Opcode(opcode),
                    keylen: keylen,
                    extlen: extlen,
                    datatype: DataType(datatype),
                    status: ResponseStatus(status),
                    bodylen: bodylen,
                    opaque: opaque,
                    cas: cas,
                },
                extras: ext,
                key: key,
                value: value,
            };
        }
        reader.consume(total);
        Ok(Some(p))
    }
}

impl ServiceStreamer for MemcachedStreamer {
    type Packet = Packet;

    type Error = Error;

    open spec fn spec_wf_packet(m: PacketModel) -> bool {
        wf_packet(m)
    }

    open spec fn spec_encode(m: PacketModel) -> Seq<u8> {
        spec_write_packet(m)
    }

    open spec fn spec_framing(s: Seq<u8>) -> Framing {
        if s.len() < 24 {
            Framing::Incomplete
        } else if s.len() < 24 + be32_at(s, 8) || 24 + be32_at(s, 8) > usize::MAX {
            Framing::Incomplete
        } else if s[4] + be16_val(s[2], s[3]) > be32_at(s, 8) {
            Framing::Bad
        } else {
            Framing::Frame((24 + be32_at(s, 8)) as usize)
        }
    }

    open spec fn spec_parse(s: Seq<u8>) -> PacketModel {
        spec_parse_packet(s)
    }

    proof fn lemma_framing_stable(s: Seq<u8>, t: Seq<u8>) {
        if s.len() >= 24 {
            let u = s + t;
            assert(forall|i: int| 0 <= i < s.len() ==> u[i] == s[i]);
            assert(be32_at(u, 8) == be32_at(s, 8));
            assert(be16_val(u[2], u[3]) == be16_val(s[2], s[3]));
            if Self::spec_framing(s) is Frame {
                let h = spec_parse_header(s);
                assert(be32_at(u, 12) == be32_at(s, 12));
                assert(spec_parse_header(u) == h);
                let extend = 24 + h.extlen as int;
                let keyend = extend + h.keylen as int;
                let valueend = 24 + h.bodylen as int;
                assert(u.subrange(24, extend) =~= s.subrange(24, extend));
                assert(u.subrange(extend, keyend) =~= s.subrange(extend, keyend));
                assert(u.subrange(keyend, valueend) =~= s.subrange(keyend, valueend));
            }
        }
    }

    proof fn lemma_frame_bounds(s: Seq<u8>) {
    }

    proof fn lemma_encode_roundtrip(m: PacketModel, rest: Seq<u8>) {
        lemma_packet_roundtrip(m, rest);
    }

    fn write_packet(packet: &Packet, writer: &mut Buffer) -> (r: Result<(), Error>) {
        MemcachedStreamer::write_packet(packet, writer)
    }

    fn read_packet(reader: &mut Buffer) -> (r: Result<Option<Packet>, Error>) {
        let r = MemcachedStreamer::read_packet(reader);
        proof {
            let s = old(reader)@;
            if s.len() >= 24 && s.len() >= 24 + be32_at(s, 8) && s[4] + be16_val(s[2], s[3])
                <= be32_at(s, 8) {
                let h = spec_parse_header(s);
                let p = spec_parse_packet(s);
                assert(s.len() == old(reader).write - old(reader).read);
                assert(s.len() <= usize::MAX);
                assert(wf_packet(p)) by {
                    assert(p.extras.len() == h.extlen);
                    assert(p.key.len() == h.keylen);
                    assert(p.value.len() == h.bodylen - h.extlen - h.keylen);
                    assert(24 + h.bodylen <= s.len() <= usize::MAX);
                }
            }
        }
        r
    }
}

/// Reading back what was written gives the packet back: for a well-formed
/// packet, one frame plus any trailing bytes parses to the same model, and
/// the frame is exactly `24 + bodylen` bytes long.
pub proof fn lemma_packet_roundtrip(m: PacketModel, rest: Seq<u8>)
    requires
        wf_packet(m),
    ensures
        ({
            let s = spec_write_packet(m) + rest;
            &&& spec_write_packet(m).len() == 24 + m.header.bodylen
            &&& s.len() >= 24 + be32_at(s, 8)
            &&& be32_at(s, 8) == m.header.bodylen
            &&& s[4] + be16_val(s[2], s[3]) <= be32_at(s, 8)
            &&& spec_parse_packet(s) == m
        }),
{
    let h = spec_header_bytes(m);
    let s = spec_write_packet(m) + rest;
    let klen = m.key.len() as u16;
    let blen = (m.extras.len() + m.key.len() + m.value.len()) as u32;
    crate::wire::lemma_be16_roundtrip(klen);
    crate::wire::lemma_be16_roundtrip(m.header.status.0);
    crate::wire::lemma_be32_roundtrip(blen);
    crate::wire::lemma_be32_roundtrip(m.header.opaque);
    crate::wire::lemma_be64_roundtrip(m.header.cas);
    assert(h.len() == 24);
    assert(s[0] == m.header.magic.0);
    assert(s[1] == m.header.opcode.0);
    assert(s[2] == be16(klen)[0] && s[3] == be16(klen)[1]);
    assert(s[4] == m.extras.len() as u8);
    assert(s[5] == m.header.datatype.0);
    assert(s[6] == be16(m.header.status.0)[0] && s[7] == be16(m.header.status.0)[1]);
    assert(s[8] == be32(blen)[0] && s[9] == be32(blen)[1] && s[10] == be32(blen)[2] && s[11]
        == be32(blen)[3]);
    assert(s[12] == be32(m.header.opaque)[0] && s[13] == be32(m.header.opaque)[1] && s[14] == be32(
        m.header.opaque,
    )[2] && s[15] == be32(m.header.opaque)[3]);
    assert(forall|i: int| 0 <= i < 8 ==> s[16 + i] == be64(m.header.cas)[i]);
    assert(be16_val(s[2], s[3]) == klen);
    assert(be16_val(s[6], s[7]) == m.header.status.0);
    assert(be32_at(s, 8) == blen);
    assert(be32_at(s, 12) == m.header.opaque);
    assert(be64_val(s[16], s[17], s[18], s[19], s[20], s[21], s[22], s[23]) == m.header.cas);
    assert(spec_parse_header(s) == m.header);
    let extend = 24 + m.extras.len() as int;
    let keyend = extend + m.key.len() as int;
    let valueend = 24 + blen as int;
    assert(s.subrange(24, extend) =~= m.extras);
    assert(s.subrange(extend, keyend) =~= m.key);
    assert(s.subrange(keyend, valueend) =~= m.value);
}

} // verus!
