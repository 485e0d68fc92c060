//! The length-prefixed tagged wire format ("pw"): a compact variable-length
//! unsigned 32-bit integer encoding used for tags, lengths and counts, plus
//! flat big-endian primitives for everything else.
//!
//! Tagged sums whose type name matches `ProtocolFrom<number>` add that
//! number to the variant index, and wrap the variant payload as a
//! length-prefixed byte blob; this partitions one tag space across several
//! logical protocols on the same connection.

use vstd::prelude::*;
use vstd::string::StringSliceAdditionalSpecFns;
use crate::buffer::Buffer;
use crate::events::TransportError;
use crate::headbody::{BodyStreamer, ErrorMapper, Framing, HeadStreamer, ServiceStreamer, StreamerImpl};
use crate::wire::{
    be16, be16_val, be32, be32_at, be32_val, be64, be64_val, bool_byte, i16_as_u16, i32_as_u32,
    i64_as_u64, i8_as_u8, i16_to_u16, i32_to_u32, i64_to_u64, i8_to_u8, push_u16_be, push_u32_be,
    push_u64_be, u16_from_be, u32_from_be, u64_from_be,
};

verus! {

/// What can go wrong while encoding or decoding.
///
/// `IoError` stands for running out of input bytes (the only I/O failure a
/// byte-slice reader can see); `SerdeError` is a malformed value, such as an
/// option marker that is neither 0 nor 1.
#[derive(Clone, Copy, Debug, PartialEq, Eq, Structural)]
pub enum Error {
    IoError,
    SerdeError,
}

/// The compact encoding of `v`: 1 byte below 0x80, 2 bytes with the top bit
/// set below 0x4000, 4 bytes with the top two bits set below 0x20000000,
/// else a 0xE0 marker byte followed by the 4 plain big-endian bytes.
pub open spec fn compact_u32_bytes(v: u32) -> Seq<u8> {
    if v < 0x80 {
        seq![v as u8]
    } else if v < 0x4000 {
        be16((v + 0x8000) as u16)
    } else if v < 0x2000_0000 {
        be32((v + 0xC000_0000) as u32)
    } else {
        seq![0xe0u8] + be32(v)
    }
}

/// How many bytes `compact_u32_bytes(v)` takes.
pub open spec fn compact_u32_len(v: u32) -> int {
    if v < 0x80 {
        1
    } else if v < 0x4000 {
        2
    } else if v < 0x2000_0000 {
        4
    } else {
        5
    }
}

/// Decode a compact integer from the front of `s`: the value and the number
/// of bytes it took, or `None` when `s` is too short to decide.
pub open spec fn parse_compact_u32(s: Seq<u8>) -> Option<(u32, int)> {
    if s.len() < 1 {
        None
    } else if s[0] >= 0xe0 {
        if s.len() < 5 {
            None
        } else {
            Some((be32_at(s, 1), 5))
        }
    } else if s[0] >= 0xc0 {
        if s.len() < 4 {
            None
        } else {
            Some(((be32_val(s[0], s[1], s[2], s[3]) - 0xC000_0000) as u32, 4))
        }
    } else if s[0] >= 0x80 {
        if s.len() < 2 {
            None
        } else {
            Some(((be16_val(s[0], s[1]) - 0x8000) as u32, 2))
        }
    } else {
        Some((s[0] as u32, 1))
    }
}

/// Decoding the compact bytes of `v` gives `v` back, whatever follows them.
pub proof fn lemma_compact_u32_roundtrip(v: u32, rest: Seq<u8>)
    ensures
        parse_compact_u32(compact_u32_bytes(v) + rest) == Some((v, compact_u32_len(v))),
{
    let s = compact_u32_bytes(v) + rest;
    if v < 0x80 {
        assert(s[0] == v as u8);
    } else if v < 0x4000 {
        crate::wire::lemma_be16_roundtrip((v + 0x8000) as u16);
        assert(s[0] == be16((v + 0x8000) as u16)[0]);
        assert(s[1] == be16((v + 0x8000) as u16)[1]);
        assert(0x80 <= s[0] < 0xc0);
    } else if v < 0x2000_0000 {
        crate::wire::lemma_be32_roundtrip((v + 0xC000_0000) as u32);
        let e = be32((v + 0xC000_0000) as u32);
        assert(s[0] == e[0] && s[1] == e[1] && s[2] == e[2] && s[3] == e[3]);
        assert(0xc0 <= s[0] < 0xe0);
    } else {
        crate::wire::lemma_be32_roundtrip(v);
        let e = be32(v);
        assert(s[0] == 0xe0);
        assert(s[1] == e[0] && s[2] == e[1] && s[3] == e[2] && s[4] == e[3]);
        assert(be32_at(s, 1) == be32_val(e[0], e[1], e[2], e[3]));
    }
}

/// Writes pw-encoded values onto a growing byte vector.
///
/// The view `self@` is the bytes written so far. Every method appends the
/// encoding its specification function describes and returns `Ok`.
pub struct Serializer {
    pub writer: Vec<u8>,
}

impl View for Serializer {
    type V = Seq<u8>;

    open spec fn view(&self) -> Seq<u8> {
        self.writer@
    }
}

impl Serializer {
    /// Wrap an output vector; encoded bytes are appended to it.
    pub fn new(w: Vec<u8>) -> (r: Serializer)
        ensures
            r@ == w@,
    {
        Serializer { writer: w }
    }

    /// Hand back the bytes written so far.
    pub fn into_inner(self) -> (r: Vec<u8>)
        ensures
            r@ == self@,
    {
        self.writer
    }

    /// Append the compact encoding of `value`.
    pub fn compact_u32(&mut self, value: u32) -> (r: Result<(), Error>)
        ensures
            final(self)@ == old(self)@ + compact_u32_bytes(value),
            r is Ok,
    {
        if value < 0x80 {
            self.writer.push(value as u8);
            proof {
                assert(self@ =~= old(self)@ + compact_u32_bytes(value));
            }
        } else if value < 0x4000 {
            push_u16_be(&mut self.writer, (value + 0x8000) as u16);
        } else if value < 0x2000_0000 {
            push_u32_be(&mut self.writer, value + 0xC000_0000);
        } else {
            self.writer.push(0xe0);
            push_u32_be(&mut self.writer, value);
            proof {
                assert(self@ =~= old(self)@ + compact_u32_bytes(value));
            }
        }
        Ok(())
    }

    /// Append one byte: 1 for true, 0 for false.
    pub fn serialize_bool(&mut self, value: bool) -> (r: Result<(), Error>)
        ensures
            final(self)@ == old(self)@.push(bool_byte(value)),
            r is Ok,
    {
        self.serialize_u8(if value { 1 } else { 0 })
    }

    /// Append the byte itself.
    pub fn serialize_u8(&mut self, value: u8) -> (r: Result<(), Error>)
        ensures
            final(self)@ == old(self)@.push(value),
            r is Ok,
    {
        self.writer.push(value);
        Ok(())
    }

    /// Append two big-endian bytes.
    pub fn serialize_u16(&mut self, value: u16) -> (r: Result<(), Error>)
        ensures
            final(self)@ == old(self)@ + be16(value),
            r is Ok,
    {
        push_u16_be(&mut self.writer, value);
        Ok(())
    }

    /// Append four big-endian bytes.
    pub fn serialize_u32(&mut self, value: u32) -> (r: Result<(), Error>)
        ensures
            final(self)@ == old(self)@ + be32(value),
            r is Ok,
    {
        push_u32_be(&mut self.writer, value);
        Ok(())
    }

    /// Append eight big-endian bytes.
    pub fn serialize_u64(&mut self, value: u64) -> (r: Result<(), Error>)
        ensures
            final(self)@ == old(self)@ + be64(value),
            r is Ok,
    {
        push_u64_be(&mut self.writer, value);
        Ok(())
    }

    /// A `usize` travels as a plain big-endian `u32`.
    pub fn serialize_usize(&mut self, value: usize) -> (r: Result<(), Error>)
        requires
            value <= u32::MAX,
        ensures
            final(self)@ == old(self)@ + be32(value as u32),
            r is Ok,
    {
        self.serialize_u32(value as u32)
    }

    /// Append the two's-complement byte.
    pub fn serialize_i8(&mut self, value: i8) -> (r: Result<(), Error>)
        ensures
            final(self)@ == old(self)@.push(i8_as_u8(value)),
            r is Ok,
    {
        self.serialize_u8(i8_to_u8(value))
    }

    /// Append two big-endian two's-complement bytes.
    pub fn serialize_i16(&mut self, value: i16) -> (r: Result<(), Error>)
        ensures
            final(self)@ == old(self)@ + be16(i16_as_u16(value)),
            r is Ok,
    {
        self.serialize_u16(i16_to_u16(value))
    }

    /// Append four big-endian two's-complement bytes.
    pub fn serialize_i32(&mut self, value: i32) -> (r: Result<(), Error>)
        ensures
            final(self)@ == old(self)@ + be32(i32_as_u32(value)),
            r is Ok,
    {
        self.serialize_u32(i32_to_u32(value))
    }

    /// Append eight big-endian two's-complement bytes.
    pub fn serialize_i64(&mut self, value: i64) -> (r: Result<(), Error>)
        ensures
            final(self)@ == old(self)@ + be64(i64_as_u64(value)),
            r is Ok,
    {
        self.serialize_u64(i64_to_u64(value))
    }

    /// An `isize` travels as a big-endian `i32`.
    pub fn serialize_isize(&mut self, value: isize) -> (r: Result<(), Error>)
        requires
            i32::MIN <= value <= i32::MAX,
        ensures
            final(self)@ == old(self)@ + be32(i32_as_u32(value as i32)),
            r is Ok,
    {
        self.serialize_i32(value as i32)
    }

    /// A `char` travels as its low 8 bits, one byte.
    pub fn serialize_char(&mut self, value: char) -> (r: Result<(), Error>)
        requires
            value as u32 <= 0xff,
        ensures
            final(self)@ == old(self)@.push((value as u32) as u8),
            r is Ok,
    {
        let code: u32 = value as u32;
        self.serialize_u8(code as u8)
    }

    /// Append a compact byte count followed by the bytes themselves.
    pub fn serialize_bytes(&mut self, value: &[u8]) -> (r: Result<(), Error>)
        requires
            value@.len() <= u32::MAX,
        ensures
            final(self)@ == old(self)@ + compact_u32_bytes(value@.len() as u32) + value@,
            r is Ok,
    {
        let len: usize = value.len();
        let _ = self.compact_u32(len as u32);
        let mut i: usize = 0;
        let ghost mid = self@;
        while i < len
            invariant
                i <= len,
                len == value@.len(),
                self@ == mid + value@.subrange(0, i as int),
            decreases len - i,
        {
            self.writer.push(value[i]);
            proof {
                assert(self@ =~= mid + value@.subrange(0, i + 1));
            }
            i += 1;
        }
        proof {
            assert(self@ =~= old(self)@ + compact_u32_bytes(value@.len() as u32) + value@);
        }
        Ok(())
    }

    /// A string travels as its UTF-8 bytes, length-prefixed.
    pub fn serialize_str(&mut self, value: &str) -> (r: Result<(), Error>)
        requires
            value.spec_bytes().len() <= u32::MAX,
        ensures
            final(self)@ == old(self)@ + compact_u32_bytes(value.spec_bytes().len() as u32)
                + value.spec_bytes(),
            r is Ok,
    {
        self.serialize_bytes(value.as_bytes())
    }

    /// A unit value takes no bytes.
    pub fn serialize_unit(&mut self) -> (r: Result<(), Error>)
        ensures
            final(self)@ == old(self)@,
            r is Ok,
    {
        Ok(())
    }

    /// A unit struct takes no bytes.
    pub fn serialize_unit_struct(&mut self) -> (r: Result<(), Error>)
        ensures
            final(self)@ == old(self)@,
            r is Ok,
    {
        self.serialize_unit()
    }

    /// `None` travels as a compact 0 with no payload.
    pub fn serialize_none(&mut self) -> (r: Result<(), Error>)
        ensures
            final(self)@ == old(self)@ + compact_u32_bytes(0),
            r is Ok,
    {
        self.compact_u32(0)
    }

    /// `Some` travels as a compact 1; the caller then writes the payload.
    pub fn serialize_some(&mut self) -> (r: Result<(), Error>)
        ensures
            final(self)@ == old(self)@ + compact_u32_bytes(1),
            r is Ok,
    {
        self.compact_u32(1)
    }

    /// A sequence opens with its compact element count; the caller then
    /// writes each element.
    pub fn serialize_seq_len(&mut self, len: usize) -> (r: Result<(), Error>)
        requires
            len <= u32::MAX,
        ensures
            final(self)@ == old(self)@ + compact_u32_bytes(len as u32),
            r is Ok,
    {
        self.compact_u32(len as u32)
    }

    /// A map opens with its compact entry count; the caller then writes
    /// each key and value.
    pub fn serialize_map_len(&mut self, len: usize) -> (r: Result<(), Error>)
        requires
            len <= u32::MAX,
        ensures
            final(self)@ == old(self)@ + compact_u32_bytes(len as u32),
            r is Ok,
    {
        self.compact_u32(len as u32)
    }

    /// A variant of a tagged sum travels as the compact sum of the type's
    /// tag offset and the variant index; the caller then writes the payload
    /// (length-prefixed, when the tag offset is nonzero).
    pub fn serialize_variant(&mut self, tag_offset: u32, variant_index: u32) -> (r: Result<
        (),
        Error,
    >)
        requires
            tag_offset + variant_index <= u32::MAX,
        ensures
            final(self)@ == old(self)@ + compact_u32_bytes((tag_offset + variant_index) as u32),
            r is Ok,
    {
        self.compact_u32(tag_offset + variant_index)
    }
}

/// Reads pw-encoded values off the front of a byte slice.
///
/// `remaining()` is the unread tail; every successful read consumes exactly
/// the bytes its specification function describes, and a failed read leaves
/// the position where the contract says.
pub struct Deserializer<'a> {
    pub reader: &'a [u8],
    pub pos: usize,
}

impl<'a> Deserializer<'a> {
    /// The position never passes the end of the input.
    pub open spec fn wf(&self) -> bool {
        self.pos <= self.reader@.len()
    }

    /// The bytes not yet consumed.
    pub open spec fn remaining(&self) -> Seq<u8> {
        self.reader@.skip(self.pos as int)
    }

    /// Start reading `r` from its first byte.
    pub fn new(r: &'a [u8]) -> (d: Deserializer<'a>)
        ensures
            d.wf(),
            d.reader@ == r@,
            d.pos == 0,
            d.remaining() == r@,
    {
        let d = Deserializer { reader: r, pos: 0 };
        proof {
            assert(d.remaining() =~= r@);
        }
        d
    }

    /// Take one byte, or fail with `IoError` at the end of input.
    pub fn visit_u8(&mut self) -> (r: Result<u8, Error>)
        requires
            old(self).wf(),
        ensures
            final(self).wf(),
            final(self).reader == old(self).reader,
            (if old(self).remaining().len() >= 1 {
                r == Ok::<u8, Error>(old(self).remaining()[0]) && final(self).pos == old(self).pos
                    + 1
            } else {
                r == Err::<u8, Error>(Error::IoError) && final(self).pos == old(self).pos
            }),
    {
        if self.pos < self.reader.len() {
            let b: u8 = self.reader[self.pos];
            self.pos = self.pos + 1;
            Ok(b)
        } else {
            Err(Error::IoError)
        }
    }

    /// A nonzero byte reads as true.
    pub fn visit_bool(&mut self) -> (r: Result<bool, Error>)
        requires
            old(self).wf(),
        ensures
            final(self).wf(),
            final(self).reader == old(self).reader,
            (if old(self).remaining().len() >= 1 {
                r == Ok::<bool, Error>(old(self).remaining()[0] != 0) && final(self).pos == old(self).pos + 1
            } else {
                r == Err::<bool, Error>(Error::IoError) && final(self).pos == old(self).pos
            }),
    {
        match self.visit_u8() {
            Ok(b) => Ok(b != 0),
            Err(e) => Err(e),
        }
    }

    /// A `char` reads back from its single low byte.
    pub fn visit_char(&mut self) -> (r: Result<char, Error>)
        requires
            old(self).wf(),
        ensures
            final(self).wf(),
            final(self).reader == old(self).reader,
            (if old(self).remaining().len() >= 1 {
                r == Ok::<char, Error>(old(self).remaining()[0] as char) && final(self).pos == old(self).pos + 1
            } else {
                r == Err::<char, Error>(Error::IoError) && final(self).pos == old(self).pos
            }),
    {
        match self.visit_u8() {
            Ok(b) => Ok(b as char),
            Err(e) => Err(e),
        }
    }

    /// Two big-endian bytes.
    pub fn visit_u16(&mut self) -> (r: Result<u16, Error>)
        requires
            old(self).wf(),
        ensures
            final(self).wf(),
            final(self).reader == old(self).reader,
            (if old(self).remaining().len() >= 2 {
                r == Ok::<u16, Error>(
                    be16_val(old(self).remaining()[0], old(self).remaining()[1]),
                ) && final(self).pos == old(self).pos + 2
            } else {
                r == Err::<u16, Error>(Error::IoError) && final(self).pos == old(self).pos
            }),
    {
        let len: usize = self.reader.len();
        if len - self.pos >= 2 {
            let v: u16 = u16_from_be(self.reader[self.pos], self.reader[self.pos + 1]);
            self.pos = self.pos + 2;
            Ok(v)
        } else {
            Err(Error::IoError)
        }
    }

    /// Four big-endian bytes.
    pub fn visit_u32(&mut self) -> (r: Result<u32, Error>)
        requires
            old(self).wf(),
        ensures
            final(self).wf(),
            final(self).reader == old(self).reader,
            (if old(self).remaining().len() >= 4 {
                r == Ok::<u32, Error>(be32_at(old(self).remaining(), 0)) && final(self).pos == old(self).pos + 4
            } else {
                r == Err::<u32, Error>(Error::IoError) && final(self).pos == old(self).pos
            }),
    {
        let len: usize = self.reader.len();
        if len - self.pos >= 4 {
            let v: u32 = u32_from_be(
                self.reader[self.pos],
                self.reader[self.pos + 1],
                self.reader[self.pos + 2],
                self.reader[self.pos + 3],
            );
            self.pos = self.pos + 4;
            Ok(v)
        } else {
            Err(Error::IoError)
        }
    }

    /// Eight big-endian bytes.
    pub fn visit_u64(&mut self) -> (r: Result<u64, Error>)
        requires
            old(self).wf(),
        ensures
            final(self).wf(),
            final(self).reader == old(self).reader,
            (if old(self).remaining().len() >= 8 {
                r == Ok::<u64, Error>(
                    be64_val(
                        old(self).remaining()[0],
                        old(self).remaining()[1],
                        old(self).remaining()[2],
                        old(self).remaining()[3],
                        old(self).remaining()[4],
                        old(self).remaining()[5],
                        old(self).remaining()[6],
                        old(self).remaining()[7],
                    ),
                ) && final(self).pos == old(self).pos + 8
            } else {
                r == Err::<u64, Error>(Error::IoError) && final(self).pos == old(self).pos
            }),
    {
        let len: usize = self.reader.len();
        if len - self.pos >= 8 {
            let v: u64 = u64_from_be(
                self.reader[self.pos],
                self.reader[self.pos + 1],
                self.reader[self.pos + 2],
                self.reader[self.pos + 3],
                self.reader[self.pos + 4],
                self.reader[self.pos + 5],
                self.reader[self.pos + 6],
                self.reader[self.pos + 7],
            );
            self.pos = self.pos + 8;
            Ok(v)
        } else {
            Err(Error::IoError)
        }
    }

    /// A `usize` reads back from a plain big-endian `u32`.
    pub fn visit_usize(&mut self) -> (r: Result<usize, Error>)
        requires
            old(self).wf(),
        ensures
            final(self).wf(),
            final(self).reader == old(self).reader,
            (if old(self).remaining().len() >= 4 {
                r == Ok::<usize, Error>(be32_at(old(self).remaining(), 0) as usize) && final(self).pos == old(self).pos + 4
            } else {
                r == Err::<usize, Error>(Error::IoError) && final(self).pos == old(self).pos
            }),
    {
        match self.visit_u32() {
            Ok(v) => Ok(v as usize),
            Err(e) => Err(e),
        }
    }

    /// One two's-complement byte.
    pub fn visit_i8(&mut self) -> (r: Result<i8, Error>)
        requires
            old(self).wf(),
        ensures
            final(self).wf(),
            final(self).reader == old(self).reader,
            (if old(self).remaining().len() >= 1 {
                r == Ok::<i8, Error>(crate::wire::u8_as_i8(old(self).remaining()[0])) && final(self).pos == old(self).pos + 1
            } else {
                r == Err::<i8, Error>(Error::IoError) && final(self).pos == old(self).pos
            }),
    {
        match self.visit_u8() {
            Ok(v) => Ok(crate::wire::u8_to_i8(v)),
            Err(e) => Err(e),
        }
    }

    /// Two big-endian two's-complement bytes.
    pub fn visit_i16(&mut self) -> (r: Result<i16, Error>)
        requires
            old(self).wf(),
        ensures
            final(self).wf(),
            final(self).reader == old(self).reader,
            (if old(self).remaining().len() >= 2 {
                r == Ok::<i16, Error>(
                    crate::wire::u16_as_i16(
                        be16_val(old(self).remaining()[0], old(self).remaining()[1]),
                    ),
                ) && final(self).pos == old(self).pos + 2
            } else {
                r == Err::<i16, Error>(Error::IoError) && final(self).pos == old(self).pos
            }),
    {
        match self.visit_u16() {
            Ok(v) => Ok(crate::wire::u16_to_i16(v)),
            Err(e) => Err(e),
        }
    }

    /// Four big-endian two's-complement bytes.
    pub fn visit_i32(&mut self) -> (r: Result<i32, Error>)
        requires
            old(self).wf(),
        ensures
            final(self).wf(),
            final(self).reader == old(self).reader,
            (if old(self).remaining().len() >= 4 {
                r == Ok::<i32, Error>(crate::wire::u32_as_i32(be32_at(old(self).remaining(), 0)))
                    && final(self).pos == old(self).pos + 4
            } else {
                r == Err::<i32, Error>(Error::IoError) && final(self).pos == old(self).pos
            }),
    {
        match self.visit_u32() {
            Ok(v) => Ok(crate::wire::u32_to_i32(v)),
            Err(e) => Err(e),
        }
    }

    /// Eight big-endian two's-complement bytes.
    pub fn visit_i64(&mut self) -> (r: Result<i64, Error>)
        requires
            old(self).wf(),
        ensures
            final(self).wf(),
            final(self).reader == old(self).reader,
            (if old(self).remaining().len() >= 8 {
                r is Ok && final(self).pos == old(self).pos + 8 && r == Ok::<i64, Error>(
                    crate::wire::u64_as_i64(
                        be64_val(
                            old(self).remaining()[0],
                            old(self).remaining()[1],
                            old(self).remaining()[2],
                            old(self).remaining()[3],
                            old(self).remaining()[4],
                            old(self).remaining()[5],
                            old(self).remaining()[6],
                            old(self).remaining()[7],
                        ),
                    ),
                )
            } else {
                r == Err::<i64, Error>(Error::IoError) && final(self).pos == old(self).pos
            }),
    {
        match self.visit_u64() {
            Ok(v) => Ok(crate::wire::u64_to_i64(v)),
            Err(e) => Err(e),
        }
    }

    /// An `isize` reads back from a big-endian `i32`.
    pub fn visit_isize(&mut self) -> (r: Result<isize, Error>)
        requires
            old(self).wf(),
        ensures
            final(self).wf(),
            final(self).reader == old(self).reader,
            (if old(self).remaining().len() >= 4 {
                r == Ok::<isize, Error>(
                    crate::wire::u32_as_i32(be32_at(old(self).remaining(), 0)) as isize,
                ) && final(self).pos == old(self).pos + 4
            } else {
                r == Err::<isize, Error>(Error::IoError) && final(self).pos == old(self).pos
            }),
    {
        match self.visit_i32() {
            Ok(v) => Ok(v as isize),
            Err(e) => Err(e),
        }
    }

    /// A unit value takes no bytes.
    pub fn visit_unit(&mut self) -> (r: Result<(), Error>)
        requires
            old(self).wf(),
        ensures
            *final(self) == *old(self),
            r is Ok,
    {
        Ok(())
    }

    /// Decode one compact integer.
    pub fn uncompact_u32(&mut self) -> (r: Result<u32, Error>)
        requires
            old(self).wf(),
        ensures
            final(self).wf(),
            final(self).reader == old(self).reader,
            (match parse_compact_u32(old(self).remaining()) {
                Some(vn) => r == Ok::<u32, Error>(vn.0) && final(self).pos == old(self).pos + vn.1,
                None => r == Err::<u32, Error>(Error::IoError) && final(self).pos == old(self).pos,
            }),
    {
        let len: usize = self.reader.len();
        let avail: usize = len - self.pos;
        if avail < 1 {
            return Err(Error::IoError);
        }
        let b0: u8 = self.reader[self.pos];
        if b0 >= 0xe0 {
            if avail < 5 {
                return Err(Error::IoError);
            }
            let v: u32 = u32_from_be(
                self.reader[self.pos + 1],
                self.reader[self.pos + 2],
                self.reader[self.pos + 3],
                self.reader[self.pos + 4],
            );
            self.pos = self.pos + 5;
            Ok(v)
        } else if b0 >= 0xc0 {
            if avail < 4 {
                return Err(Error::IoError);
            }
            let w: u32 = u32_from_be(
                b0,
                self.reader[self.pos + 1],
                self.reader[self.pos + 2],
                self.reader[self.pos + 3],
            );
            self.pos = self.pos + 4;
            Ok(w - 0xC000_0000)
        } else if b0 >= 0x80 {
            if avail < 2 {
                return Err(Error::IoError);
            }
            let w: u16 = u16_from_be(b0, self.reader[self.pos + 1]);
            self.pos = self.pos + 2;
            Ok((w - 0x8000) as u32)
        } else {
            self.pos = self.pos + 1;
            Ok(b0 as u32)
        }
    }

    /// A compact count followed by that many raw bytes.
    pub fn visit_bytes(&mut self) -> (r: Result<Vec<u8>, Error>)
        requires
            old(self).wf(),
        ensures
            final(self).wf(),
            final(self).reader == old(self).reader,
            (match parse_compact_u32(old(self).remaining()) {
                Some(vn) => if old(self).remaining().len() >= vn.1 + vn.0 {
                    &&& r is Ok
                    &&& (r matches Ok(v) ==> v@ == old(self).remaining().subrange(
                        vn.1,
                        vn.1 + vn.0,
                    ))
                    &&& final(self).pos == old(self).pos + vn.1 + vn.0
                } else {
                    r == Err::<Vec<u8>, Error>(Error::IoError) && final(self).pos == old(self).pos
                        + vn.1
                },
                None => r == Err::<Vec<u8>, Error>(Error::IoError) && final(self).pos == old(self).pos,
            }),
    {
        let n: u32 = match self.uncompact_u32() {
            Ok(n) => n,
            Err(e) => {
                return Err(e);
            },
        };
        let count: usize = n as usize;
        let len: usize = self.reader.len();
        if len - self.pos < count {
            return Err(Error::IoError);
        }
        let mut v: Vec<u8> = Vec::new();
        let mut i: usize = 0;
        while i < count
            invariant
                i <= count,
                self.wf(),
                self.pos + count <= self.reader@.len(),
                v@.len() == i,
                forall|j: int| 0 <= j < i ==> v@[j] == self.reader@[self.pos + j],
            decreases count - i,
        {
            let total: usize = self.reader.len();
            v.push(self.reader[self.pos + i]);
            i += 1;
        }
        self.pos = self.pos + count;
        proof {
            let vn = parse_compact_u32(old(self).remaining()).unwrap();
            assert(v@ =~= old(self).remaining().subrange(vn.1, vn.1 + vn.0));
        }
        Ok(v)
    }

    /// An option marker: 0 reads as `None`, 1 as `Some` (the caller then
    /// reads the payload), anything else is malformed.
    pub fn visit_option(&mut self) -> (r: Result<bool, Error>)
        requires
            old(self).wf(),
        ensures
            final(self).wf(),
            final(self).reader == old(self).reader,
            (match parse_compact_u32(old(self).remaining()) {
                Some(vn) => {
                    &&& final(self).pos == old(self).pos + vn.1
                    &&& (if vn.0 == 0 {
                        r == Ok::<bool, Error>(false)
                    } else if vn.0 == 1 {
                        r == Ok::<bool, Error>(true)
                    } else {
                        r == Err::<bool, Error>(Error::SerdeError)
                    })
                },
                None => r == Err::<bool, Error>(Error::IoError) && final(self).pos == old(self).pos,
            }),
    {
        match self.uncompact_u32() {
            Ok(0) => Ok(false),
            Ok(1) => Ok(true),
            Ok(_) => Err(Error::SerdeError),
            Err(e) => Err(e),
        }
    }

    /// A sequence opens with its compact element count.
    pub fn visit_seq_len(&mut self) -> (r: Result<usize, Error>)
        requires
            old(self).wf(),
        ensures
            final(self).wf(),
            final(self).reader == old(self).reader,
            (match parse_compact_u32(old(self).remaining()) {
                Some(vn) => r == Ok::<usize, Error>(vn.0 as usize) && final(self).pos == old(self).pos + vn.1,
                None => r == Err::<usize, Error>(Error::IoError) && final(self).pos == old(self).pos,
            }),
    {
        match self.uncompact_u32() {
            Ok(v) => Ok(v as usize),
            Err(e) => Err(e),
        }
    }

    /// A map opens with its compact entry count.
    pub fn visit_map_len(&mut self) -> (r: Result<usize, Error>)
        requires
            old(self).wf(),
        ensures
            final(self).wf(),
            final(self).reader == old(self).reader,
            (match parse_compact_u32(old(self).remaining()) {
                Some(vn) => r == Ok::<usize, Error>(vn.0 as usize) && final(self).pos == old(self).pos + vn.1,
                None => r == Err::<usize, Error>(Error::IoError) && final(self).pos == old(self).pos,
            }),
    {
        match self.uncompact_u32() {
            Ok(v) => Ok(v as usize),
            Err(e) => Err(e),
        }
    }

    /// A tagged sum opens with its compact tag.
    pub fn visit_variant_tag(&mut self) -> (r: Result<u32, Error>)
        requires
            old(self).wf(),
        ensures
            final(self).wf(),
            final(self).reader == old(self).reader,
            (match parse_compact_u32(old(self).remaining()) {
                Some(vn) => r == Ok::<u32, Error>(vn.0) && final(self).pos == old(self).pos + vn.1,
                None => r == Err::<u32, Error>(Error::IoError) && final(self).pos == old(self).pos,
            }),
    {
        self.uncompact_u32()
    }
}

/// The ASCII bytes of the name prefix that marks a partitioned tag space.
pub open spec fn protocol_tag_prefix() -> Seq<u8> {
    seq![0x50u8, 0x72, 0x6f, 0x74, 0x6f, 0x63, 0x6f, 0x6c, 0x46, 0x72, 0x6f, 0x6d]
}

/// Every byte of `s` is an ASCII decimal digit.
pub open spec fn all_decimal_digits(s: Seq<u8>) -> bool {
    forall|i: int| 0 <= i < s.len() ==> 0x30 <= #[trigger] s[i] <= 0x39
}

/// The number the ASCII digits of `s` spell out.
pub open spec fn decimal_value(s: Seq<u8>) -> int
    decreases s.len(),
{
    if s.len() == 0 {
        0
    } else {
        decimal_value(s.drop_last()) * 10 + (s.last() - 0x30)
    }
}

/// A digit string spells a number that is not negative.
pub proof fn lemma_decimal_nonneg(s: Seq<u8>)
    requires
        all_decimal_digits(s),
    ensures
        decimal_value(s) >= 0,
    decreases s.len(),
{
    if s.len() > 0 {
        assert(all_decimal_digits(s.drop_last()));
        lemma_decimal_nonneg(s.drop_last());
    }
}

/// Reading a prefix of a digit string never overshoots the whole value.
pub proof fn lemma_decimal_take_le(s: Seq<u8>, j: int)
    requires
        all_decimal_digits(s),
        0 <= j <= s.len(),
    ensures
        decimal_value(s.take(j)) <= decimal_value(s),
    decreases s.len() - j,
{
    if j == s.len() {
        assert(s.take(j) =~= s);
    } else {
        assert(s.take(j + 1).drop_last() =~= s.take(j));
        assert(s.take(j + 1).last() == s[j]);
        assert(all_decimal_digits(s.take(j)));
        lemma_decimal_nonneg(s.take(j));
        lemma_decimal_take_le(s, j + 1);
    }
}

/// The tag offset a type name carries: the number after the
/// `ProtocolFrom` prefix, or 0 when the name does not start with it.
pub open spec fn spec_parse_tag(s: Seq<u8>) -> int {
    if s.len() >= 12 && s.subrange(0, 12) == protocol_tag_prefix() {
        decimal_value(s.skip(12))
    } else {
        0
    }
}

/// Extract the tag offset from a type name.
///
/// A name that starts with the prefix must go on with at least one digit
/// and spell a number no larger than `u32::MAX`; any other name yields 0.
pub fn parse_tag(name: &str) -> (r: usize)
    requires
        (name.spec_bytes().len() >= 12 && name.spec_bytes().subrange(0, 12)
            == protocol_tag_prefix()) ==> {
            &&& name.spec_bytes().len() > 12
            &&& all_decimal_digits(name.spec_bytes().skip(12))
            &&& decimal_value(name.spec_bytes().skip(12)) <= u32::MAX
        },
    ensures
        r == spec_parse_tag(name.spec_bytes()),
{
    let b: &[u8] = name.as_bytes();
    let blen: usize = b.len();
    if blen < 12 {
        proof {
            assert(spec_parse_tag(b@) == 0);
        }
        return 0;
    }
    let p: Vec<u8> = vec![0x50u8, 0x72, 0x6f, 0x74, 0x6f, 0x63, 0x6f, 0x6c, 0x46, 0x72, 0x6f, 0x6d];
    proof {
        assert(p@ =~= protocol_tag_prefix());
    }
    let mut i: usize = 0;
    while i < 12
        invariant
            i <= 12,
            b@ == name.spec_bytes(),
            blen == b@.len(),
            blen >= 12,
            p@ == protocol_tag_prefix(),
            forall|j: int| 0 <= j < i ==> b@[j] == protocol_tag_prefix()[j],
        decreases 12 - i,
    {
        if b[i] != p[i] {
            proof {
                assert(b@.subrange(0, 12)[i as int] == b@[i as int]);
                assert(b@.subrange(0, 12) != protocol_tag_prefix());
                assert(spec_parse_tag(b@) == 0);
            }
            return 0;
        }
        i += 1;
    }
    proof {
        assert(b@.subrange(0, 12) =~= protocol_tag_prefix());
    }
    let ghost digits = b@.skip(12);
    let mut val: u32 = 0;
    let mut k: usize = 12;
    while k < blen
        invariant
            12 <= k <= blen,
            blen == b@.len(),
            digits == b@.skip(12),
            all_decimal_digits(digits),
            decimal_value(digits) <= u32::MAX,
            val == decimal_value(digits.take(k - 12)),
        decreases blen - k,
    {
        let d: u8 = b[k];
        proof {
            assert(digits[k - 12] == b@[k as int]);
            assert(0x30 <= d <= 0x39);
            assert(digits.take(k - 12 + 1).drop_last() =~= digits.take(k - 12));
            assert(digits.take(k - 12 + 1).last() == digits[k - 12]);
            lemma_decimal_nonneg(digits.take(k - 12));
            lemma_decimal_take_le(digits, k - 12 + 1);
        }
        val = val * 10 + ((d - 0x30) as u32);
        k += 1;
    }
    proof {
        assert(digits.take(blen - 12) =~= digits);
    }
    val as usize
}

/// Bookkeeping for a counted sequence read: how many elements are owed and
/// how many have been taken.
pub struct SeqVisitor {
    pub len: usize,
    pub cur: usize,
}

impl SeqVisitor {
    /// Expect `len` elements, none taken yet.
    pub fn with_len(len: usize) -> (r: SeqVisitor)
        ensures
            r.len == len,
            r.cur == 0,
    {
        SeqVisitor { len, cur: 0 }
    }

    /// True while another element is owed; counts that element as taken.
    pub fn visit(&mut self) -> (more: bool)
        ensures
            final(self).len == old(self).len,
            (if old(self).cur < old(self).len {
                more && final(self).cur == old(self).cur + 1
            } else {
                !more && final(self).cur == old(self).cur
            }),
    {
        if self.cur < self.len {
            self.cur += 1;
            true
        } else {
            false
        }
    }

    /// Succeeds only once every element was taken.
    pub fn end(&self) -> (r: Result<(), Error>)
        ensures
            r is Ok <==> self.cur >= self.len,
    {
        if self.cur >= self.len {
            Ok(())
        } else {
            Err(Error::SerdeError)
        }
    }

    /// How many elements the count announced.
    pub fn size_hint(&self) -> (r: usize)
        ensures
            r == self.len,
    {
        self.len
    }
}

/// Bookkeeping for a counted map read: how many entries are owed and how
/// many have been taken.
pub struct MapVisitor {
    pub len: usize,
    pub cur: usize,
}

impl MapVisitor {
    /// Expect `len` entries, none taken yet.
    pub fn with_len(len: usize) -> (r: MapVisitor)
        ensures
            r.len == len,
            r.cur == 0,
    {
        MapVisitor { len, cur: 0 }
    }

    /// True while another entry is owed; counts that entry as taken.
    pub fn visit(&mut self) -> (more: bool)
        ensures
            final(self).len == old(self).len,
            (if old(self).cur < old(self).len {
                more && final(self).cur == old(self).cur + 1
            } else {
                !more && final(self).cur == old(self).cur
            }),
    {
        if self.cur < self.len {
            self.cur += 1;
            true
        } else {
            false
        }
    }

    /// Succeeds only once every entry was taken.
    pub fn end(&self) -> (r: Result<(), Error>)
        ensures
            r is Ok <==> self.cur >= self.len,
    {
        if self.cur >= self.len {
            Ok(())
        } else {
            Err(Error::SerdeError)
        }
    }

    /// How many entries the count announced.
    pub fn size_hint(&self) -> (r: usize)
        ensures
            r == self.len,
    {
        self.len
    }
}

/// A decided compact integer stays decided the same way when more bytes
/// arrive behind it.
pub proof fn lemma_parse_compact_stable(s: Seq<u8>, t: Seq<u8>)
    ensures
        parse_compact_u32(s) is Some ==> parse_compact_u32(s + t) == parse_compact_u32(s),
{
    if s.len() >= 1 {
        let u = s + t;
        assert(u[0] == s[0]);
        assert(u.len() >= 2 ==> u[1] == s[1] || s.len() < 2);
        assert(forall|i: int| 0 <= i < s.len() ==> u[i] == s[i]);
    }
}

/// The pw framing decision: a compact tag, then a compact body length;
/// the frame is everything both took plus the body.
pub open spec fn pw_read_len_spec(s: Seq<u8>) -> Option<(usize, usize)> {
    match parse_compact_u32(s) {
        None => None,
        Some(tn) => match parse_compact_u32(s.skip(tn.1)) {
            None => None,
            Some(ln) => if tn.1 + ln.1 + ln.0 <= usize::MAX {
                Some((0usize, (tn.1 + ln.1 + ln.0) as usize))
            } else {
                None
            },
        },
    }
}

/// The pw frame preamble is part of the body bytes themselves, so the
/// head streamer emits nothing and reads the tag and length in place.
pub struct PwHeadStreamer;

impl HeadStreamer for PwHeadStreamer {
    type Error = Error;

    open spec fn spec_head(len: usize) -> Seq<u8> {
        Seq::empty()
    }

    open spec fn spec_read_len(s: Seq<u8>) -> Option<(usize, usize)> {
        pw_read_len_spec(s)
    }

    proof fn lemma_read_len_stable(s: Seq<u8>, t: Seq<u8>) {
        lemma_parse_compact_stable(s, t);
        if parse_compact_u32(s) is Some {
            let tn = parse_compact_u32(s).unwrap();
            assert((s + t).skip(tn.1) =~= s.skip(tn.1) + t);
            lemma_parse_compact_stable(s.skip(tn.1), t);
        }
    }

    fn write_len(len: usize, writer: &mut Buffer) -> (r: Result<(), Error>) {
        proof {
            assert(old(writer)@ + Seq::<u8>::empty() =~= old(writer)@);
        }
        Ok(())
    }

    fn read_len(reader: &[u8]) -> (r: Result<Option<(usize, usize)>, Error>) {
        let mut de = Deserializer::new(reader);
        let tag: u32 = match de.uncompact_u32() {
            Ok(t) => t,
            Err(_) => {
                return Ok(None);
            },
        };
        let len: u32 = match de.uncompact_u32() {
            Ok(l) => l,
            Err(_) => {
                return Ok(None);
            },
        };
        let consumed: usize = de.pos;
        if (len as u64) > ((usize::MAX - consumed) as u64) {
            return Ok(None);
        }
        Ok(Some((0, consumed + len as usize)))
    }
}

/// The worked-example message of the echo scenario.
#[derive(Debug)]
pub struct Packet {
    pub x: i32,
    pub y: i32,
    pub zzz: Vec<u8>,
}

/// The mathematical shadow of a [`Packet`].
pub struct PacketModel {
    pub x: i32,
    pub y: i32,
    pub zzz: Seq<u8>,
}

impl View for Packet {
    type V = PacketModel;

    open spec fn view(&self) -> PacketModel {
        PacketModel { x: self.x, y: self.y, zzz: self.zzz@ }
    }
}

/// The one-protocol tagged sum the echo scenario speaks: tag space 1,
/// one variant.
#[derive(Debug)]
pub enum ProtocolFrom1 {
    Proto1(Packet),
}

impl View for ProtocolFrom1 {
    type V = PacketModel;

    open spec fn view(&self) -> PacketModel {
        match self {
            ProtocolFrom1::Proto1(p) => p@,
        }
    }
}

/// Packets whose encoding fits the length fields: the payload fits a
/// compact length, and the whole frame fits an in-memory slice.
pub open spec fn wf_proto1(m: PacketModel) -> bool {
    let zlen = m.zzz.len() as int;
    let blen = 8 + compact_u32_len(zlen as u32) + zlen;
    &&& zlen <= u32::MAX
    &&& blen <= u32::MAX
    &&& 1 + compact_u32_len(blen as u32) + blen <= usize::MAX
}

/// The compact length a value needs is never more than the bytes a
/// decoder accepted for it (a decoder may accept a widened encoding).
pub proof fn lemma_clen_le_parse(s: Seq<u8>)
    ensures
        parse_compact_u32(s) matches Some(vn) ==> compact_u32_len(vn.0) <= vn.1,
{
    if parse_compact_u32(s) is Some {
        let vn = parse_compact_u32(s).unwrap();
        if s[0] >= 0xe0 {
        } else if s[0] >= 0xc0 {
            assert(vn.0 < 0x2000_0000);
        } else if s[0] >= 0x80 {
            assert(vn.0 < 0x4000);
        }
    }
}

/// The variant payload: both integers flat, then the byte sequence with
/// its compact count.
pub open spec fn proto1_body(m: PacketModel) -> Seq<u8> {
    be32(i32_as_u32(m.x)) + be32(i32_as_u32(m.y)) + compact_u32_bytes(m.zzz.len() as u32) + m.zzz
}

/// One whole frame: compact tag 1, compact payload length, payload.
pub open spec fn proto1_frame(m: PacketModel) -> Seq<u8> {
    compact_u32_bytes(1) + compact_u32_bytes(proto1_body(m).len() as u32) + proto1_body(m)
}

/// Whether an exact payload slice decodes: two flat integers, then a
/// compact count followed by exactly that many bytes.
pub open spec fn proto1_body_decodes(b: Seq<u8>) -> bool {
    &&& b.len() >= 8
    &&& match parse_compact_u32(b.skip(8)) {
        Some(zn) => b.len() == 8 + zn.1 + zn.0,
        None => false,
    }
}

/// The packet an exact payload slice decodes to.
pub open spec fn proto1_body_parse(b: Seq<u8>) -> PacketModel {
    let zn = parse_compact_u32(b.skip(8)).unwrap();
    PacketModel {
        x: crate::wire::u32_as_i32(be32_at(b, 0)),
        y: crate::wire::u32_as_i32(be32_at(b, 4)),
        zzz: b.skip(8 + zn.1),
    }
}

/// Whether an exact frame slice decodes: tag 1, a length that accounts
/// for the rest of the slice, and a decodable payload.
pub open spec fn proto1_decodes(s: Seq<u8>) -> bool {
    match parse_compact_u32(s) {
        Some(tn) => {
            &&& tn.0 == 1
            &&& match parse_compact_u32(s.skip(tn.1)) {
                Some(ln) => s.len() == tn.1 + ln.1 + ln.0 && proto1_body_decodes(
                    s.skip(tn.1 + ln.1),
                ),
                None => false,
            }
        },
        None => false,
    }
}

/// The packet an exact frame slice decodes to.
pub open spec fn proto1_parse(s: Seq<u8>) -> PacketModel {
    let tn = parse_compact_u32(s).unwrap();
    let ln = parse_compact_u32(s.skip(tn.1)).unwrap();
    proto1_body_parse(s.skip(tn.1 + ln.1))
}

/// The payload serialization of the pw echo protocol.
pub struct PwBodyStreamer;

impl BodyStreamer for PwBodyStreamer {
    type Packet = ProtocolFrom1;

    type Error = Error;

    open spec fn spec_wf_packet(m: PacketModel) -> bool {
        wf_proto1(m)
    }

    open spec fn spec_body(m: PacketModel) -> Seq<u8> {
        proto1_frame(m)
    }

    open spec fn spec_decodes(s: Seq<u8>) -> bool {
        proto1_decodes(s)
    }

    open spec fn spec_parse(s: Seq<u8>) -> PacketModel {
        proto1_parse(s)
    }

    proof fn lemma_body_roundtrip(m: PacketModel) {
        lemma_proto1_roundtrip(m, Seq::empty());
        assert(proto1_frame(m) + Seq::<u8>::empty() =~= proto1_frame(m));
    }

    fn write_to_vec(packet: &ProtocolFrom1) -> (r: Result<Vec<u8>, Error>) {
        let p: &Packet = match packet {
            ProtocolFrom1::Proto1(p) => p,
        };
        let mut body = Serializer::new(Vec::new());
        let _ = body.serialize_i32(p.x);
        let _ = body.serialize_i32(p.y);
        let _ = body.serialize_bytes(p.zzz.as_slice());
        let body_bytes: Vec<u8> = body.into_inner();
        proof {
            assert(body_bytes@ =~= proto1_body(packet@));
        }
        let mut outer = Serializer::new(Vec::new());
        let _ = outer.serialize_variant(1, 0);
        let _ = outer.serialize_bytes(body_bytes.as_slice());
        let frame: Vec<u8> = outer.into_inner();
        proof {
            assert(frame@ =~= proto1_frame(packet@));
        }
        Ok(frame)
    }

    #[verifier::rlimit(100)]
    fn read_from_slice(reader: &[u8]) -> (r: Result<ProtocolFrom1, Error>) {
        let total: usize = reader.len();
        let mut de = Deserializer::new(reader);
        let tag: u32 = match de.uncompact_u32() {
            Ok(t) => t,
            Err(e) => {
                return Err(e);
            },
        };
        if tag != 1 {
            return Err(Error::SerdeError);
        }
        let blob: Vec<u8> = match de.visit_bytes() {
            Ok(b) => b,
            Err(e) => {
                return Err(e);
            },
        };
        if de.pos != total {
            return Err(Error::SerdeError);
        }
        proof {
            let s = reader@;
            let tn = parse_compact_u32(s).unwrap();
            let ln = parse_compact_u32(s.skip(tn.1)).unwrap();
            assert(blob@ =~= s.skip(tn.1 + ln.1));
        }
        let blen: usize = blob.len();
        let mut db = Deserializer::new(blob.as_slice());
        let x: i32 = match db.visit_i32() {
            Ok(v) => v,
            Err(e) => {
                return Err(e);
            },
        };
        let y: i32 = match db.visit_i32() {
            Ok(v) => v,
            Err(e) => {
                return Err(e);
            },
        };
        let zzz: Vec<u8> = match db.visit_bytes() {
            Ok(v) => v,
            Err(e) => {
                return Err(e);
            },
        };
        if db.pos != blen {
            return Err(Error::SerdeError);
        }
        let packet = ProtocolFrom1::Proto1(Packet { x, y, zzz });
        proof {
            let s = reader@;
            let tn = parse_compact_u32(s).unwrap();
            let ln = parse_compact_u32(s.skip(tn.1)).unwrap();
            let b = blob@;
            let zn = parse_compact_u32(b.skip(8)).unwrap();
            assert(be32_at(b.skip(4), 0) == be32_at(b, 4));
            lemma_proto1_decode_shape(s, tn.1, ln.0, ln.1, zn.0, zn.1);
            assert(zzz@ =~= b.skip(8 + zn.1));
            assert(packet@ == proto1_parse(s));
        }
        Ok(packet)
    }
}

/// An accepted decode has the exact shape the specification functions
/// describe, and yields a well-formed packet.
proof fn lemma_proto1_decode_shape(s: Seq<u8>, t1: int, l0: u32, l1: int, z0: u32, z1: int)
    requires
        parse_compact_u32(s) == Some((1u32, t1)),
        parse_compact_u32(s.skip(t1)) == Some((l0, l1)),
        s.len() == t1 + l1 + l0,
        s.skip(t1 + l1).len() >= 8,
        parse_compact_u32(s.skip(t1 + l1).skip(8)) == Some((z0, z1)),
        s.skip(t1 + l1).len() == 8 + z1 + z0,
        s.len() <= usize::MAX,
    ensures
        proto1_decodes(s),
        proto1_parse(s) == (PacketModel {
            x: crate::wire::u32_as_i32(be32_at(s.skip(t1 + l1), 0)),
            y: crate::wire::u32_as_i32(be32_at(s.skip(t1 + l1), 4)),
            zzz: s.skip(t1 + l1).skip(8 + z1),
        }),
        wf_proto1(proto1_parse(s)),
{
    let blob = s.skip(t1 + l1);
    assert(t1 >= 1 && l1 >= 1 && z1 >= 1);
    assert(proto1_body_decodes(blob));
    assert(proto1_decodes(s));
    lemma_clen_le_parse(blob.skip(8));
    lemma_clen_le_parse(s.skip(t1));
    let zzz = blob.skip(8 + z1);
    assert(zzz.len() == z0);
    assert(compact_u32_len(z0) <= z1);
    let blenp = 8 + compact_u32_len(z0) + z0;
    assert(blenp <= l0);
    assert(compact_u32_len(blenp as u32) <= compact_u32_len(l0));
    assert(compact_u32_len(l0) <= l1);
    assert(1 + compact_u32_len(blenp as u32) + blenp <= t1 + l1 + l0);
    assert(wf_proto1(proto1_parse(s)));
}

/// The payload of a well-formed packet decodes back to it.
#[verifier::rlimit(100)]
proof fn lemma_proto1_body_shape(m: PacketModel)
    requires
        wf_proto1(m),
    ensures
        ({
            let body = proto1_body(m);
            &&& body.len() == 8 + compact_u32_len(m.zzz.len() as u32) + m.zzz.len()
            &&& proto1_body_decodes(body)
            &&& proto1_body_parse(body) == m
        }),
{
    let body = proto1_body(m);
    let zlen = m.zzz.len() as u32;
    assert(compact_u32_bytes(zlen).len() == compact_u32_len(zlen));
    lemma_compact_u32_roundtrip(zlen, m.zzz);
    assert(body.skip(8) =~= compact_u32_bytes(zlen) + m.zzz);
    assert(parse_compact_u32(body.skip(8)) == Some((zlen, compact_u32_len(zlen))));
    assert(proto1_body_decodes(body));
    crate::wire::lemma_be32_roundtrip(i32_as_u32(m.x));
    crate::wire::lemma_be32_roundtrip(i32_as_u32(m.y));
    let ex = be32(i32_as_u32(m.x));
    let ey = be32(i32_as_u32(m.y));
    assert(body[0] == ex[0] && body[1] == ex[1] && body[2] == ex[2] && body[3] == ex[3]);
    assert(body[4] == ey[0] && body[5] == ey[1] && body[6] == ey[2] && body[7] == ey[3]);
    assert(be32_at(body, 0) == i32_as_u32(m.x));
    assert(be32_at(body, 4) == i32_as_u32(m.y));
    assert(body.skip(8 + compact_u32_len(zlen)) =~= m.zzz);
    assert(proto1_body_parse(body) == m);
}

/// The two compact integers at the front of an encoded frame parse back
/// to the tag and the payload length, whatever follows the frame.
#[verifier::rlimit(100)]
proof fn lemma_proto1_frame_head(m: PacketModel, rest: Seq<u8>)
    requires
        wf_proto1(m),
    ensures
        ({
            let f = proto1_frame(m);
            let s = f + rest;
            let blen = proto1_body(m).len() as u32;
            &&& parse_compact_u32(s) == Some((1u32, 1int))
            &&& parse_compact_u32(s.skip(1)) == Some((blen, compact_u32_len(blen)))
            &&& f.len() == 1 + compact_u32_len(blen) + blen
            &&& s.skip(1 + compact_u32_len(blen)) =~= proto1_body(m) + rest
        }),
{
    let body = proto1_body(m);
    let blen = body.len() as u32;
    let f = proto1_frame(m);
    let s = f + rest;
    lemma_compact_u32_roundtrip(1, compact_u32_bytes(blen) + body + rest);
    assert(compact_u32_bytes(1) + (compact_u32_bytes(blen) + body + rest) =~= s);
    lemma_compact_u32_roundtrip(blen, body + rest);
    assert(s.skip(1) =~= compact_u32_bytes(blen) + (body + rest));
    assert(s.skip(1 + compact_u32_len(blen)) =~= body + rest);
}

/// Every frame the encoder can produce decodes back to the same packet.
#[verifier::rlimit(100)]
pub proof fn lemma_proto1_roundtrip(m: PacketModel, rest: Seq<u8>)
    requires
        wf_proto1(m),
    ensures
        ({
            let f = proto1_frame(m);
            let s = f + rest;
            &&& f.len() <= usize::MAX
            &&& pw_read_len_spec(s) == Some((0usize, f.len() as usize))
            &&& s.take(f.len() as int) =~= f
            &&& proto1_decodes(f)
            &&& proto1_parse(f) == m
        }),
{
    lemma_proto1_body_shape(m);
    let body = proto1_body(m);
    let blen = body.len() as u32;
    let n2 = compact_u32_len(blen);
    let f = proto1_frame(m);
    let s = f + rest;
    lemma_proto1_frame_head(m, rest);
    lemma_proto1_frame_head(m, Seq::empty());
    assert(f + Seq::<u8>::empty() =~= f);
    assert(parse_compact_u32(f) == Some((1u32, 1int)));
    assert(f.skip(1) =~= (f + Seq::<u8>::empty()).skip(1));
    assert(parse_compact_u32(f.skip(1)) == Some((blen, n2)));
    assert(f.skip(1 + n2) =~= body + Seq::<u8>::empty());
    assert(f.skip(1 + n2) =~= body);
    assert(pw_read_len_spec(s) == Some((0usize, f.len() as usize)));
    assert(s.take(f.len() as int) =~= f);
    assert(proto1_decodes(f));
    assert(proto1_parse(f) == m);
}

/// The pw codec's error kinds are already its public error type.
pub struct PwErrorMapper;

impl ErrorMapper for PwErrorMapper {
    type HE = Error;

    type BE = Error;

    type Error = Error;

    fn error_from_head(e: Error) -> Error {
        e
    }

    fn error_from_body(e: Error) -> Error {
        e
    }

    fn error_from_io(e: TransportError) -> Error {
        Error::IoError
    }
}

/// The composed pw streamer the echo service consumes.
pub struct PwStreamer;

impl StreamerImpl for PwStreamer {
    type Head = PwHeadStreamer;

    type Body = PwBodyStreamer;

    type Error = PwErrorMapper;
}

impl ServiceStreamer for PwStreamer {
    type Packet = ProtocolFrom1;

    type Error = Error;

    open spec fn spec_wf_packet(m: PacketModel) -> bool {
        wf_proto1(m)
    }

    open spec fn spec_encode(m: PacketModel) -> Seq<u8> {
        proto1_frame(m)
    }

    open spec fn spec_framing(s: Seq<u8>) -> Framing {
        match pw_read_len_spec(s) {
            None => Framing::Incomplete,
            Some(ht) => if s.len() < ht.1 {
                Framing::Incomplete
            } else if proto1_decodes(s.take(ht.1 as int)) {
                Framing::Frame(ht.1)
            } else {
                Framing::Bad
            },
        }
    }

    open spec fn spec_parse(s: Seq<u8>) -> PacketModel {
        match pw_read_len_spec(s) {
            Some(ht) => proto1_parse(s.take(ht.1 as int)),
            None => proto1_parse(s),
        }
    }

    proof fn lemma_framing_stable(s: Seq<u8>, t: Seq<u8>) {
        PwHeadStreamer::lemma_read_len_stable(s, t);
        match pw_read_len_spec(s) {
            Some(ht) => {
                if s.len() >= ht.1 {
                    assert((s + t).take(ht.1 as int) =~= s.take(ht.1 as int));
                }
            },
            None => {},
        }
    }

    proof fn lemma_frame_bounds(s: Seq<u8>) {
        match pw_read_len_spec(s) {
            Some(ht) => {
                let tn = parse_compact_u32(s).unwrap();
                let ln = parse_compact_u32(s.skip(tn.1)).unwrap();
                assert(tn.1 >= 1 && ln.1 >= 1);
            },
            None => {},
        }
    }

    proof fn lemma_encode_roundtrip(m: PacketModel, rest: Seq<u8>) {
        lemma_proto1_roundtrip(m, rest);
    }

    fn write_packet(packet: &ProtocolFrom1, writer: &mut Buffer) -> (r: Result<(), Error>) {
        let v: Vec<u8> = match PwBodyStreamer::write_to_vec(packet) {
            Ok(v) => v,
            Err(e) => {
                return Err(e);
            },
        };
        let _ = PwHeadStreamer::write_len(v.len(), writer);
        writer.write_bytes(v.as_slice());
        Ok(())
    }

    fn read_packet(reader: &mut Buffer) -> (r: Result<Option<ProtocolFrom1>, Error>) {
        let total: usize;
        let p: ProtocolFrom1;
        {
            let buf: &[u8] = reader.data_slice();
            let hd = match PwHeadStreamer::read_len(buf) {
                Ok(Some(ht)) => ht,
                Ok(None) => {
                    return Ok(None);
                },
                Err(e) => {
                    return Err(e);
                },
            };
            if buf.len() < hd.1 {
                return Ok(None);
            }
            let frame: &[u8] = vstd::slice::slice_subrange(buf, 0, hd.1);
            proof {
                assert(frame@ =~= reader@.take(hd.1 as int));
            }
            p = match PwBodyStreamer::read_from_slice(frame) {
                Ok(p) => p,
                Err(e) => {
                    return Err(e);
                },
            };
            total = hd.1;
        }
        reader.consume(total);
        Ok(Some(p))
    }
}

} // verus!

