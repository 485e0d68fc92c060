//! The codec layer: what a streamer must guarantee for a service to frame,
//! decode and re-encode messages on a shared receive buffer, and the
//! drain model showing that framing tolerates any chunking of the byte
//! stream.
//!
//! A [`ServiceStreamer`] is the composed contract a service consumes. The
//! [`HeadStreamer`] / [`BodyStreamer`] / [`ErrorMapper`] split lets a codec
//! define its length preamble and its payload serialization separately.

use vstd::prelude::*;
use crate::buffer::Buffer;
use crate::events::TransportError;

verus! {

/// What the framing layer sees at the front of a receive buffer.
pub enum Framing {
    /// Too few bytes to decide, or to complete the frame.
    Incomplete,
    /// One complete frame of this total length sits at the front and its
    /// body decodes.
    Frame(usize),
    /// A complete frame sits at the front but cannot decode; fatal for
    /// the stream that buffered it.
    Bad,
}

/// The composed codec contract a service consumes: exact encoding, exact
/// framing, and stability of both under arrival of further bytes.
pub trait ServiceStreamer {
    type Packet: View;

    type Error;

    /// Packets whose encoding is defined (length fields fit their widths).
    spec fn spec_wf_packet(p: <Self::Packet as View>::V) -> bool;

    /// The wire bytes of one packet.
    spec fn spec_encode(p: <Self::Packet as View>::V) -> Seq<u8>;

    /// The framing decision on buffered bytes.
    spec fn spec_framing(s: Seq<u8>) -> Framing;

    /// The packet carried by the frame at the front of `s`; meaningful
    /// when `spec_framing(s)` is `Frame`.
    spec fn spec_parse(s: Seq<u8>) -> <Self::Packet as View>::V;

    /// A decided frame stays decided the same way, and parses the same,
    /// when more bytes arrive behind it; a bad frame stays bad.
    proof fn lemma_framing_stable(s: Seq<u8>, t: Seq<u8>)
        ensures
            Self::spec_framing(s) is Frame ==> Self::spec_framing(s + t) == Self::spec_framing(s)
                && Self::spec_parse(s + t) == Self::spec_parse(s),
            Self::spec_framing(s) is Bad ==> Self::spec_framing(s + t) is Bad,
    ;

    /// A frame takes at least one byte and never more than are buffered.
    proof fn lemma_frame_bounds(s: Seq<u8>)
        ensures
            Self::spec_framing(s) matches Framing::Frame(n) ==> 0 < n <= s.len(),
    ;

    /// Round trip: the encoding of a well-formed packet frames as one
    /// whole frame and parses back to the same packet, whatever follows.
    proof fn lemma_encode_roundtrip(p: <Self::Packet as View>::V, rest: Seq<u8>)
        requires
            Self::spec_wf_packet(p),
        ensures
            Self::spec_encode(p).len() <= usize::MAX,
            Self::spec_framing(Self::spec_encode(p) + rest) == Framing::Frame(
                Self::spec_encode(p).len() as usize,
            ),
            Self::spec_parse(Self::spec_encode(p) + rest) == p,
    ;

    /// Append the full wire encoding of `packet` to `writer`: either the
    /// whole frame goes in, or (never, for the codecs here) an error comes
    /// back before any byte is enqueued.
    fn write_packet(packet: &Self::Packet, writer: &mut Buffer) -> (r: Result<(), Self::Error>)
        requires
            old(writer).wf(),
            Self::spec_wf_packet(packet@),
            old(writer)@.len() + Self::spec_encode(packet@).len() <= usize::MAX,
        ensures
            final(writer).wf(),
            final(writer)@ == old(writer)@ + Self::spec_encode(packet@),
            r is Ok,
    ;

    /// Take one frame off the front of `reader` if one is complete:
    /// `Ok(None)` and an untouched buffer while bytes are missing, the
    /// decoded packet with exactly its frame consumed otherwise, and an
    /// error (buffer untouched) on an undecodable frame.
    fn read_packet(reader: &mut Buffer) -> (r: Result<Option<Self::Packet>, Self::Error>)
        requires
            old(reader).wf(),
        ensures
            final(reader).wf(),
            (match Self::spec_framing(old(reader)@) {
                Framing::Incomplete => {
                    &&& r is Ok
                    &&& (r matches Ok(o) ==> o is None)
                    &&& final(reader)@ == old(reader)@
                },
                Framing::Frame(n) => {
                    &&& r is Ok
                    &&& (r matches Ok(o) ==> o is Some)
                    &&& (r matches Ok(Some(p)) ==> p@ == Self::spec_parse(old(reader)@)
                        && Self::spec_wf_packet(p@))
                    &&& final(reader)@ == old(reader)@.skip(n as int)
                },
                Framing::Bad => {
                    &&& r is Err
                    &&& final(reader)@ == old(reader)@
                },
            }),
    ;
}

/// The framing preamble of a composed codec: how body length is announced.
pub trait HeadStreamer {
    type Error;

    /// The header bytes that announce a body of `len` bytes.
    spec fn spec_head(len: usize) -> Seq<u8>;

    /// The framing decision on peeked bytes: header length and body
    /// length, or `None` while too few bytes have arrived to decide.
    spec fn spec_read_len(s: Seq<u8>) -> Option<(usize, usize)>;

    /// A decided header stays decided the same way under more bytes.
    proof fn lemma_read_len_stable(s: Seq<u8>, t: Seq<u8>)
        ensures
            Self::spec_read_len(s) is Some ==> Self::spec_read_len(s + t) == Self::spec_read_len(
                s,
            ),
    ;

    /// Emit the framing header for a body of `len` bytes.
    fn write_len(len: usize, writer: &mut Buffer) -> (r: Result<(), Self::Error>)
        requires
            old(writer).wf(),
            old(writer)@.len() + Self::spec_head(len).len() <= usize::MAX,
        ensures
            final(writer).wf(),
            final(writer)@ == old(writer)@ + Self::spec_head(len),
            r is Ok,
    ;

    /// Inspect a peeked prefix without consuming it.
    fn read_len(reader: &[u8]) -> (r: Result<Option<(usize, usize)>, Self::Error>)
        ensures
            r == Ok::<Option<(usize, usize)>, Self::Error>(Self::spec_read_len(reader@)),
    ;
}

/// The payload serialization of a composed codec.
pub trait BodyStreamer {
    type Packet: View;

    type Error;

    /// Packets whose encoding is defined.
    spec fn spec_wf_packet(p: <Self::Packet as View>::V) -> bool;

    /// The body bytes of one packet.
    spec fn spec_body(p: <Self::Packet as View>::V) -> Seq<u8>;

    /// Whether an exact slice decodes to a packet.
    spec fn spec_decodes(s: Seq<u8>) -> bool;

    /// The packet an exact slice decodes to; meaningful when
    /// `spec_decodes(s)`.
    spec fn spec_parse(s: Seq<u8>) -> <Self::Packet as View>::V;

    /// Round trip: the body of a well-formed packet decodes back to it.
    proof fn lemma_body_roundtrip(p: <Self::Packet as View>::V)
        requires
            Self::spec_wf_packet(p),
        ensures
            Self::spec_decodes(Self::spec_body(p)),
            Self::spec_parse(Self::spec_body(p)) == p,
    ;

    /// Serialize one packet to owned bytes.
    fn write_to_vec(packet: &Self::Packet) -> (r: Result<Vec<u8>, Self::Error>)
        requires
            Self::spec_wf_packet(packet@),
        ensures
            (r matches Ok(v) ==> v@ == Self::spec_body(packet@)),
            r is Ok,
    ;

    /// Deserialize one packet from an exact-length slice.
    fn read_from_slice(reader: &[u8]) -> (r: Result<Self::Packet, Self::Error>)
        ensures
            r is Ok <==> Self::spec_decodes(reader@),
            (r matches Ok(p) ==> p@ == Self::spec_parse(reader@) && Self::spec_wf_packet(p@)),
    ;
}

/// Unifies the head, body and transport error kinds of a composed codec
/// into its one public error type.
pub trait ErrorMapper {
    type HE;

    type BE;

    type Error;

    /// Classify a framing error.
    fn error_from_head(e: Self::HE) -> Self::Error;

    /// Classify a payload error.
    fn error_from_body(e: Self::BE) -> Self::Error;

    /// Classify a transport error.
    fn error_from_io(e: TransportError) -> Self::Error;
}

/// Names the three pieces a composed streamer is built from.
pub trait StreamerImpl {
    type Head;

    type Body;

    type Error;
}

/// The packets drained off the front of `s` by reading frames to
/// exhaustion: one packet per complete good frame, stopping at the first
/// incomplete or bad frame.
pub open spec fn drain_packets<S: ServiceStreamer>(s: Seq<u8>) -> Seq<<S::Packet as View>::V>
    decreases s.len(),
{
    match S::spec_framing(s) {
        Framing::Frame(n) => if 0 < n <= s.len() {
            seq![S::spec_parse(s)] + drain_packets::<S>(s.skip(n as int))
        } else {
            Seq::empty()
        },
        _ => Seq::empty(),
    }
}

/// The bytes left after draining every complete good frame off `s`.
pub open spec fn drain_rest<S: ServiceStreamer>(s: Seq<u8>) -> Seq<u8>
    decreases s.len(),
{
    match S::spec_framing(s) {
        Framing::Frame(n) => if 0 < n <= s.len() {
            drain_rest::<S>(s.skip(n as int))
        } else {
            s
        },
        _ => s,
    }
}

/// Draining all at once equals draining what was already there and then
/// draining the leftover with the new bytes appended.
pub proof fn lemma_drain_append<S: ServiceStreamer>(s: Seq<u8>, t: Seq<u8>)
    ensures
        drain_packets::<S>(s + t) =~= drain_packets::<S>(s) + drain_packets::<S>(
            drain_rest::<S>(s) + t,
        ),
        drain_rest::<S>(s + t) == drain_rest::<S>(drain_rest::<S>(s) + t),
    decreases s.len(),
{
    S::lemma_framing_stable(s, t);
    S::lemma_frame_bounds(s);
    match S::spec_framing(s) {
        Framing::Frame(n) => {
            assert((s + t).skip(n as int) =~= s.skip(n as int) + t);
            lemma_drain_append::<S>(s.skip(n as int), t);
        },
        _ => {
            assert(drain_rest::<S>(s) == s);
            assert(drain_packets::<S>(s) =~= Seq::empty());
            assert(s + t =~= drain_rest::<S>(s) + t);
        },
    }
}

/// The concatenation of a list of byte chunks.
pub open spec fn concat_chunks(chunks: Seq<Seq<u8>>) -> Seq<u8>
    decreases chunks.len(),
{
    if chunks.len() == 0 {
        Seq::empty()
    } else {
        chunks[0] + concat_chunks(chunks.skip(1))
    }
}

/// The packets produced by delivering `chunks` one at a time into a
/// receive buffer already holding `carry`, draining after each delivery.
pub open spec fn chunked_packets<S: ServiceStreamer>(chunks: Seq<Seq<u8>>, carry: Seq<u8>) -> Seq<
    <S::Packet as View>::V,
>
    decreases chunks.len(),
{
    if chunks.len() == 0 {
        Seq::empty()
    } else {
        drain_packets::<S>(carry + chunks[0]) + chunked_packets::<S>(
            chunks.skip(1),
            drain_rest::<S>(carry + chunks[0]),
        )
    }
}

/// Framing tolerance: however a byte stream is split into chunks, the
/// packets drained chunk by chunk are the packets drained from the whole
/// stream delivered at once.
pub proof fn lemma_framing_tolerance<S: ServiceStreamer>(chunks: Seq<Seq<u8>>, carry: Seq<u8>)
    requires
        chunks.len() > 0,
    ensures
        chunked_packets::<S>(chunks, carry) =~= drain_packets::<S>(carry + concat_chunks(chunks)),
    decreases chunks.len(),
{
    if chunks.len() == 1 {
        assert(concat_chunks(chunks.skip(1)) == Seq::<u8>::empty());
        assert(carry + concat_chunks(chunks) =~= carry + chunks[0]);
        assert(chunked_packets::<S>(chunks.skip(1), drain_rest::<S>(carry + chunks[0]))
            == Seq::<<S::Packet as View>::V>::empty());
        assert(chunked_packets::<S>(chunks, carry) =~= drain_packets::<S>(carry + chunks[0]));
    } else {
        let rest0 = drain_rest::<S>(carry + chunks[0]);
        lemma_framing_tolerance::<S>(chunks.skip(1), rest0);
        lemma_drain_append::<S>(carry + chunks[0], concat_chunks(chunks.skip(1)));
        assert((carry + chunks[0]) + concat_chunks(chunks.skip(1)) =~= carry + concat_chunks(
            chunks,
        ));
        assert(chunked_packets::<S>(chunks, carry) == drain_packets::<S>(carry + chunks[0])
            + chunked_packets::<S>(chunks.skip(1), rest0));
        assert(drain_packets::<S>(carry + concat_chunks(chunks)) =~= drain_packets::<S>(
            carry + chunks[0],
        ) + drain_packets::<S>(rest0 + concat_chunks(chunks.skip(1))));
    }
}

} // verus!
