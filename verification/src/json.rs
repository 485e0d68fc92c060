//! JSON-framed messages: the framing preamble is a one-element JSON array
//! holding the body length in ASCII decimal, `[n]`. The body bytes travel
//! opaquely — the core frames a document and hands its bytes over; what
//! they mean is the application's business.

use vstd::prelude::*;
use vstd::slice::{slice_subrange, slice_to_vec};
use crate::buffer::Buffer;
use crate::events::TransportError;
use crate::headbody::{
    BodyStreamer, ErrorMapper, Framing, HeadStreamer, ServiceStreamer, StreamerImpl,
};
use crate::pw::{all_decimal_digits, decimal_value, lemma_decimal_nonneg};

verus! {

/// What can go wrong in the JSON framing layer: only a transport that
/// failed mid-frame. A malformed header merely waits for more bytes.
#[derive(Clone, Copy, Debug, PartialEq, Eq, Structural)]
pub enum Error {
    IoError,
}

/// The ASCII decimal digits of `n`, most significant first.
pub open spec fn decimal_digits(n: int) -> Seq<u8>
    recommends
        n >= 0,
    decreases n,
{
    if n < 10 {
        seq![(0x30 + if n >= 0 {
            n
        } else {
            0
        }) as u8]
    } else {
        decimal_digits(n / 10).push((0x30 + n % 10) as u8)
    }
}

/// Rendering digits and reading them back are inverse.
pub proof fn lemma_decimal_digits_value(n: int)
    requires
        n >= 0,
    ensures
        decimal_digits(n).len() >= 1,
        all_decimal_digits(decimal_digits(n)),
        decimal_value(decimal_digits(n)) == n,
    decreases n,
{
    if n >= 10 {
        lemma_decimal_digits_value(n / 10);
        let d = decimal_digits(n);
        assert(d == decimal_digits(n / 10).push((0x30 + n % 10) as u8));
        assert(d.drop_last() =~= decimal_digits(n / 10));
        assert(d.last() == (0x30 + n % 10) as u8);
        assert(decimal_value(d) == decimal_value(d.drop_last()) * 10 + (d.last() - 0x30));
        assert(d.last() - 0x30 == n % 10);
        vstd::arithmetic::div_mod::lemma_fundamental_div_mod(n, 10);
        assert(decimal_value(d) == n);
        assert forall|i: int| 0 <= i < d.len() implies 0x30 <= #[trigger] d[i] <= 0x39 by {
            if i < d.len() - 1 {
                assert(d[i] == decimal_digits(n / 10)[i]);
            }
        }
    } else {
        let d = decimal_digits(n);
        assert(d =~= seq![(0x30 + n) as u8]);
        assert(d.drop_last() =~= Seq::<u8>::empty());
        assert(decimal_value(d.drop_last()) == 0);
        assert(decimal_value(d) == d.last() - 0x30);
    }
}

/// The canonical rendering of a value is never longer than any digit
/// string that spells it.
pub proof fn lemma_digits_minimal(d: Seq<u8>)
    requires
        all_decimal_digits(d),
        d.len() >= 1,
    ensures
        decimal_digits(decimal_value(d)).len() <= d.len(),
    decreases d.len(),
{
    lemma_decimal_nonneg(d);
    let v = decimal_value(d);
    if v < 10 {
    } else {
        let dp = d.drop_last();
        assert(all_decimal_digits(dp));
        lemma_decimal_nonneg(dp);
        let r = d.last() - 0x30;
        assert(v == decimal_value(dp) * 10 + r);
        assert(v / 10 == decimal_value(dp)) by (nonlinear_arith)
            requires
                v == decimal_value(dp) * 10 + r,
                0 <= r < 10,
                decimal_value(dp) >= 0,
        ;
        assert(dp.len() >= 1) by {
            if dp.len() == 0 {
                assert(decimal_value(dp) == 0);
                assert(v < 10);
            }
        }
        lemma_digits_minimal(dp);
    }
}

/// Powers of ten, for bounding digit counts.
pub open spec fn pow10(k: nat) -> int
    decreases k,
{
    if k == 0 {
        1
    } else {
        10 * pow10((k - 1) as nat)
    }
}

/// Powers of ten are positive.
pub proof fn lemma_pow10_pos(k: nat)
    ensures
        pow10(k) >= 1,
    decreases k,
{
    if k > 0 {
        lemma_pow10_pos((k - 1) as nat);
    }
}

/// A value below the k-th power of ten renders in at most k digits.
pub proof fn lemma_digits_len_bound(n: int, k: nat)
    requires
        n >= 0,
        k >= 1,
        n < pow10(k),
    ensures
        decimal_digits(n).len() <= k,
    decreases k,
{
    if n >= 10 {
        if k == 1 {
            assert(pow10(0nat) == 1);
            assert(pow10(1nat) == 10);
            assert(false);
        }
        lemma_pow10_pos((k - 1) as nat);
        assert(pow10(k) == 10 * pow10((k - 1) as nat));
        assert(n / 10 < pow10((k - 1) as nat)) by (nonlinear_arith)
            requires
                n >= 0,
                pow10((k - 1) as nat) >= 1,
                n < 10 * pow10((k - 1) as nat),
        ;
        lemma_digits_len_bound(n / 10, (k - 1) as nat);
    }
}

/// The first position at or after `i` holding a byte that is not an
/// ASCII digit, or the end of `s`.
pub open spec fn digits_end(s: Seq<u8>, i: int) -> int
    recommends
        0 <= i <= s.len(),
    decreases s.len() - i,
{
    if i >= s.len() {
        i
    } else if 0x30 <= s[i] <= 0x39 {
        digits_end(s, i + 1)
    } else {
        i
    }
}

/// Everything strictly before the end is a digit, the end is not (when
/// inside the sequence), and the end never moves backwards.
pub proof fn lemma_digits_end(s: Seq<u8>, i: int)
    requires
        0 <= i <= s.len(),
    ensures
        i <= digits_end(s, i) <= s.len(),
        forall|j: int| i <= j < digits_end(s, i) ==> 0x30 <= #[trigger] s[j] <= 0x39,
        digits_end(s, i) < s.len() ==> !(0x30 <= s[digits_end(s, i)] <= 0x39),
    decreases s.len() - i,
{
    if i < s.len() && 0x30 <= s[i] <= 0x39 {
        lemma_digits_end(s, i + 1);
    }
}

/// A decided digit run keeps its end when bytes arrive behind it.
pub proof fn lemma_digits_end_stable(s: Seq<u8>, t: Seq<u8>, i: int)
    requires
        0 <= i <= s.len(),
        digits_end(s, i) < s.len(),
    ensures
        digits_end(s + t, i) == digits_end(s, i),
    decreases s.len() - i,
{
    if i < s.len() && 0x30 <= s[i] <= 0x39 {
        lemma_digits_end_stable(s, t, i + 1);
    }
}

/// The framing decision on peeked bytes: `[`, at least one digit, `]`,
/// giving the header length and the announced body length; anything else
/// (including an unfinished header) decides nothing yet.
pub open spec fn json_read_len_spec(s: Seq<u8>) -> Option<(usize, usize)> {
    if s.len() < 1 || s[0] != 0x5b {
        None
    } else {
        let e = digits_end(s, 1);
        if e == 1 || e >= s.len() || s[e] != 0x5d || e + 1 > usize::MAX || decimal_value(
            s.subrange(1, e),
        ) > usize::MAX {
            None
        } else {
            Some(((e + 1) as usize, decimal_value(s.subrange(1, e)) as usize))
        }
    }
}

/// The header bytes announcing a body of `len` bytes.
pub open spec fn json_head(len: usize) -> Seq<u8> {
    seq![0x5bu8] + decimal_digits(len as int) + seq![0x5du8]
}

/// The header round trip: what `write_len` emits, `read_len` reads back,
/// whatever follows it.
pub proof fn lemma_json_head_roundtrip(len: usize, rest: Seq<u8>)
    ensures
        json_read_len_spec(json_head(len) + rest) == Some(
            (json_head(len).len() as usize, len),
        ),
        json_head(len).len() >= 3,
{
    let d = decimal_digits(len as int);
    lemma_decimal_digits_value(len as int);
    assert(pow10(20) == 100000000000000000000) by {
        reveal_with_fuel(pow10, 21);
    }
    assert(len < pow10(20));
    lemma_digits_len_bound(len as int, 20);
    let h = json_head(len);
    let s = h + rest;
    assert(s[0] == 0x5b);
    assert(forall|j: int| 1 <= j < 1 + d.len() ==> s[j] == d[j - 1]);
    assert(s[1 + d.len() as int] == 0x5d);
    lemma_digits_end(s, 1);
    assert(digits_end(s, 1) == 1 + d.len() as int) by {
        lemma_digits_end(s, 1);
        let e = digits_end(s, 1);
        if e < 1 + d.len() as int {
            assert(0x30 <= s[e] <= 0x39);
            assert(false);
        }
        if e > 1 + d.len() as int {
            assert(0x30 <= s[1 + d.len() as int] <= 0x39);
            assert(false);
        }
    }
    assert(s.subrange(1, 1 + d.len() as int) =~= d);
}

/// The length preamble of the JSON codec.
pub struct JsonHeadStreamer;

impl HeadStreamer for JsonHeadStreamer {
    type Error = Error;

    open spec fn spec_head(len: usize) -> Seq<u8> {
        json_head(len)
    }

    open spec fn spec_read_len(s: Seq<u8>) -> Option<(usize, usize)> {
        json_read_len_spec(s)
    }

    proof fn lemma_read_len_stable(s: Seq<u8>, t: Seq<u8>) {
        if json_read_len_spec(s) is Some {
            lemma_digits_end(s, 1);
            let e = digits_end(s, 1);
            assert(1 < e < s.len());
            let u = s + t;
            assert(u[0] == s[0]);
            lemma_digits_end_stable(s, t, 1);
            assert(digits_end(u, 1) == e);
            assert(u[e] == s[e]);
            assert(u.subrange(1, e) =~= s.subrange(1, e));
        }
    }

    fn write_len(len: usize, writer: &mut Buffer) -> (r: Result<(), Error>) {
        let digits: Vec<u8> = render_decimal(len);
        let mut head: Vec<u8> = Vec::new();
        head.push(0x5b);
        let mut i: usize = 0;
        let n: usize = digits.len();
        while i < n
            invariant
                i <= n,
                n == digits@.len(),
                head@ == seq![0x5bu8] + digits@.subrange(0, i as int),
            decreases n - i,
        {
            head.push(digits[i]);
            proof {
                assert(head@ =~= seq![0x5bu8] + digits@.subrange(0, i + 1));
            }
            i += 1;
        }
        head.push(0x5d);
        proof {
            assert(digits@.subrange(0, n as int) =~= digits@);
            assert(head@ =~= json_head(len));
        }
        writer.write_bytes(head.as_slice());
        Ok(())
    }

    fn read_len(reader: &[u8]) -> (r: Result<Option<(usize, usize)>, Error>) {
        let n: usize = reader.len();
        if n < 1 || reader[0] != 0x5b {
            return Ok(None);
        }
        let ghost s = reader@;
        let mut e: usize = 1;
        let mut value: usize = 0;
        let mut overflow = false;
        while e < n && 0x30 <= reader[e] && reader[e] <= 0x39
            invariant
                1 <= e <= n,
                n == reader@.len(),
                digits_end(reader@, 1) == digits_end(reader@, e as int),
                forall|j: int| 1 <= j < e ==> 0x30 <= #[trigger] reader@[j] <= 0x39,
                !overflow ==> value == decimal_value(reader@.subrange(1, e as int)),
                overflow ==> decimal_value(reader@.subrange(1, e as int)) > usize::MAX,
            decreases n - e,
        {
            let d: u8 = reader[e];
            proof {
                assert(reader@.subrange(1, e + 1).drop_last() =~= reader@.subrange(1, e as int));
                assert(reader@.subrange(1, e + 1).last() == reader@[e as int]);
                lemma_decimal_nonneg(reader@.subrange(1, e as int));
            }
            if !overflow {
                if value > (usize::MAX - ((d - 0x30) as usize)) / 10 {
                    overflow = true;
                } else {
                    value = value * 10 + ((d - 0x30) as usize);
                }
            } else {
                proof {
                    lemma_decimal_nonneg(reader@.subrange(1, e as int));
                }
            }
            e += 1;
        }
        proof {
            assert(digits_end(reader@, e as int) == e);
            assert(digits_end(reader@, 1) == e);
        }
        if e == 1 || e >= n || reader[e] != 0x5d || overflow {
            proof {
                if overflow {
                    assert(decimal_value(s.subrange(1, e as int)) > usize::MAX);
                }
            }
            return Ok(None);
        }
        Ok(Some((e + 1, value)))
    }
}

/// The ASCII decimal digits of `n`, as bytes.
pub fn render_decimal(n: usize) -> (r: Vec<u8>)
    ensures
        r@ == decimal_digits(n as int),
    decreases n,
{
    if n < 10 {
        let mut v: Vec<u8> = Vec::new();
        v.push(0x30 + n as u8);
        proof {
            assert(v@ =~= decimal_digits(n as int));
        }
        v
    } else {
        let mut v: Vec<u8> = render_decimal(n / 10);
        v.push(0x30 + (n % 10) as u8);
        v
    }
}

/// The JSON codec's payload: the document bytes, carried opaquely.
pub struct JsonBodyStreamer;

impl BodyStreamer for JsonBodyStreamer {
    type Packet = Vec<u8>;

    type Error = Error;

    open spec fn spec_wf_packet(p: Seq<u8>) -> bool {
        true
    }

    open spec fn spec_body(p: Seq<u8>) -> Seq<u8> {
        p
    }

    open spec fn spec_decodes(s: Seq<u8>) -> bool {
        true
    }

    open spec fn spec_parse(s: Seq<u8>) -> Seq<u8> {
        s
    }

    proof fn lemma_body_roundtrip(p: Seq<u8>) {
    }

    fn write_to_vec(packet: &Vec<u8>) -> (r: Result<Vec<u8>, Error>) {
        Ok(slice_to_vec(packet.as_slice()))
    }

    fn read_from_slice(reader: &[u8]) -> (r: Result<Vec<u8>, Error>) {
        Ok(slice_to_vec(reader))
    }
}

/// The JSON codec's error kinds are already its public error type.
pub struct JsonErrorMapper;

impl ErrorMapper for JsonErrorMapper {
    type HE = Error;

    type BE = Error;

    type Error = Error;

    fn error_from_head(e: Error) -> Error {
        e
    }

    fn error_from_body(e: Error) -> Error {
        e
    }

    fn error_from_io(e: TransportError) -> Error {
        Error::IoError
    }
}

/// The composed JSON streamer: `[n]` framing around opaque document
/// bytes.
pub struct JsonStreamer;

impl StreamerImpl for JsonStreamer {
    type Head = JsonHeadStreamer;

    type Body = JsonBodyStreamer;

    type Error = JsonErrorMapper;
}

impl ServiceStreamer for JsonStreamer {
    type Packet = Vec<u8>;

    type Error = Error;

    open spec fn spec_wf_packet(p: Seq<u8>) -> bool {
        p.len() <= usize::MAX && p.len() + json_head(p.len() as usize).len() <= usize::MAX
    }

    open spec fn spec_encode(p: Seq<u8>) -> Seq<u8> {
        json_head(p.len() as usize) + p
    }

    open spec fn spec_framing(s: Seq<u8>) -> Framing {
        match json_read_len_spec(s) {
            None => Framing::Incomplete,
            Some(hb) => if hb.0 + hb.1 > usize::MAX || s.len() < hb.0 + hb.1 {
                Framing::Incomplete
            } else {
                Framing::Frame((hb.0 + hb.1) as usize)
            },
        }
    }

    open spec fn spec_parse(s: Seq<u8>) -> Seq<u8> {
        match json_read_len_spec(s) {
            Some(hb) => s.subrange(hb.0 as int, hb.0 + hb.1),
            None => s,
        }
    }

    proof fn lemma_framing_stable(s: Seq<u8>, t: Seq<u8>) {
        JsonHeadStreamer::lemma_read_len_stable(s, t);
        match json_read_len_spec(s) {
            Some(hb) => {
                if s.len() >= hb.0 + hb.1 {
                    assert((s + t).subrange(hb.0 as int, hb.0 + hb.1) =~= s.subrange(
                        hb.0 as int,
                        hb.0 + hb.1,
                    ));
                }
            },
            None => {},
        }
    }

    proof fn lemma_frame_bounds(s: Seq<u8>) {
        if json_read_len_spec(s) is Some {
            lemma_digits_end(s, 1);
            assert(digits_end(s, 1) > 1);
        }
    }

    proof fn lemma_encode_roundtrip(p: Seq<u8>, rest: Seq<u8>) {
        let plen = p.len() as usize;
        lemma_json_head_roundtrip(plen, p + rest);
        let h = json_head(plen);
        assert(h + (p + rest) =~= (h + p) + rest);
        let s = (h + p) + rest;
        assert(json_read_len_spec(s) == Some((h.len() as usize, plen)));
        assert(s.subrange(h.len() as int, h.len() + p.len() as int) =~= p);
    }

    fn write_packet(packet: &Vec<u8>, writer: &mut Buffer) -> (r: Result<(), Error>) {
        let _ = JsonHeadStreamer::write_len(packet.len(), writer);
        writer.write_bytes(packet.as_slice());
        proof {
            assert(writer@ =~= old(writer)@ + Self::spec_encode(packet@));
        }
        Ok(())
    }

    fn read_packet(reader: &mut Buffer) -> (r: Result<Option<Vec<u8>>, Error>) {
        let total: usize;
        let p: Vec<u8>;
        {
            let buf: &[u8] = reader.data_slice();
            let hb = match JsonHeadStreamer::read_len(buf) {
                Ok(Some(hb)) => hb,
                Ok(None) => {
                    return Ok(None);
                },
                Err(e) => {
                    return Err(e);
                },
            };
            if (buf.len() as u128) < hb.0 as u128 + hb.1 as u128 {
                return Ok(None);
            }
            let body: &[u8] = slice_subrange(buf, hb.0, hb.0 + hb.1);
            p = slice_to_vec(body);
            total = hb.0 + hb.1;
            proof {
                let s = old(reader)@;
                assert(buf@ == s);
                assert(s.len() == old(reader).write - old(reader).read);
                assert(s.len() <= usize::MAX);
                lemma_digits_end(s, 1);
                let e = digits_end(s, 1);
                assert(json_read_len_spec(s) == Some(hb));
                assert(s.len() >= 1 && s[0] == 0x5b) by {
                    if !(s.len() >= 1 && s[0] == 0x5b) {
                        assert(json_read_len_spec(s) is None);
                    }
                }
                assert(!(e == 1 || e >= s.len() || s[e] != 0x5d || e + 1 > usize::MAX
                    || decimal_value(s.subrange(1, e)) > usize::MAX)) by {
                    if e == 1 || e >= s.len() || s[e] != 0x5d || e + 1 > usize::MAX
                        || decimal_value(s.subrange(1, e)) > usize::MAX {
                        assert(json_read_len_spec(s) is None);
                    }
                }
                assert(hb.0 == e + 1);
                assert(hb.1 == decimal_value(s.subrange(1, e)) as usize);
                assert(s.subrange(1, e).len() == e - 1);
                assert forall|q: int| 0 <= q < e - 1 implies 0x30 <= #[trigger] s.subrange(
                    1,
                    e,
                )[q] <= 0x39 by {
                    assert(s.subrange(1, e)[q] == s[1 + q]);
                }
                lemma_decimal_nonneg(s.subrange(1, e));
                assert(hb.1 as int == decimal_value(s.subrange(1, e)));
                lemma_digits_minimal(s.subrange(1, e));
                assert(p@.len() == hb.1);
                assert(decimal_digits(hb.1 as int).len() <= e - 1);
                assert(json_head(hb.1 as usize).len() == 2 + decimal_digits(
                    hb.1 as int,
                ).len());
                assert(p@.len() + json_head(p@.len() as usize).len() <= s.len());
            }
        }
        reader.consume(total);
        Ok(Some(p))
    }
}

} // verus!
