//! The protocol binding and the per-connection dispatch loop.
//!
//! [`LineProto`] binds one accepted connection into a [`LineTransport`]:
//! the line codec paired with that connection's receive buffer. The
//! dispatch loop [`serve_available`] decodes every complete buffered
//! frame in order, passes each to the bound handler and appends the
//! encoded response to the outbound buffer; a framing error ends the
//! loop with [`ServeStatus::Closed`], which is fatal only to this one
//! connection. The caller performs the actual reads and writes.

use vstd::prelude::*;
use bytes::BytesMut;
use vstd::utf8::valid_utf8;
use vstd::utf8::decode_utf8;
use vstd::utf8::encode_utf8;
use vstd::utf8::encode_utf8_valid_utf8;
use vstd::utf8::encode_utf8_decode_utf8;
use crate::buffer::buf_bytes;
use crate::buffer::buf_new;
use crate::buffer::buf_extend;
use crate::codec::LineCodec;
use crate::codec::LineError;
use crate::codec::DELIM;
use crate::codec::has_delim;
use crate::codec::first_delim;
use crate::codec::lemma_first_delim;
use crate::codec::lemma_encode_has_delim;
use crate::codec::lemma_first_delim_terminated;
use crate::handler::Handler;

verus! {

/// What a connection's dispatch loop asks of its caller next.
#[derive(Clone, Copy, Debug, PartialEq, Eq, Structural)]
pub enum ServeStatus {
    /// Every buffered complete frame was served; more bytes must be read.
    NeedRead,
    /// A framing error: this connection is to be closed.
    Closed,
}

/// The response wire bytes owed for one decoded frame payload: the UTF-8
/// encoding of the handler's response, terminated by the delimiter.
pub open spec fn response_frame<H: Handler>(h: H, payload: Seq<u8>) -> Seq<u8> {
    encode_utf8(h.response_spec(decode_utf8(payload))) + seq![DELIM]
}

/// The concatenated response wire bytes owed for the complete frames at
/// the front of buffer `b`, in request order, stopping at the first
/// invalid payload or at the incomplete trailing fragment.
pub open spec fn responses<H: Handler>(h: H, b: Seq<u8>) -> Seq<u8>
    decreases b.len(),
    via responses_decreases::<H>
{
    if !has_delim(b) {
        Seq::empty()
    } else {
        let p = b.take(first_delim(b));
        if valid_utf8(p) {
            response_frame(h, p) + responses(h, b.skip(first_delim(b) + 1))
        } else {
            Seq::empty()
        }
    }
}

#[via_fn]
proof fn responses_decreases<H: Handler>(h: H, b: Seq<u8>) {
    lemma_first_delim(b);
}

/// The bytes left in the receive buffer once the dispatch loop stops: the
/// incomplete trailing fragment, or whatever follows the frame whose
/// payload was invalid.
pub open spec fn leftover(b: Seq<u8>) -> Seq<u8>
    decreases b.len(),
    via leftover_decreases
{
    if !has_delim(b) {
        b
    } else {
        let p = b.take(first_delim(b));
        if valid_utf8(p) {
            leftover(b.skip(first_delim(b) + 1))
        } else {
            b.skip(first_delim(b) + 1)
        }
    }
}

#[via_fn]
proof fn leftover_decreases(b: Seq<u8>) {
    lemma_first_delim(b);
}

/// True when every complete frame at the front of `b` carries a valid
/// UTF-8 payload, so that serving them raises no framing error.
pub open spec fn drains_clean(b: Seq<u8>) -> bool
    decreases b.len(),
    via drains_clean_decreases
{
    if !has_delim(b) {
        true
    } else {
        let p = b.take(first_delim(b));
        valid_utf8(p) && drains_clean(b.skip(first_delim(b) + 1))
    }
}

#[via_fn]
proof fn drains_clean_decreases(b: Seq<u8>) {
    lemma_first_delim(b);
}

/// A clean dispatch turn leaves no complete frame unserved: after
/// [`serve_available`] returns [`ServeStatus::NeedRead`], more bytes must
/// arrive before another frame can exist.
pub proof fn lemma_leftover_incomplete(b: Seq<u8>)
    requires
        drains_clean(b),
    ensures
        !has_delim(leftover(b)),
    decreases b.len(),
{
    if has_delim(b) {
        lemma_first_delim(b);
        lemma_leftover_incomplete(b.skip(first_delim(b) + 1));
    }
}

/// The end-to-end law: a connection whose buffer holds exactly one
/// complete frame, the encoding of a delimiter-free message `s`, is owed
/// exactly one response frame, the handler's response to `s`, with
/// nothing left over and no error. With the identity handler the response
/// is `s` itself; with the reversal handler it is `s` reversed.
pub proof fn lemma_serve_one_frame<H: Handler>(h: H, s: Seq<char>)
    requires
        !s.contains('\n'),
    ensures
        ({
            let wire = encode_utf8(s) + seq![DELIM];
            &&& drains_clean(wire)
            &&& leftover(wire) == Seq::<u8>::empty()
            &&& responses(h, wire) == encode_utf8(h.response_spec(s)) + seq![DELIM]
        }),
{
    broadcast use encode_utf8_valid_utf8;
    broadcast use encode_utf8_decode_utf8;

    let e = encode_utf8(s);
    let wire = e + seq![DELIM];
    lemma_encode_has_delim(s);
    lemma_first_delim_terminated(e);
    assert(wire.take(first_delim(wire)) =~= e);
    assert(wire.skip(first_delim(wire) + 1) =~= Seq::<u8>::empty());
    assert(!has_delim(Seq::<u8>::empty()));
    assert(valid_utf8(e));
    assert(responses(h, Seq::<u8>::empty()) =~= Seq::<u8>::empty());
    assert(leftover(Seq::<u8>::empty()) =~= Seq::<u8>::empty());
    assert(drains_clean(Seq::<u8>::empty()));
    assert(responses(h, wire) =~= response_frame(h, e) + Seq::<u8>::empty());
    assert(responses(h, wire) =~= response_frame(h, e));
}

/// The framed duplex channel of one connection: the line codec attached
/// to that connection's receive buffer, which it owns exclusively.
/// When the transport reaches end of stream with a nonempty unterminated
/// remainder buffered, that remainder is deliberately discarded with the
/// dropped channel: an incomplete trailing frame is never delivered.
pub struct LineTransport {
    codec: LineCodec,
    rd: BytesMut,
}

impl LineTransport {
    /// The bytes read from the transport and not yet decoded.
    pub closed spec fn buffered(self) -> Seq<u8> {
        buf_bytes(self.rd)
    }

    /// Append bytes read from the transport to the receive buffer.
    pub fn feed(&mut self, data: &[u8])
        ensures
            final(self).buffered() == old(self).buffered() + data@,
    {
        buf_extend(&mut self.rd, data);
    }

    /// Try to decode one frame from the front of the receive buffer; the
    /// contract is the codec's, over the buffered bytes.
    pub fn poll_frame(&mut self) -> (r: Result<Option<String>, LineError>)
        ensures
            !has_delim(old(self).buffered()) ==> r == Ok::<Option<String>, LineError>(None)
                && final(self).buffered() == old(self).buffered(),
            has_delim(old(self).buffered()) ==> ({
                let b = old(self).buffered();
                let payload = b.take(first_delim(b));
                &&& final(self).buffered() == b.skip(first_delim(b) + 1)
                &&& valid_utf8(payload) ==> (r matches Ok(o) && o matches Some(s) && s@
                    == decode_utf8(payload))
                &&& !valid_utf8(payload) ==> r == Err::<Option<String>, LineError>(
                    LineError::InvalidUtf8,
                )
            }),
    {
        self.codec.decode(&mut self.rd)
    }

    /// Encode one outbound frame into the write buffer; the receive buffer
    /// is untouched.
    pub fn encode_frame(&mut self, msg: String, out: &mut BytesMut) -> (r: Result<(), LineError>)
        ensures
            r is Ok,
            buf_bytes(*final(out)) == buf_bytes(*old(out)) + encode_utf8(msg@) + seq![DELIM],
            final(self).buffered() == old(self).buffered(),
    {
        self.codec.encode(msg, out)
    }
}

/// The protocol binding: performed once per accepted connection.
pub struct LineProto;

impl LineProto {
    /// Bind one accepted connection: a fresh framed channel whose receive
    /// buffer is empty.
    pub fn bind_transport(&self) -> (t: LineTransport)
        ensures
            t.buffered() == Seq::<u8>::empty(),
    {
        LineTransport { codec: LineCodec, rd: buf_new() }
    }
}

/// One turn of a connection's dispatch loop: decode every complete frame
/// already buffered, in order; pass each frame's text to the handler and
/// append the encoded response to `out`. Responses keep request order.
/// The loop stops with [`ServeStatus::NeedRead`] when no complete frame
/// remains, and with [`ServeStatus::Closed`] at the first framing error;
/// the failing frame gets no partial response.
pub fn serve_available<H: Handler>(t: &mut LineTransport, h: &H, out: &mut BytesMut) -> (r:
    ServeStatus)
    ensures
        buf_bytes(*final(out)) == buf_bytes(*old(out)) + responses(*h, old(t).buffered()),
        final(t).buffered() == leftover(old(t).buffered()),
        (r == ServeStatus::NeedRead) <==> drains_clean(old(t).buffered()),
        (r == ServeStatus::Closed) <==> !drains_clean(old(t).buffered()),
{
    let ghost orig = old(t).buffered();
    let ghost out0 = buf_bytes(*old(out));
    let ghost mut written: Seq<u8> = Seq::empty();
    loop
        invariant
            buf_bytes(*out) == out0 + written,
            written + responses(*h, t.buffered()) == responses(*h, orig),
            leftover(t.buffered()) == leftover(orig),
            drains_clean(t.buffered()) == drains_clean(orig),
            out0 == buf_bytes(*old(out)),
            orig == old(t).buffered(),
        decreases t.buffered().len(),
    {
        proof {
            lemma_first_delim(t.buffered());
        }
        let ghost cur = t.buffered();
        match t.poll_frame() {
            Ok(Some(line)) => {
                let resp = h.call(line);
                let ghost p = cur.take(first_delim(cur));
                let _enc = t.encode_frame(resp, out);
                proof {
                    written = written + response_frame(*h, p);
                    assert(buf_bytes(*out) =~= out0 + written);
                    assert(written + responses(*h, t.buffered()) =~= responses(*h, orig));
                }
            },
            Ok(None) => {
                proof {
                    assert(written + responses(*h, cur) =~= written);
                }
                return ServeStatus::NeedRead;
            },
            Err(_) => {
                proof {
                    assert(written + responses(*h, cur) =~= written);
                }
                return ServeStatus::Closed;
            },
        }
    }
}

} // verus!
