//! The line codec: a symmetric transform between a raw byte buffer and
//! newline-delimited UTF-8 text frames.
//!
//! The wire format of one frame is the UTF-8 encoding of its characters
//! followed by a single delimiter byte (`\n`). The delimiter is never part
//! of the frame value itself.

use vstd::prelude::*;
use bytes::BytesMut;
use vstd::utf8::valid_utf8;
use vstd::utf8::decode_utf8;
use vstd::utf8::encode_utf8;
use vstd::utf8::encode_scalar;
use vstd::utf8::char_is_scalar;
use vstd::utf8::char_u32_cast;
use vstd::utf8::has_width_1_encoding;
use vstd::utf8::encode_utf8_valid_utf8;
use vstd::utf8::encode_utf8_decode_utf8;
use crate::buffer::buf_bytes;
use crate::buffer::buf_as_slice;
use crate::buffer::buf_split_to;
use crate::buffer::buf_extend;

verus! {

/// The frame delimiter byte, `\n`.
pub const DELIM: u8 = 10;

/// True when the buffer holds at least one delimiter byte, so that a
/// complete frame is available.
pub open spec fn has_delim(b: Seq<u8>) -> bool {
    exists|i: int| 0 <= i < b.len() && b[i] == DELIM
}

/// Index of the first delimiter byte in the buffer; the buffer's length
/// when it holds none.
pub open spec fn first_delim(b: Seq<u8>) -> int
    decreases b.len(),
{
    if b.len() == 0 {
        0
    } else if b[0] == DELIM {
        0
    } else {
        1 + first_delim(b.drop_first())
    }
}

/// `first_delim` points at the first delimiter: it is in bounds exactly
/// when a delimiter exists, and no earlier byte is a delimiter.
pub proof fn lemma_first_delim(b: Seq<u8>)
    ensures
        0 <= first_delim(b) <= b.len(),
        has_delim(b) ==> first_delim(b) < b.len() && b[first_delim(b)] == DELIM,
        !has_delim(b) ==> first_delim(b) == b.len(),
        forall|j: int| 0 <= j < first_delim(b) ==> b[j] != DELIM,
    decreases b.len(),
{
    if b.len() == 0 {
    } else if b[0] == DELIM {
    } else {
        let t = b.drop_first();
        lemma_first_delim(t);
        assert(forall|j: int| 0 <= j < t.len() ==> t[j] == b[j + 1]);
        if has_delim(b) {
            let i = choose|i: int| 0 <= i < b.len() && b[i] == DELIM;
            assert(t[i - 1] == DELIM);
            assert(has_delim(t));
        }
        if has_delim(t) {
            let i = choose|i: int| 0 <= i < t.len() && t[i] == DELIM;
            assert(b[i + 1] == DELIM);
            assert(has_delim(b));
        }
        assert forall|j: int| 0 <= j < first_delim(b) implies b[j] != DELIM by {
            if j >= 1 {
                assert(t[j - 1] != DELIM);
            }
        }
    }
}

/// A delimiter occurs in a concatenation exactly when it occurs in one of
/// the parts.
pub proof fn lemma_has_delim_concat(a: Seq<u8>, b: Seq<u8>)
    ensures
        has_delim(a + b) <==> has_delim(a) || has_delim(b),
{
    if has_delim(a) {
        let i = choose|i: int| 0 <= i < a.len() && a[i] == DELIM;
        assert((a + b)[i] == DELIM);
    }
    if has_delim(b) {
        let i = choose|i: int| 0 <= i < b.len() && b[i] == DELIM;
        assert((a + b)[a.len() + i] == DELIM);
    }
    if has_delim(a + b) {
        let i = choose|i: int| 0 <= i < (a + b).len() && (a + b)[i] == DELIM;
        if i < a.len() {
            assert(a[i] == DELIM);
        } else {
            assert(b[i - a.len()] == DELIM);
        }
    }
}

/// The UTF-8 encoding of one character contains the delimiter byte exactly
/// when the character is the delimiter itself: a multi-byte encoding
/// consists of bytes at or above `0x80` only.
pub proof fn lemma_scalar_delim(c: char)
    ensures
        has_delim(encode_scalar(c as u32)) <==> c == '\n',
{
    char_is_scalar(c);
    char_u32_cast(c, c as u32);
    char_u32_cast('\n', '\n' as u32);
    assert('\n' as u32 == 10);
    let v = c as u32;
    let e = encode_scalar(v);
    if has_width_1_encoding(v) {
        assert(v <= 0x7f ==> (((v & 0x7F) as u8 == 10) <==> v == 10)) by (bit_vector);
        assert(e =~= seq![(v & 0x7F) as u8]);
        if c == '\n' {
            assert(e[0] == DELIM);
        }
        if has_delim(e) {
            let i = choose|i: int| 0 <= i < e.len() && e[i] == DELIM;
            assert(i == 0);
            assert(v == 10);
            assert(c == '\n');
        }
    } else {
        assert(v >= 0x80);
        assert((0xC0u8 | (((v >> 6) & 0x1F) as u8)) != 10) by (bit_vector);
        assert((0xE0u8 | (((v >> 12) & 0x0F) as u8)) != 10) by (bit_vector);
        assert((0xF0u8 | (((v >> 18) & 0x7) as u8)) != 10) by (bit_vector);
        assert((0x80u8 | ((v & 0x3F) as u8)) != 10) by (bit_vector);
        assert((0x80u8 | (((v >> 6) & 0x3F) as u8)) != 10) by (bit_vector);
        assert((0x80u8 | (((v >> 12) & 0x3F) as u8)) != 10) by (bit_vector);
        assert(forall|i: int| 0 <= i < e.len() ==> e[i] != DELIM);
        assert(!has_delim(e));
        assert(c != '\n');
    }
}

/// The UTF-8 encoding of a character sequence contains the delimiter byte
/// exactly when the sequence contains the delimiter character.
pub proof fn lemma_encode_has_delim(s: Seq<char>)
    ensures
        has_delim(encode_utf8(s)) <==> s.contains('\n'),
    decreases s.len(),
{
    if s.len() == 0 {
        assert(!has_delim(encode_utf8(s)));
        assert(!s.contains('\n'));
    } else {
        let head = encode_scalar(s[0] as u32);
        let rest = s.drop_first();
        lemma_encode_has_delim(rest);
        lemma_scalar_delim(s[0]);
        lemma_has_delim_concat(head, encode_utf8(rest));
        if s.contains('\n') {
            let i = choose|i: int| 0 <= i < s.len() && s[i] == '\n';
            if i == 0 {
                assert(s[0] == '\n');
            } else {
                assert(rest[i - 1] == '\n');
                assert(rest.contains('\n'));
            }
        }
        if rest.contains('\n') {
            let i = choose|i: int| 0 <= i < rest.len() && rest[i] == '\n';
            assert(s[i + 1] == '\n');
            assert(s.contains('\n'));
        }
    }
}

/// In a buffer made of a delimiter-free payload followed by one delimiter,
/// the first delimiter is the final byte.
pub proof fn lemma_first_delim_terminated(e: Seq<u8>)
    requires
        !has_delim(e),
    ensures
        has_delim(e + seq![DELIM]),
        first_delim(e + seq![DELIM]) == e.len(),
    decreases e.len(),
{
    let b = e + seq![DELIM];
    assert(b[e.len() as int] == DELIM);
    if e.len() == 0 {
        assert(b[0] == DELIM);
    } else {
        assert(e[0] != DELIM);
        assert(b[0] != DELIM);
        assert(b.drop_first() =~= e.drop_first() + seq![DELIM]);
        assert(!has_delim(e.drop_first())) by {
            if has_delim(e.drop_first()) {
                let i = choose|i: int|
                    0 <= i < e.drop_first().len() && e.drop_first()[i] == DELIM;
                assert(e[i + 1] == DELIM);
            }
        }
        lemma_first_delim_terminated(e.drop_first());
    }
}

/// The round-trip law: encoding any delimiter-free message and then
/// decoding the resulting wire bytes yields exactly that message and
/// consumes the whole buffer. The wire bytes are what [`LineCodec::encode`]
/// appends; the frame boundary, payload and text are what
/// [`LineCodec::decode`] returns for them.
pub proof fn lemma_round_trip(s: Seq<char>)
    requires
        !s.contains('\n'),
    ensures
        ({
            let wire = encode_utf8(s) + seq![DELIM];
            &&& has_delim(wire)
            &&& wire.take(first_delim(wire)) == encode_utf8(s)
            &&& valid_utf8(wire.take(first_delim(wire)))
            &&& decode_utf8(wire.take(first_delim(wire))) == s
            &&& wire.skip(first_delim(wire) + 1) == Seq::<u8>::empty()
        }),
{
    broadcast use encode_utf8_valid_utf8;
    broadcast use encode_utf8_decode_utf8;

    let e = encode_utf8(s);
    let wire = e + seq![DELIM];
    lemma_encode_has_delim(s);
    lemma_first_delim_terminated(e);
    assert(wire.take(e.len() as int) =~= e);
    assert(wire.skip(e.len() as int + 1) =~= Seq::<u8>::empty());
}

/// The framing error: a completed frame's payload was not valid UTF-8.
/// It is fatal to the one connection that produced it.
#[derive(Clone, Copy, Debug, PartialEq, Eq, Structural)]
pub enum LineError {
    InvalidUtf8,
}

/// Relies on `core::str::from_utf8`: it succeeds exactly on valid UTF-8
/// input, returning the string slice viewing those same bytes, which thus
/// holds the characters they encode.
#[verifier::external_body]
fn utf8_to_string(b: &[u8]) -> (r: Option<String>)
    ensures
        r is Some <==> valid_utf8(b@),
        r matches Some(s) ==> s@ == decode_utf8(b@),
{
    match core::str::from_utf8(b) {
        Ok(s) => Some(s.to_string()),
        Err(_) => None,
    }
}

/// Position of the first delimiter byte in the slice, if any.
fn find_delim_in(s: &[u8]) -> (r: Option<usize>)
    ensures
        r matches Some(i) ==> has_delim(s@) && i == first_delim(s@),
        r is None ==> !has_delim(s@),
{
    let n = s.len();
    let mut i: usize = 0;
    while i < n
        invariant
            n == s@.len(),
            0 <= i <= n,
            forall|j: int| 0 <= j < i ==> s@[j] != DELIM,
        decreases n - i,
    {
        if s[i] == DELIM {
            proof {
                lemma_first_delim(s@);
                assert(has_delim(s@));
            }
            return Some(i);
        }
        i += 1;
    }
    proof {
        assert(!has_delim(s@));
    }
    None
}

/// The stateless line codec. Decoding scans for the first delimiter and
/// removes the completed frame from the front of the buffer; encoding
/// appends a frame's UTF-8 bytes and a delimiter to an output buffer.
pub struct LineCodec;

impl LineCodec {
    /// Decode one frame from the front of the buffer.
    ///
    /// Without a delimiter in the buffer no frame is complete: the buffer
    /// is left untouched and no frame is returned. Otherwise the payload
    /// before the first delimiter is removed from the buffer together with
    /// the delimiter, and is returned as text when it is valid UTF-8, or
    /// as a framing error when it is not.
    pub fn decode(&mut self, buf: &mut BytesMut) -> (r: Result<Option<String>, LineError>)
        ensures
            !has_delim(buf_bytes(*old(buf))) ==> r == Ok::<Option<String>, LineError>(None)
                && buf_bytes(*final(buf)) == buf_bytes(*old(buf)),
            has_delim(buf_bytes(*old(buf))) ==> ({
                let b = buf_bytes(*old(buf));
                let payload = b.take(first_delim(b));
                &&& buf_bytes(*final(buf)) == b.skip(first_delim(b) + 1)
                &&& valid_utf8(payload) ==> (r matches Ok(o) && o matches Some(s) && s@
                    == decode_utf8(payload))
                &&& !valid_utf8(payload) ==> r == Err::<Option<String>, LineError>(
                    LineError::InvalidUtf8,
                )
            }),
    {
        let ghost b = buf_bytes(*buf);
        proof {
            lemma_first_delim(b);
        }
        let found = {
            let s = buf_as_slice(buf);
            find_delim_in(s)
        };
        match found {
            None => Ok(None),
            Some(i) => {
                let line = buf_split_to(buf, i);
                let _delim = buf_split_to(buf, 1);
                proof {
                    assert(buf_bytes(*buf) =~= b.skip(i + 1));
                }
                let payload = buf_as_slice(&line);
                match utf8_to_string(payload) {
                    Some(text) => Ok(Some(text)),
                    None => Err(LineError::InvalidUtf8),
                }
            },
        }
    }

    /// Encode one frame: append the UTF-8 bytes of the message and a
    /// single delimiter byte to the output buffer. Never fails. A message
    /// that itself contains the delimiter is a protocol violation that the
    /// handler contract must prevent; the contract below states literally
    /// what reaches the wire either way.
    pub fn encode(&mut self, msg: String, buf: &mut BytesMut) -> (r: Result<(), LineError>)
        ensures
            r is Ok,
            buf_bytes(*final(buf)) == buf_bytes(*old(buf)) + encode_utf8(msg@) + seq![DELIM],
    {
        let ghost b0 = buf_bytes(*buf);
        buf_extend(buf, msg.as_str().as_bytes());
        let mut delim: Vec<u8> = Vec::new();
        delim.push(DELIM);
        buf_extend(buf, delim.as_slice());
        proof {
            assert(delim@ =~= seq![DELIM]);
            assert(buf_bytes(*buf) =~= b0 + encode_utf8(msg@) + seq![DELIM]);
        }
        Ok(())
    }
}

} // verus!
