//! The nine-byte frames of the protocol and the decoder that cuts them out of
//! a byte stream that arrives in pieces of any size.
use vstd::prelude::*;
use tokio_util::bytes::BytesMut;
use crate::wire::{be_i32, to_num};

verus! {

/// Every frame is a tag byte followed by two big-endian `i32` fields.
pub const FRAME_LEN: usize = 9;

/// Tag byte of an insert frame (`'I'`).
pub const TAG_INSERT: u8 = 0x49;

/// Tag byte of a query frame (`'Q'`).
pub const TAG_QUERY: u8 = 0x51;

/// One decoded frame.
#[derive(Debug, Clone, Copy, PartialEq, Eq, Structural)]
pub enum Message {
    Insert { timestamp: i32, price: i32 },
    Query { start: i32, end: i32 },
    Invalid,
}

/// The message that nine bytes of a frame stand for: the tag selects the
/// kind, the two following four-byte fields give its values, and any other
/// tag gives `Invalid`.
pub open spec fn message_of(f: Seq<u8>) -> Message {
    let a = be_i32(f.subrange(1, 5)) as i32;
    let b = be_i32(f.subrange(5, 9)) as i32;
    if f[0] == TAG_INSERT {
        Message::Insert { timestamp: a, price: b }
    } else if f[0] == TAG_QUERY {
        Message::Query { start: a, end: b }
    } else {
        Message::Invalid
    }
}

/// The messages of all complete frames at the front of `s`, in order.
pub open spec fn frames(s: Seq<u8>) -> Seq<Message> {
    Seq::new(s.len() / 9, |i: int| message_of(s.subrange(9 * i, 9 * i + 9)))
}

/// What is left of `s` after its complete frames: fewer than nine bytes.
pub open spec fn rest(s: Seq<u8>) -> Seq<u8> {
    s.skip(9 * (s.len() / 9) as int)
}

#[verifier::external_type_specification]
#[verifier::external_body]
pub struct ExBytesMut(BytesMut);

/// The bytes that a `BytesMut` holds, front first.
pub uninterp spec fn buffered(b: BytesMut) -> Seq<u8>;

/// Relies on `BytesMut::new`: the new buffer holds no bytes.
pub assume_specification[ BytesMut::new ]() -> (r: BytesMut)
    ensures
        buffered(r) == Seq::<u8>::empty(),
;

/// Relies on `BytesMut::len`: the number of bytes held.
pub assume_specification[ BytesMut::len ](b: &BytesMut) -> (r: usize)
    ensures
        r as int == buffered(*b).len(),
;

/// Relies on `BytesMut::extend_from_slice`: the bytes are appended at the
/// end; it panics only where the new length overflows `usize`.
pub assume_specification[ BytesMut::extend_from_slice ](b: &mut BytesMut, extend: &[u8])
    requires
        buffered(*old(b)).len() + extend@.len() <= usize::MAX,
    ensures
        buffered(*final(b)) == buffered(*old(b)) + extend@,
;

/// Relies on indexing a `BytesMut` through its slice: the byte at `i`.
#[verifier::external_body]
fn byte_at(b: &BytesMut, i: usize) -> (r: u8)
    requires
        i < buffered(*b).len(),
    ensures
        r == buffered(*b)[i as int],
{
    b[i]
}

/// Relies on `Buf::advance` of `BytesMut`: the first `n` bytes are dropped;
/// it panics only where `n` exceeds the length.
#[verifier::external_body]
fn advance(b: &mut BytesMut, n: usize)
    requires
        n <= buffered(*old(b)).len(),
    ensures
        buffered(*final(b)) == buffered(*old(b)).skip(n as int),
{
    tokio_util::bytes::Buf::advance(b, n)
}

/// Decodes one complete frame. Decoding never fails: an unknown tag gives
/// `Message::Invalid`.
pub fn decode_message(frame: &[u8]) -> (r: Message)
    requires
        frame@.len() == 9,
    ensures
        r == message_of(frame@),
{
    let a = to_num(vstd::slice::slice_subrange(frame, 1, 5));
    let b = to_num(vstd::slice::slice_subrange(frame, 5, 9));
    let tag = frame[0];
    if tag == TAG_INSERT {
        Message::Insert { timestamp: a, price: b }
    } else if tag == TAG_QUERY {
        Message::Query { start: a, end: b }
    } else {
        Message::Invalid
    }
}

/// Takes the first frame off the front of `src`. With fewer than nine bytes
/// buffered nothing is decoded and the buffer is left as it is.
pub fn decode_frame(src: &mut BytesMut) -> (r: Option<Message>)
    ensures
        buffered(*old(src)).len() < 9 ==> r is None && buffered(*final(src)) == buffered(
            *old(src),
        ),
        buffered(*old(src)).len() >= 9 ==> r == Some(message_of(buffered(*old(src)).take(9)))
            && buffered(*final(src)) == buffered(*old(src)).skip(9),
{
    if src.len() < FRAME_LEN {
        return None;
    }
    let mut frame: Vec<u8> = Vec::new();
    let mut i: usize = 0;
    while i < FRAME_LEN
        invariant
            i <= 9,
            buffered(*src).len() >= 9,
            frame@ == buffered(*src).take(i as int),
        decreases 9 - i,
    {
        frame.push(byte_at(src, i));
        i += 1;
        proof {
            assert(frame@ =~= buffered(*src).take(i as int));
        }
    }
    let m = decode_message(frame.as_slice());
    advance(src, FRAME_LEN);
    Some(m)
}

/// A per-connection frame decoder: bytes are fed in as they arrive and every
/// complete frame comes out exactly once, in order.
pub struct FrameDecoder {
    buf: BytesMut,
}

impl FrameDecoder {
    /// The bytes received but not yet decoded.
    pub closed spec fn pending(&self) -> Seq<u8> {
        buffered(self.buf)
    }

    /// A decoder never holds a complete frame between two feeds.
    pub open spec fn wf(&self) -> bool {
        self.pending().len() < 9
    }

    pub fn new() -> (r: FrameDecoder)
        ensures
            r.pending() == Seq::<u8>::empty(),
            r.wf(),
    {
        FrameDecoder { buf: BytesMut::new() }
    }

    /// The number of bytes received but not yet decoded.
    pub fn pending_len(&self) -> (r: usize)
        ensures
            r as int == self.pending().len(),
    {
        self.buf.len()
    }

    /// Appends `chunk` to the pending bytes and decodes every complete frame.
    pub fn feed(&mut self, chunk: &[u8]) -> (r: Vec<Message>)
        requires
            old(self).wf(),
            chunk@.len() + 9 <= usize::MAX,
        ensures
            final(self).wf(),
            r@ == frames(old(self).pending() + chunk@),
            final(self).pending() == rest(old(self).pending() + chunk@),
    {
        self.buf.extend_from_slice(chunk);
        let ghost s = self.pending();
        let mut out: Vec<Message> = Vec::new();
        let ghost mut k: int = 0;
        while self.buf.len() >= FRAME_LEN
            invariant
                0 <= k <= s.len() / 9,
                self.pending() == s.skip(9 * k),
                out@ == frames(s).take(k),
            decreases self.pending().len(),
        {
            let ghost before = self.pending();
            let m = decode_frame(&mut self.buf);
            proof {
                assert(k + 1 <= s.len() / 9);
                assert(before.take(9) =~= s.subrange(9 * k, 9 * k + 9));
                assert(self.pending() =~= s.skip(9 * (k + 1)));
            }
            if let Some(m) = m {
                out.push(m);
            }
            proof {
                assert(out@ =~= frames(s).take(k + 1));
                k = k + 1;
            }
        }
        proof {
            assert(k == s.len() / 9);
            assert(out@ =~= frames(s));
        }
        out
    }
}

/// The messages that a fresh decoder hands out, feed by feed, when it is
/// given `chunks` one after another while it holds `pending`.
pub open spec fn fed(pending: Seq<u8>, chunks: Seq<Seq<u8>>) -> Seq<Message>
    decreases chunks.len(),
{
    if chunks.len() == 0 {
        Seq::empty()
    } else {
        let s = pending + chunks[0];
        frames(s) + fed(rest(s), chunks.drop_first())
    }
}

/// Decoding `x` and then the remainder followed by `b` gives the messages
/// and the remainder that decoding `x + b` at once gives.
pub proof fn lemma_frames_append(x: Seq<u8>, b: Seq<u8>)
    ensures
        frames(x) + frames(rest(x) + b) == frames(x + b),
        rest(rest(x) + b) == rest(x + b),
{
    let n = (x.len() / 9) as int;
    let q = 9 * n;
    let y = rest(x) + b;
    let xb = x + b;
    assert(y =~= xb.skip(q));
    vstd::arithmetic::div_mod::lemma_hoist_over_denominator(y.len() as int, n, 9);
    assert(xb.len() as int == y.len() + n * 9);
    let m = (y.len() / 9) as int;
    assert(xb.len() / 9 == n + m);
    let lhs = frames(x) + frames(y);
    let rhs = frames(xb);
    assert forall|i: int| 0 <= i < n + m implies #[trigger] lhs[i] == rhs[i] by {
        if i < n {
            assert(xb.subrange(9 * i, 9 * i + 9) =~= x.subrange(9 * i, 9 * i + 9));
        } else {
            assert(xb.subrange(9 * i, 9 * i + 9) =~= y.subrange(9 * (i - n), 9 * (i - n) + 9));
        }
    }
    assert(lhs =~= rhs);
    assert(rest(y) =~= rest(xb));
}

/// Fragmentation does not matter: feeding a decoder the pieces of a byte
/// stream one by one yields the same messages as feeding it the whole
/// stream in a single piece.
pub proof fn lemma_fragmentation_invariance(chunks: Seq<Seq<u8>>)
    ensures
        fed(Seq::empty(), chunks) == frames(chunks.flatten()),
{
    lemma_fed_from(Seq::empty(), chunks);
    assert(Seq::<u8>::empty() + chunks.flatten() =~= chunks.flatten());
}

/// Feeding `chunks` to a decoder that holds `pending` yields the messages
/// of `pending` followed by all the chunks.
pub proof fn lemma_fed_from(pending: Seq<u8>, chunks: Seq<Seq<u8>>)
    requires
        pending.len() < 9,
    ensures
        fed(pending, chunks) == frames(pending + chunks.flatten()),
    decreases chunks.len(),
{
    if chunks.len() == 0 {
        assert(pending + chunks.flatten() =~= pending);
        assert(frames(pending).len() == 0);
        assert(fed(pending, chunks) =~= frames(pending));
    } else {
        let s = pending + chunks[0];
        let tail = chunks.drop_first();
        assert(rest(s).len() < 9);
        lemma_fed_from(rest(s), tail);
        lemma_frames_append(s, tail.flatten());
        assert(s + tail.flatten() =~= pending + chunks.flatten());
    }
}

} // verus!
