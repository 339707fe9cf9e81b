//! Length-prefixed frames for daemon envelopes.
//!
//! A frame is a little-endian `u32` payload length followed by the payload.
//! This module frames and unframes payload bytes; turning envelopes into
//! bytes and back is done by the serialization layer around it.

use vstd::prelude::*;

use crate::protocol::{DaemonError, MAX_REQUEST_BYTES};

verus! {

/// Size of the length prefix.
pub const PREFIX_BYTES: usize = 4;

/// Size of the chunks in which an oversized body is skipped.
pub const SKIP_CHUNK_BYTES: usize = 8192;

/// The number a little-endian 4-byte prefix denotes.
pub open spec fn le_u32(b: Seq<u8>) -> nat {
    b[0] as nat + 256 * (b[1] as nat) + 65536 * (b[2] as nat) + 16777216 * (b[3] as nat)
}

/// The little-endian bytes of `n`, as `u32::to_le_bytes` gives them.
pub open spec fn le_bytes(n: nat) -> Seq<u8> {
    seq![
        (n % 256) as u8,
        ((n / 256) % 256) as u8,
        ((n / 65536) % 256) as u8,
        ((n / 16777216) % 256) as u8,
    ]
}

/// The frame that carries `payload`.
pub open spec fn frame(payload: Seq<u8>) -> Seq<u8> {
    le_bytes(payload.len()) + payload
}

/// What reading one frame from the front of a byte stream finds.
pub enum FrameRead {
    /// Fewer than four bytes were left for the length prefix.
    TruncatedPrefix,
    /// The prefix declares more than [`MAX_REQUEST_BYTES`].
    TooLarge(nat),
    /// The declared body runs past the end of the stream.
    TruncatedBody,
    /// A whole frame with this payload.
    Payload(Seq<u8>),
}

/// What the front of `s` holds, read as one frame.
pub open spec fn frame_read(s: Seq<u8>) -> FrameRead {
    if s.len() < 4 {
        FrameRead::TruncatedPrefix
    } else if le_u32(s) > MAX_REQUEST_BYTES {
        FrameRead::TooLarge(le_u32(s))
    } else if s.len() < 4 + le_u32(s) {
        FrameRead::TruncatedBody
    } else {
        FrameRead::Payload(s.subrange(4, 4 + le_u32(s) as int))
    }
}

/// How many bytes the plain decoder consumes from the front of `s`; a failed
/// read leaves the stream at its end.
pub open spec fn plain_consumed(s: Seq<u8>) -> nat {
    match frame_read(s) {
        FrameRead::TruncatedPrefix => s.len(),
        FrameRead::TooLarge(_) => 4,
        FrameRead::TruncatedBody => s.len(),
        FrameRead::Payload(p) => 4 + p.len(),
    }
}

/// How many bytes the recovering decoder consumes: it also skips the declared
/// body of an oversized frame, or reaches the end when that body is cut short.
pub open spec fn recovering_consumed(s: Seq<u8>) -> nat {
    match frame_read(s) {
        FrameRead::TooLarge(n) => if s.len() >= 4 + n {
            (4 + n) as nat
        } else {
            s.len()
        },
        _ => plain_consumed(s),
    }
}

/// Whether `detail` is the message that names a cut-short prefix.
pub open spec fn is_truncated_prefix(e: DaemonError) -> bool {
    e == DaemonError::Malformed { detail: e->Malformed_detail } && e->Malformed_detail@
        == "truncated length prefix"@
}

/// Whether `e` is the error for a cut-short body.
pub open spec fn is_truncated_body(e: DaemonError) -> bool {
    e == DaemonError::Malformed { detail: e->Malformed_detail } && e->Malformed_detail@
        == "truncated frame body"@
}

/// Whether `e` is the error for an oversized body that could not be skipped.
pub open spec fn is_skip_failure(e: DaemonError) -> bool {
    e == DaemonError::Malformed { detail: e->Malformed_detail } && e->Malformed_detail@
        == "skip oversized: failed to fill whole buffer"@
}

/// Whether `res` reports the outcome `r` of the plain decoder.
pub open spec fn reports(res: Result<Vec<u8>, DaemonError>, r: FrameRead) -> bool {
    match r {
        FrameRead::TruncatedPrefix => res is Err && is_truncated_prefix(res->Err_0),
        FrameRead::TooLarge(n) => res == Err::<Vec<u8>, DaemonError>(
            DaemonError::RequestTooLarge { bytes: n as usize, limit: MAX_REQUEST_BYTES },
        ),
        FrameRead::TruncatedBody => res is Err && is_truncated_body(res->Err_0),
        FrameRead::Payload(p) => res is Ok && res->Ok_0@ == p,
    }
}

/// Whether `res` reports what the recovering decoder finds at the front of `s`.
pub open spec fn reports_recovering(res: Result<Vec<u8>, DaemonError>, s: Seq<u8>) -> bool {
    match frame_read(s) {
        FrameRead::TooLarge(n) => if s.len() >= 4 + n {
            reports(res, frame_read(s))
        } else {
            res is Err && is_skip_failure(res->Err_0)
        },
        other => reports(res, other),
    }
}

/// An in-memory byte stream read from front to back, as `std::io::Cursor`
/// reads a buffer: a read that cannot be filled consumes the rest.
pub struct FrameReader {
    data: Vec<u8>,
    pos: usize,
}

impl FrameReader {
    #[verifier::type_invariant]
    spec fn position_in_bounds(self) -> bool {
        self.pos <= self.data.len()
    }

    /// The bytes not read yet.
    pub closed spec fn remaining(self) -> Seq<u8> {
        self.data@.skip(self.pos as int)
    }

    /// All bytes of the stream.
    pub closed spec fn contents(self) -> Seq<u8> {
        self.data@
    }

    /// The read position.
    pub closed spec fn position(self) -> nat {
        self.pos as nat
    }

    /// A stream over `data`, positioned at its start.
    pub fn new(data: Vec<u8>) -> (res: Self)
        ensures
            res.contents() == data@,
            res.position() == 0,
            res.remaining() == data@,
    {
        let res = FrameReader { data, pos: 0 };
        assert(res.data@.skip(0) == res.data@);
        res
    }

    /// How many bytes have been read.
    pub fn consumed(&self) -> (res: usize)
        ensures
            res == self.position(),
    {
        self.pos
    }

    /// Reads exactly `n` bytes, or consumes the rest and gives `None` when
    /// fewer are left.
    fn read_exact(&mut self, n: usize) -> (res: Option<Vec<u8>>)
        ensures
            final(self).contents() == old(self).contents(),
            old(self).remaining().len() >= n ==> {
                &&& res is Some
                &&& res->Some_0@ == old(self).remaining().take(n as int)
                &&& final(self).position() == old(self).position() + n
                &&& final(self).remaining() == old(self).remaining().skip(n as int)
            },
            old(self).remaining().len() < n ==> {
                &&& res is None
                &&& final(self).position() == old(self).contents().len()
                &&& final(self).remaining().len() == 0
            },
    {
        proof {
            use_type_invariant(&*self);
        }
        let len = self.data.len();
        if len - self.pos < n {
            self.pos = len;
            assert(self.data@.skip(len as int).len() == 0);
            return None;
        }
        let start = self.pos;
        let mut out: Vec<u8> = Vec::with_capacity(n);
        let mut i: usize = 0;
        while i < n
            invariant
                start + n <= self.data@.len(),
                self.pos == start,
                self.pos <= self.data.len(),
                i <= n,
                out@ == self.data@.subrange(start as int, start + i),
            decreases n - i,
        {
            out.push(self.data[start + i]);
            i = i + 1;
        }
        self.pos = start + n;
        assert(out@ == self.data@.skip(start as int).take(n as int));
        assert(self.data@.skip(start + n) == self.data@.skip(start as int).skip(n as int));
        Some(out)
    }
}

/// The value of four little-endian bytes.
fn read_le_u32(b: &Vec<u8>) -> (res: usize)
    requires
        b@.len() == 4,
    ensures
        res == le_u32(b@),
{
    (b[0] as usize) + 256 * (b[1] as usize) + 65536 * (b[2] as usize) + 16777216 * (b[3] as usize)
}

proof fn lemma_le_bytes_round_trip(n: nat)
    requires
        n <= u32::MAX,
    ensures
        le_u32(le_bytes(n)) == n,
        le_bytes(n).len() == 4,
{
    let b = le_bytes(n);
    assert(b[0] as nat == n % 256);
    assert(b[1] as nat == (n / 256) % 256);
    assert(b[2] as nat == (n / 65536) % 256);
    assert(b[3] as nat == (n / 16777216) % 256);
    assert(n == n % 256 + 256 * ((n / 256) % 256) + 65536 * ((n / 65536) % 256) + 16777216 * ((n
        / 16777216) % 256)) by (nonlinear_arith)
        requires
            n <= u32::MAX,
    ;
}

/// Frames `payload`: its length as a little-endian `u32`, then the payload.
/// A payload above [`MAX_REQUEST_BYTES`] is refused with `RequestTooLarge`.
pub fn encode(payload: &[u8]) -> (res: Result<Vec<u8>, DaemonError>)
    ensures
        payload@.len() > MAX_REQUEST_BYTES ==> res == Err::<Vec<u8>, DaemonError>(
            DaemonError::RequestTooLarge { bytes: payload@.len() as usize, limit: MAX_REQUEST_BYTES },
        ),
        payload@.len() <= MAX_REQUEST_BYTES ==> res is Ok && res->Ok_0@ == frame(payload@),
{
    let len = payload.len();
    if len > MAX_REQUEST_BYTES {
        return Err(DaemonError::RequestTooLarge { bytes: len, limit: MAX_REQUEST_BYTES });
    }
    let mut out: Vec<u8> = Vec::with_capacity(4 + len);
    out.push((len % 256) as u8);
    out.push(((len / 256) % 256) as u8);
    out.push(((len / 65536) % 256) as u8);
    out.push(((len / 16777216) % 256) as u8);
    assert(out@ == le_bytes(len as nat));
    let mut i: usize = 0;
    while i < len
        invariant
            len == payload@.len(),
            i <= len,
            out@ == le_bytes(len as nat) + payload@.take(i as int),
        decreases len - i,
    {
        out.push(payload[i]);
        assert(payload@.take(i + 1) == payload@.take(i as int).push(payload@[i as int]));
        i = i + 1;
    }
    assert(payload@.take(len as int) == payload@);
    Ok(out)
}

/// Skips `bytes` bytes of an oversized frame's declared body, in chunks, so
/// that a following frame on the same stream can be read. Fails with
/// `Malformed` when the stream ends first, leaving it at its end.
pub fn skip_oversized_body(reader: &mut FrameReader, bytes: usize) -> (res: Result<
    (),
    DaemonError,
>)
    ensures
        final(reader).contents() == old(reader).contents(),
        old(reader).remaining().len() >= bytes ==> {
            &&& res is Ok
            &&& final(reader).position() == old(reader).position() + bytes
            &&& final(reader).remaining() == old(reader).remaining().skip(bytes as int)
        },
        old(reader).remaining().len() < bytes ==> {
            &&& res is Err
            &&& is_skip_failure(res->Err_0)
            &&& final(reader).position() == old(reader).contents().len()
        },
{
    let ghost start = reader.remaining();
    let ghost start_pos = reader.position();
    let mut remaining = bytes;
    while remaining > 0
        invariant
            remaining <= bytes,
            reader.contents() == old(reader).contents(),
            start == old(reader).remaining(),
            start_pos == old(reader).position(),
            start.len() >= bytes - remaining,
            reader.remaining() == start.skip(bytes - remaining),
            reader.position() == start_pos + (bytes - remaining),
        decreases remaining,
    {
        let n = if remaining < SKIP_CHUNK_BYTES {
            remaining
        } else {
            SKIP_CHUNK_BYTES
        };
        match reader.read_exact(n) {
            Some(_) => {
                remaining = remaining - n;
                assert(start.skip(bytes - remaining) == start.skip(bytes - (remaining + n)).skip(
                    n as int,
                ));
            },
            None => {
                return Err(
                    DaemonError::Malformed {
                        detail: "skip oversized: failed to fill whole buffer".to_owned(),
                    },
                );
            },
        }
    }
    Ok(())
}

/// Reads the length prefix of the next frame, or reports a cut-short prefix.
fn read_prefix(reader: &mut FrameReader) -> (res: Result<usize, DaemonError>)
    ensures
        final(reader).contents() == old(reader).contents(),
        old(reader).remaining().len() >= 4 ==> {
            &&& res == Ok::<usize, DaemonError>(le_u32(old(reader).remaining()) as usize)
            &&& final(reader).position() == old(reader).position() + 4
            &&& final(reader).remaining() == old(reader).remaining().skip(4)
        },
        old(reader).remaining().len() < 4 ==> {
            &&& res is Err
            &&& is_truncated_prefix(res->Err_0)
            &&& final(reader).position() == old(reader).contents().len()
        },
{
    match reader.read_exact(PREFIX_BYTES) {
        Some(b) => Ok(read_le_u32(&b)),
        None => Err(DaemonError::Malformed { detail: "truncated length prefix".to_owned() }),
    }
}

/// Reads a body of `len` bytes, or reports a cut-short body.
fn read_body(reader: &mut FrameReader, len: usize) -> (res: Result<Vec<u8>, DaemonError>)
    ensures
        final(reader).contents() == old(reader).contents(),
        old(reader).remaining().len() >= len ==> {
            &&& res is Ok
            &&& res->Ok_0@ == old(reader).remaining().take(len as int)
            &&& final(reader).position() == old(reader).position() + len
        },
        old(reader).remaining().len() < len ==> {
            &&& res is Err
            &&& is_truncated_body(res->Err_0)
            &&& final(reader).position() == old(reader).contents().len()
        },
{
    match reader.read_exact(len) {
        Some(b) => Ok(b),
        None => Err(DaemonError::Malformed { detail: "truncated frame body".to_owned() }),
    }
}

/// Reads one frame and gives its payload. The declared length is checked
/// against [`MAX_REQUEST_BYTES`] before the body is read.
pub fn decode_one(reader: &mut FrameReader) -> (res: Result<Vec<u8>, DaemonError>)
    ensures
        final(reader).contents() == old(reader).contents(),
        reports(res, frame_read(old(reader).remaining())),
        final(reader).position() == old(reader).position() + plain_consumed(
            old(reader).remaining(),
        ),
{
    let ghost s = reader.remaining();
    proof {
        use_type_invariant(&*reader);
    }
    let len = read_prefix(reader)?;
    if len > MAX_REQUEST_BYTES {
        return Err(DaemonError::RequestTooLarge { bytes: len, limit: MAX_REQUEST_BYTES });
    }
    let ghost body = reader.remaining();
    let res = read_body(reader, len);
    proof {
        assert(body == s.skip(4));
        if s.len() >= 4 + len {
            assert(body.take(len as int) == s.subrange(4, 4 + len));
        }
    }
    res
}

/// Reads one frame like [`decode_one`]; on `RequestTooLarge` it first skips
/// the declared body, so that a subsequent frame on the same stream can be
/// read.
pub fn decode_one_recovering(reader: &mut FrameReader) -> (res: Result<Vec<u8>, DaemonError>)
    ensures
        final(reader).contents() == old(reader).contents(),
        reports_recovering(res, old(reader).remaining()),
        final(reader).position() == old(reader).position() + recovering_consumed(
            old(reader).remaining(),
        ),
{
    let ghost s = reader.remaining();
    proof {
        use_type_invariant(&*reader);
    }
    let len = read_prefix(reader)?;
    if len > MAX_REQUEST_BYTES {
        skip_oversized_body(reader, len)?;
        return Err(DaemonError::RequestTooLarge { bytes: len, limit: MAX_REQUEST_BYTES });
    }
    let ghost body = reader.remaining();
    let res = read_body(reader, len);
    proof {
        assert(body == s.skip(4));
        if s.len() >= 4 + len {
            assert(body.take(len as int) == s.subrange(4, 4 + len));
        }
    }
    res
}

/// A framed payload reads back as itself, whatever follows it on the stream,
/// and both decoders consume exactly its frame.
pub proof fn lemma_frame_round_trip(payload: Seq<u8>, rest: Seq<u8>)
    requires
        payload.len() <= MAX_REQUEST_BYTES,
    ensures
        frame_read(frame(payload) + rest) == FrameRead::Payload(payload),
        plain_consumed(frame(payload) + rest) == 4 + payload.len(),
        recovering_consumed(frame(payload) + rest) == 4 + payload.len(),
{
    let s = frame(payload) + rest;
    lemma_le_bytes_round_trip(payload.len());
    assert(s.subrange(0, 4) == le_bytes(payload.len()));
    assert(le_u32(s) == le_u32(le_bytes(payload.len())));
    assert(s.subrange(4, 4 + payload.len() as int) == payload);
}

/// After an oversized frame whose declared body is present, the recovering
/// decoder stops exactly where the next frame starts, so that frame reads
/// back as its own payload.
pub proof fn lemma_oversized_frame_is_skipped(declared: nat, body: Seq<u8>, next: Seq<u8>)
    requires
        MAX_REQUEST_BYTES < declared <= u32::MAX,
        body.len() == declared,
        next.len() <= MAX_REQUEST_BYTES,
    ensures
        ({
            let s = le_bytes(declared) + body + frame(next);
            &&& frame_read(s) == FrameRead::TooLarge(declared)
            &&& recovering_consumed(s) == 4 + declared
            &&& s.skip(4 + declared as int) == frame(next)
            &&& frame_read(s.skip(4 + declared as int)) == FrameRead::Payload(next)
        }),
{
    let s = le_bytes(declared) + body + frame(next);
    lemma_le_bytes_round_trip(declared);
    assert(s.subrange(0, 4) == le_bytes(declared));
    assert(le_u32(s) == le_u32(le_bytes(declared)));
    assert(s.skip(4 + declared as int) == frame(next));
    lemma_frame_round_trip(next, Seq::empty());
    assert(frame(next) + Seq::<u8>::empty() == frame(next));
}

} // verus!
