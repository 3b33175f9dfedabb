//! The gRPC-Web body framing: `[flag:1][length:4 big-endian][payload]`.
//! Flag `0x00` marks a message frame, flag `0x80` a trailer frame; any
//! other flag bit is reserved and malformed. The decoder is streaming:
//! it buffers bytes as they arrive and yields each frame exactly once,
//! never asking for already-consumed bytes again.

use vstd::prelude::*;

use crate::AdapterError;

verus! {

/// Flag byte of a message frame.
pub const MESSAGE_FLAG: u8 = 0x00;

/// Flag byte of a trailer frame.
pub const TRAILER_FLAG: u8 = 0x80;

/// One decoded unit of the body wire format.
#[derive(Debug, Clone, PartialEq, Eq)]
pub enum Frame {
    Message(Vec<u8>),
    Trailer(Vec<u8>),
}

/// The mathematical shape of a frame: its kind and payload bytes.
pub enum FrameModel {
    Message(Seq<u8>),
    Trailer(Seq<u8>),
}

impl View for Frame {
    type V = FrameModel;

    open spec fn view(&self) -> FrameModel {
        match self {
            Frame::Message(p) => FrameModel::Message(p@),
            Frame::Trailer(p) => FrameModel::Trailer(p@),
        }
    }
}

/// The flag byte that encodes a frame's kind.
pub open spec fn frame_flag(f: FrameModel) -> u8 {
    match f {
        FrameModel::Message(_) => MESSAGE_FLAG,
        FrameModel::Trailer(_) => TRAILER_FLAG,
    }
}

/// A frame's payload bytes.
pub open spec fn frame_payload(f: FrameModel) -> Seq<u8> {
    match f {
        FrameModel::Message(p) => p,
        FrameModel::Trailer(p) => p,
    }
}

/// The four big-endian bytes of `n`.
pub open spec fn be32(n: u32) -> Seq<u8> {
    seq![
        ((n >> 24) & 0xff) as u8,
        ((n >> 16) & 0xff) as u8,
        ((n >> 8) & 0xff) as u8,
        (n & 0xff) as u8,
    ]
}

/// The value read back from four big-endian bytes.
pub open spec fn be32_val(b: Seq<u8>) -> u32
    recommends
        b.len() == 4,
{
    (((b[0] as u32) << 24) | ((b[1] as u32) << 16) | ((b[2] as u32) << 8) | (b[3] as u32)) as u32
}

/// Writing a length and reading it back is the identity.
pub proof fn lemma_be32_round_trip(n: u32)
    ensures
        be32(n).len() == 4,
        be32_val(be32(n)) == n,
{
    let b0 = ((n >> 24) & 0xff) as u8;
    let b1 = ((n >> 16) & 0xff) as u8;
    let b2 = ((n >> 8) & 0xff) as u8;
    let b3 = (n & 0xff) as u8;
    assert((((b0 as u32) << 24) | ((b1 as u32) << 16) | ((b2 as u32) << 8) | (b3 as u32)) as u32
        == n) by (bit_vector)
        requires
            b0 == ((n >> 24) & 0xff) as u8,
            b1 == ((n >> 16) & 0xff) as u8,
            b2 == ((n >> 8) & 0xff) as u8,
            b3 == (n & 0xff) as u8,
    ;
}

/// The encoded bytes of one frame.
pub open spec fn spec_encode_frame(f: FrameModel) -> Seq<u8>
    recommends
        frame_payload(f).len() <= u32::MAX,
{
    seq![frame_flag(f)] + be32(frame_payload(f).len() as u32) + frame_payload(f)
}

/// Only the trailer bit may be set in a flag byte.
pub open spec fn valid_flag(b: u8) -> bool {
    b == MESSAGE_FLAG || b == TRAILER_FLAG
}

/// What one parsing step sees at the front of a buffer.
pub enum ParseOutcome {
    /// A whole frame is present, spanning `used` bytes of the buffer.
    Complete { frame: FrameModel, used: int },
    /// The buffer holds a prefix of a frame; more bytes are needed.
    Incomplete,
    /// The flag byte has reserved bits set.
    Malformed,
    /// The declared payload length exceeds the configured maximum.
    TooLarge,
}

/// Parses the frame at the front of `buf`, enforcing the payload
/// maximum `max`.
pub open spec fn spec_parse_frame(buf: Seq<u8>, max: u32) -> ParseOutcome {
    if buf.len() == 0 {
        ParseOutcome::Incomplete
    } else if !valid_flag(buf[0]) {
        ParseOutcome::Malformed
    } else if buf.len() < 5 {
        ParseOutcome::Incomplete
    } else {
        let n = be32_val(buf.subrange(1, 5));
        if n > max {
            ParseOutcome::TooLarge
        } else if buf.len() < 5 + n {
            ParseOutcome::Incomplete
        } else {
            let payload = buf.subrange(5, 5 + n);
            ParseOutcome::Complete {
                frame: if buf[0] == TRAILER_FLAG {
                    FrameModel::Trailer(payload)
                } else {
                    FrameModel::Message(payload)
                },
                used: 5 + n,
            }
        }
    }
}

/// All the frames fully present in `buf`, in order, up to the first
/// error or incomplete tail.
pub open spec fn spec_frames(buf: Seq<u8>, max: u32) -> Seq<FrameModel>
    decreases buf.len(),
{
    match spec_parse_frame(buf, max) {
        ParseOutcome::Complete { frame, used } => if 0 < used <= buf.len() {
            seq![frame] + spec_frames(buf.skip(used), max)
        } else {
            seq![frame]
        },
        _ => seq![],
    }
}

/// The bytes left after every fully present frame of `buf` has been
/// consumed.
pub open spec fn spec_decoder_leftover(buf: Seq<u8>, max: u32) -> Seq<u8>
    decreases buf.len(),
{
    match spec_parse_frame(buf, max) {
        ParseOutcome::Complete { used, .. } => if 0 < used <= buf.len() {
            spec_decoder_leftover(buf.skip(used), max)
        } else {
            buf
        },
        _ => buf,
    }
}

/// Round trip of the codec: a frame's encoding, whatever bytes follow
/// it, parses back to exactly that frame, consuming exactly its
/// encoded length.
pub proof fn lemma_frame_round_trip(f: FrameModel, rest: Seq<u8>, max: u32)
    requires
        frame_payload(f).len() <= max,
    ensures
        spec_parse_frame(spec_encode_frame(f) + rest, max) matches ParseOutcome::Complete {
            frame,
            used,
        } && frame == f && used == 5 + frame_payload(f).len(),
{
    let p = frame_payload(f);
    let n = p.len() as u32;
    let w = spec_encode_frame(f) + rest;
    lemma_be32_round_trip(n);
    assert(w[0] == frame_flag(f));
    assert(w.subrange(1, 5) =~= be32(n));
    assert(be32_val(w.subrange(1, 5)) == n);
    assert(w.subrange(5, 5 + n) =~= p);
    match f {
        FrameModel::Message(_) => {
            assert(spec_parse_frame(w, max) matches ParseOutcome::Complete { frame, used }
                && frame == FrameModel::Message(p) && used == 5 + p.len());
        },
        FrameModel::Trailer(_) => {
            assert(spec_parse_frame(w, max) matches ParseOutcome::Complete { frame, used }
                && frame == FrameModel::Trailer(p) && used == 5 + p.len());
        },
    }
}

/// Growing the buffer never changes an already-determined outcome:
/// a complete frame stays that same frame, and a malformed or
/// oversized frame stays in error.
pub proof fn lemma_parse_extend(buf: Seq<u8>, ext: Seq<u8>, max: u32)
    ensures
        !(spec_parse_frame(buf, max) is Incomplete) ==> spec_parse_frame(buf + ext, max)
            == spec_parse_frame(buf, max),
{
    let w = buf + ext;
    if buf.len() > 0 {
        assert(w[0] == buf[0]);
        if valid_flag(buf[0]) && buf.len() >= 5 {
            assert(w.subrange(1, 5) =~= buf.subrange(1, 5));
            let n = be32_val(buf.subrange(1, 5));
            if n <= max && buf.len() >= 5 + n {
                assert(w.subrange(5, 5 + n) =~= buf.subrange(5, 5 + n));
            }
        }
    }
}

/// Chunk-boundary independence of decoding: feeding `b1` and then `b2`
/// yields the frames of `b1` followed by the frames of `b1`'s
/// unconsumed tail prepended to `b2` — the same frames, in the same
/// order, as feeding `b1 + b2` at once.
pub proof fn lemma_chunked_decode(b1: Seq<u8>, b2: Seq<u8>, max: u32)
    ensures
        spec_frames(b1 + b2, max) == spec_frames(b1, max) + spec_frames(
            spec_decoder_leftover(b1, max) + b2,
            max,
        ),
        spec_decoder_leftover(b1 + b2, max) == spec_decoder_leftover(
            spec_decoder_leftover(b1, max) + b2,
            max,
        ),
    decreases b1.len(),
{
    lemma_parse_extend(b1, b2, max);
    match spec_parse_frame(b1, max) {
        ParseOutcome::Complete { frame, used } => {
            assert((b1 + b2).skip(used) =~= b1.skip(used) + b2);
            lemma_chunked_decode(b1.skip(used), b2, max);
            assert(seq![frame] + (spec_frames(b1.skip(used), max) + spec_frames(
                spec_decoder_leftover(b1.skip(used), max) + b2,
                max,
            )) =~= (seq![frame] + spec_frames(b1.skip(used), max)) + spec_frames(
                spec_decoder_leftover(b1, max) + b2,
                max,
            ));
        },
        ParseOutcome::Incomplete => {
            assert(spec_frames(b1 + b2, max) =~= spec_frames(b1, max) + spec_frames(
                spec_decoder_leftover(b1, max) + b2,
                max,
            ));
        },
        _ => {
            assert(spec_frames(b1 + b2, max) == Seq::<FrameModel>::empty());
            assert(spec_decoder_leftover(b1 + b2, max) == b1 + b2);
            assert(spec_frames(b1, max) + Seq::<FrameModel>::empty() =~= Seq::<
                FrameModel,
            >::empty());
        },
    }
}

/// Encodes one frame: flag byte, four-byte big-endian payload length,
/// payload.
pub fn encode_frame(frame: &Frame) -> (r: Vec<u8>)
    requires
        frame_payload(frame@).len() <= u32::MAX,
    ensures
        r@ == spec_encode_frame(frame@),
{
    match frame {
        Frame::Message(p) => encode_raw(MESSAGE_FLAG, p),
        Frame::Trailer(p) => encode_raw(TRAILER_FLAG, p),
    }
}

/// Encodes `payload` as a message frame.
pub fn encode_message(payload: &Vec<u8>) -> (r: Vec<u8>)
    requires
        payload@.len() <= u32::MAX,
    ensures
        r@ == spec_encode_frame(FrameModel::Message(payload@)),
{
    encode_raw(MESSAGE_FLAG, payload)
}

fn encode_raw(flag: u8, payload: &Vec<u8>) -> (r: Vec<u8>)
    requires
        payload@.len() <= u32::MAX,
    ensures
        r@ == seq![flag] + be32(payload@.len() as u32) + payload@,
{
    let len: u32 = payload.len() as u32;
    let mut r: Vec<u8> = Vec::new();
    r.push(flag);
    r.push(((len >> 24) & 0xff) as u8);
    r.push(((len >> 16) & 0xff) as u8);
    r.push(((len >> 8) & 0xff) as u8);
    r.push((len & 0xff) as u8);
    crate::bytes::extend(&mut r, payload);
    proof {
        assert(r@ =~= seq![flag] + be32(len) + payload@);
    }
    r
}

/// One answer of the streaming decoder.
#[derive(Debug, Clone, PartialEq, Eq)]
pub enum FrameStep {
    /// A whole frame was buffered; it has been consumed and returned.
    Ready(Frame),
    /// Only a prefix of a frame is buffered; push more bytes.
    NeedMoreData,
    /// The buffered bytes are not a well-formed frame; the decoder is
    /// poisoned and will keep reporting this error.
    Failed(AdapterError),
}

/// The streaming frame decoder: a growable buffer of bytes received so
/// far, from which each complete frame is consumed exactly once.
pub struct FrameDecoder {
    buf: Vec<u8>,
    max: u32,
    failed: Option<AdapterError>,
}

impl FrameDecoder {
    /// The bytes pushed but not yet consumed as frames.
    pub closed spec fn buffered(&self) -> Seq<u8> {
        self.buf@
    }

    /// The configured maximum payload length.
    pub closed spec fn max_len(&self) -> u32 {
        self.max
    }

    /// The error the decoder stopped on, if any.
    pub closed spec fn failure(&self) -> Option<AdapterError> {
        self.failed
    }

    /// A fresh decoder with an empty buffer.
    pub fn new(max: u32) -> (r: FrameDecoder)
        ensures
            r.buffered() == Seq::<u8>::empty(),
            r.max_len() == max,
            r.failure() is None,
    {
        let r = FrameDecoder { buf: Vec::new(), max, failed: None };
        proof {
            assert(r.buffered() =~= Seq::<u8>::empty());
        }
        r
    }

    /// The number of buffered, unconsumed bytes.
    pub fn buffered_len(&self) -> (r: usize)
        ensures
            r == self.buffered().len(),
    {
        self.buf.len()
    }

    /// Appends newly received bytes to the buffer.
    pub fn push(&mut self, chunk: &Vec<u8>)
        requires
            old(self).buffered().len() + chunk@.len() <= usize::MAX,
        ensures
            final(self).buffered() == old(self).buffered() + chunk@,
            final(self).max_len() == old(self).max_len(),
            final(self).failure() == old(self).failure(),
    {
        crate::bytes::extend(&mut self.buf, chunk);
    }

    /// Takes the frame at the front of the buffer, if one is complete:
    /// exactly what `spec_parse_frame` says of the buffered bytes.
    pub fn next_frame(&mut self) -> (r: FrameStep)
        ensures
            final(self).max_len() == old(self).max_len(),
            old(self).failure() matches Some(e) ==> r == FrameStep::Failed(e) && *final(self)
                == *old(self),
            old(self).failure() is None ==> match spec_parse_frame(
                old(self).buffered(),
                old(self).max_len(),
            ) {
                ParseOutcome::Complete { frame, used } => {
                    &&& r matches FrameStep::Ready(f) && f@ == frame
                    &&& final(self).buffered() == old(self).buffered().skip(used)
                    &&& final(self).failure() is None
                },
                ParseOutcome::Incomplete => {
                    &&& r == FrameStep::NeedMoreData
                    &&& *final(self) == *old(self)
                },
                ParseOutcome::Malformed => {
                    &&& r == FrameStep::Failed(AdapterError::Framing)
                    &&& final(self).failure() == Some(AdapterError::Framing)
                    &&& final(self).buffered() == old(self).buffered()
                },
                ParseOutcome::TooLarge => {
                    &&& r == FrameStep::Failed(AdapterError::MessageTooLarge)
                    &&& final(self).failure() == Some(AdapterError::MessageTooLarge)
                    &&& final(self).buffered() == old(self).buffered()
                },
            },
    {
        if let Some(e) = self.failed {
            return FrameStep::Failed(e);
        }
        if self.buf.len() == 0 {
            return FrameStep::NeedMoreData;
        }
        let flag = self.buf[0];
        if flag != MESSAGE_FLAG && flag != TRAILER_FLAG {
            self.failed = Some(AdapterError::Framing);
            return FrameStep::Failed(AdapterError::Framing);
        }
        if self.buf.len() < 5 {
            return FrameStep::NeedMoreData;
        }
        let n: u32 = ((self.buf[1] as u32) << 24) | ((self.buf[2] as u32) << 16) | ((self.buf[3]
            as u32) << 8) | (self.buf[4] as u32);
        proof {
            assert(self.buf@.subrange(1, 5) =~= seq![self.buf@[1], self.buf@[2], self.buf@[3], self.buf@[4]]);
        }
        if n > self.max {
            self.failed = Some(AdapterError::MessageTooLarge);
            return FrameStep::Failed(AdapterError::MessageTooLarge);
        }
        if (self.buf.len() as u64) - 5 < (n as u64) {
            return FrameStep::NeedMoreData;
        }
        let n_us: usize = n as usize;
        let mut payload: Vec<u8> = Vec::new();
        let mut i: usize = 0;
        while i < n_us
            invariant
                i <= n_us,
                n_us + 5 <= self.buf@.len(),
                self.buf@.len() <= usize::MAX,
                payload@ == self.buf@.subrange(5, 5 + i as int),
            decreases n_us - i,
        {
            payload.push(self.buf[5 + i]);
            proof {
                assert(payload@ =~= self.buf@.subrange(5, 5 + (i + 1)));
            }
            i += 1;
        }
        let rest = self.buf.split_off(5 + n_us);
        self.buf = rest;
        let f = if flag == TRAILER_FLAG {
            Frame::Trailer(payload)
        } else {
            Frame::Message(payload)
        };
        FrameStep::Ready(f)
    }
}

} // verus!
