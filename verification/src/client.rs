//! The client-side adapter: turns an outgoing native gRPC call into a
//! gRPC-Web call against a web-only peer and translates the response
//! back. The outbound head is rewritten to web form and the body
//! base64-encoded in text mode; the inbound stream is decoded frame by
//! frame, message frames become the response body, and the trailing
//! trailer frame is parsed back into a trailer set. A stream that ends
//! without a trailer frame is a failed call, never a silent success.

use vstd::prelude::*;

use crate::AdapterError;
use crate::bytes::{copy_vec, is_prefix_of, starts_with, spec_ct_grpc, ct_grpc, spec_ct_grpc_web,
    ct_grpc_web, spec_ct_grpc_web_text, ct_grpc_web_text, bytes_eq};
use crate::frame::{FrameDecoder, FrameStep, Frame, FrameModel, ParseOutcome, spec_parse_frame,
    spec_frames, spec_decoder_leftover, lemma_chunked_decode};
use crate::headers::{HeaderList, HeaderFieldModel, spec_headers_to_web, headers_to_web,
    spec_headers_to_native, headers_to_native, spec_strip_transport, strip_transport_headers,
    spec_parse_trailers, decode_trailers, spec_get, spec_content_type_name, content_type_name};
use crate::server::RequestHead;
use crate::text::{Base64Decoder, Base64Encoder, spec_dec_step, spec_b64_encode,
    lemma_b64_chunked_decode};

verus! {

/// One field of the outbound head in text mode: the content type
/// becomes `application/grpc-web-text`, other fields pass through.
pub open spec fn spec_field_to_web_text(f: HeaderFieldModel) -> HeaderFieldModel {
    if f.name == spec_content_type_name() {
        HeaderFieldModel { name: f.name, value: spec_ct_grpc_web_text() }
    } else {
        f
    }
}

/// The outbound head in text mode.
pub open spec fn spec_headers_to_web_text(fs: Seq<HeaderFieldModel>) -> Seq<HeaderFieldModel> {
    fs.map_values(|f: HeaderFieldModel| spec_field_to_web_text(f))
}

/// Rewrites a header list for the text envelope.
fn headers_to_web_text(h: &HeaderList) -> (r: HeaderList)
    ensures
        r@ == spec_headers_to_web_text(h@),
{
    let name = content_type_name();
    let mut out = HeaderList::new();
    let mut i: usize = 0;
    while i < h.fields.len()
        invariant
            i <= h.fields@.len(),
            h@.len() == h.fields@.len(),
            name@ == spec_content_type_name(),
            out@ == spec_headers_to_web_text(h@.take(i as int)),
        decreases h.fields@.len() - i,
    {
        let f = &h.fields[i];
        let n = copy_vec(&f.name);
        let v = if bytes_eq(&f.name, &name) {
            ct_grpc_web_text()
        } else {
            copy_vec(&f.value)
        };
        out.push(n, v);
        proof {
            let fm = h@[i as int];
            assert(fm == f@);
            assert(HeaderFieldModel { name: n@, value: v@ } =~= spec_field_to_web_text(fm));
            assert(h@.take(i + 1) =~= h@.take(i as int).push(fm));
            assert(spec_headers_to_web_text(h@.take(i as int).push(fm))
                =~= spec_headers_to_web_text(h@.take(i as int)).push(spec_field_to_web_text(fm)));
            assert(out@ =~= spec_headers_to_web_text(h@.take(i + 1)));
        }
        i += 1;
    }
    proof {
        assert(h@.take(h@.len() as int) =~= h@);
    }
    out
}

/// Chunk-boundary independence of the whole text-mode response
/// pipeline: splitting the character stream anywhere — in particular
/// inside a base64 four-character group — then base64-decoding each
/// part with the carry and frame-decoding the outputs in turn yields
/// exactly the frames of decoding the whole stream at once, as long as
/// the first part did not already close the text stream with padding.
pub proof fn lemma_text_mode_chunk_independence(c1: Seq<u8>, c2: Seq<u8>, max: u32)
    ensures
        match spec_dec_step(c1) {
            Some(r1) => !r1.2 ==> match spec_dec_step(r1.1 + c2) {
                Some(r2) => {
                    &&& spec_dec_step(c1 + c2) == Some((r1.0 + r2.0, r2.1, r2.2))
                    &&& spec_frames(r1.0 + r2.0, max) == spec_frames(r1.0, max) + spec_frames(
                        spec_decoder_leftover(r1.0, max) + r2.0,
                        max,
                    )
                },
                None => spec_dec_step(c1 + c2) is None,
            },
            None => spec_dec_step(c1 + c2) is None,
        },
{
    lemma_b64_chunked_decode(c1, c2);
    match spec_dec_step(c1) {
        Some(r1) => {
            if !r1.2 {
                match spec_dec_step(r1.1 + c2) {
                    Some(r2) => {
                        lemma_chunked_decode(r1.0, r2.0, max);
                    },
                    None => {},
                }
            }
        },
        None => {},
    }
}

/// Whether a response carries a content type the bridge speaks:
/// a gRPC-Web one, or the native one a transparent proxy may leave.
pub open spec fn spec_supported_response_ct(fs: Seq<HeaderFieldModel>) -> bool {
    match spec_get(fs, spec_content_type_name()) {
        Some(ct) => is_prefix_of(spec_ct_grpc_web(), ct) || is_prefix_of(spec_ct_grpc(), ct),
        None => false,
    }
}

/// Rejects a response whose content type the bridge does not speak.
pub fn check_response_content_type(headers: &HeaderList) -> (r: Result<(), AdapterError>)
    ensures
        r is Ok <==> spec_supported_response_ct(headers@),
        r is Err ==> r == Err::<(), AdapterError>(AdapterError::UnsupportedContentType),
{
    match headers.get(&content_type_name()) {
        None => Err(AdapterError::UnsupportedContentType),
        Some(ct) => {
            if starts_with(ct, &ct_grpc_web()) || starts_with(ct, &ct_grpc()) {
                Ok(())
            } else {
                Err(AdapterError::UnsupportedContentType)
            }
        },
    }
}

/// The client adapter: its immutable per-instance choices — whether to
/// speak the text envelope, and the largest message payload it will
/// accept in a response.
pub struct Client {
    pub text: bool,
    pub max_message_len: u32,
}

/// What one decoding step of the response stream yields.
#[derive(Debug, Clone, PartialEq, Eq)]
pub enum ClientEvent {
    /// One message frame's payload, in arrival order.
    Message(Vec<u8>),
    /// No complete frame is buffered; feed more response bytes.
    NeedMoreData,
    /// The terminal trailer frame was decoded; the call is complete.
    TrailerSeen,
}

impl Client {
    /// A client for a binary or text gRPC-Web peer.
    pub fn new(text: bool, max_message_len: u32) -> (r: Client)
        ensures
            r.text == text,
            r.max_message_len == max_message_len,
    {
        Client { text, max_message_len }
    }

    /// Rewrites an outgoing native request head to gRPC-Web form: the
    /// content type becomes its web counterpart, or the text content
    /// type when the text envelope is selected.
    pub fn prepare_request(&self, req: &RequestHead) -> (r: RequestHead)
        ensures
            r.method == req.method,
            r.path@ == req.path@,
            !self.text ==> r.headers@ == spec_headers_to_web(req.headers@),
            self.text ==> r.headers@ == spec_headers_to_web_text(req.headers@),
    {
        let headers = if self.text {
            headers_to_web_text(&req.headers)
        } else {
            headers_to_web(&req.headers)
        };
        RequestHead { method: req.method, path: copy_vec(&req.path), headers }
    }

    /// Rewrites a response head back to native form, dropping any
    /// pseudo-header of the source transport.
    pub fn restore_response(&self, headers: &HeaderList) -> (r: HeaderList)
        ensures
            r@ == spec_headers_to_native(spec_strip_transport(headers@)),
    {
        headers_to_native(&strip_transport_headers(headers))
    }

    /// Opens the per-call state for one outgoing call.
    pub fn begin_call(&self) -> (r: ClientFuture)
        ensures
            r.inv(),
            r.is_text() == self.text,
            r.max_len() == self.max_message_len,
            r.out_carry() == Seq::<u8>::empty(),
            r.in_carry() == Seq::<u8>::empty(),
            !r.in_finished(),
            r.buffered() == Seq::<u8>::empty(),
            r.frames_failure() is None,
            r.trailer_state() is None,
    {
        ClientFuture {
            text: self.text,
            b64_out: Base64Encoder::new(),
            b64_in: Base64Decoder::new(),
            frames: FrameDecoder::new(self.max_message_len),
            trailers: None,
        }
    }
}

/// The per-call state of one outgoing call: the outbound base64 carry,
/// the inbound base64 carry, the streaming frame decoder, and the
/// trailer set once its frame has arrived.
pub struct ClientFuture {
    text: bool,
    b64_out: Base64Encoder,
    b64_in: Base64Decoder,
    frames: FrameDecoder,
    trailers: Option<HeaderList>,
}

impl ClientFuture {
    /// Whether this call speaks the text envelope.
    pub closed spec fn is_text(&self) -> bool {
        self.text
    }

    /// The outbound base64 carry.
    pub closed spec fn out_carry(&self) -> Seq<u8> {
        self.b64_out.carry_bytes()
    }

    /// The inbound base64 carry.
    pub closed spec fn in_carry(&self) -> Seq<u8> {
        self.b64_in.carry_chars()
    }

    /// Whether the inbound text stream was closed by padding.
    pub closed spec fn in_finished(&self) -> bool {
        self.b64_in.finished()
    }

    /// The frame decoder's unconsumed bytes.
    pub closed spec fn buffered(&self) -> Seq<u8> {
        self.frames.buffered()
    }

    /// The configured maximum message payload length.
    pub closed spec fn max_len(&self) -> u32 {
        self.frames.max_len()
    }

    /// The error the frame decoder stopped on, if any.
    pub closed spec fn frames_failure(&self) -> Option<AdapterError> {
        self.frames.failure()
    }

    /// The trailer set, once its frame has been decoded.
    pub closed spec fn trailer_state(&self) -> Option<Seq<HeaderFieldModel>> {
        match self.trailers {
            None => None,
            Some(t) => Some(t@),
        }
    }

    /// The carry buffers are in their lawful states.
    pub closed spec fn inv(&self) -> bool {
        self.b64_out.inv() && self.b64_in.inv()
    }

    /// Translates one chunk of the outbound body: the identity in
    /// binary mode, base64 encoding in text mode.
    pub fn on_request_chunk(&mut self, chunk: &Vec<u8>) -> (out: Vec<u8>)
        requires
            old(self).inv(),
            old(self).out_carry().len() + chunk@.len() <= usize::MAX,
        ensures
            final(self).inv(),
            final(self).is_text() == old(self).is_text(),
            final(self).in_carry() == old(self).in_carry(),
            final(self).in_finished() == old(self).in_finished(),
            final(self).buffered() == old(self).buffered(),
            final(self).max_len() == old(self).max_len(),
            final(self).frames_failure() == old(self).frames_failure(),
            final(self).trailer_state() == old(self).trailer_state(),
            !old(self).is_text() ==> out@ == chunk@ && final(self).out_carry() == old(self).out_carry(),
            old(self).is_text() ==> ({
                let all = old(self).out_carry() + chunk@;
                let k = all.len() - (all.len() % 3);
                &&& out@ == spec_b64_encode(all.take(k as int))
                &&& final(self).out_carry() == all.skip(k as int)
            }),
    {
        if self.text {
            self.b64_out.push(chunk)
        } else {
            copy_vec(chunk)
        }
    }

    /// Closes the outbound body: in text mode the held-back bytes are
    /// flushed as a final padded group.
    pub fn end_request(&mut self) -> (out: Vec<u8>)
        requires
            old(self).inv(),
        ensures
            final(self).inv(),
            final(self).is_text() == old(self).is_text(),
            final(self).in_carry() == old(self).in_carry(),
            final(self).buffered() == old(self).buffered(),
            final(self).max_len() == old(self).max_len(),
            final(self).frames_failure() == old(self).frames_failure(),
            final(self).trailer_state() == old(self).trailer_state(),
            final(self).out_carry() == Seq::<u8>::empty(),
            !old(self).is_text() ==> out@ == Seq::<u8>::empty(),
            old(self).is_text() ==> out@ == spec_b64_encode(old(self).out_carry()),
    {
        if self.text {
            self.b64_out.finish()
        } else {
            self.b64_out.finish();
            let out: Vec<u8> = Vec::new();
            proof {
                assert(out@ =~= Seq::<u8>::empty());
            }
            out
        }
    }

    /// Feeds one chunk of response bytes: base64-decoded first in text
    /// mode, then buffered for frame decoding.
    pub fn push_response_chunk(&mut self, chunk: &Vec<u8>) -> (r: Result<(), AdapterError>)
        requires
            old(self).inv(),
            old(self).in_carry().len() + chunk@.len() <= usize::MAX,
            old(self).buffered().len() + old(self).in_carry().len() + chunk@.len() <= usize::MAX,
        ensures
            final(self).inv(),
            final(self).is_text() == old(self).is_text(),
            final(self).out_carry() == old(self).out_carry(),
            final(self).max_len() == old(self).max_len(),
            final(self).frames_failure() == old(self).frames_failure(),
            final(self).trailer_state() == old(self).trailer_state(),
            !old(self).is_text() ==> ({
                &&& r is Ok
                &&& final(self).buffered() == old(self).buffered() + chunk@
                &&& final(self).in_carry() == old(self).in_carry()
                &&& final(self).in_finished() == old(self).in_finished()
            }),
            old(self).is_text() && !old(self).in_finished() ==> match spec_dec_step(
                old(self).in_carry() + chunk@,
            ) {
                Some(t) => {
                    &&& r is Ok
                    &&& final(self).buffered() == old(self).buffered() + t.0
                    &&& final(self).in_carry() == t.1
                    &&& final(self).in_finished() == t.2
                },
                None => r == Err::<(), AdapterError>(AdapterError::Framing) && final(self).buffered() == old(self).buffered(),
            },
            old(self).is_text() && old(self).in_finished() && chunk@.len() == 0 ==> (r is Ok
                && final(self).buffered() == old(self).buffered()),
            old(self).is_text() && old(self).in_finished() && chunk@.len() > 0 ==> (r == Err::<
                (),
                AdapterError,
            >(AdapterError::Framing) && final(self).buffered() == old(self).buffered()),
    {
        if self.text {
            match self.b64_in.push(chunk) {
                Err(e) => Err(e),
                Ok(decoded) => {
                    proof {
                        crate::text::lemma_dec_step_len(
                            old(self).in_carry() + chunk@,
                        );
                    }
                    self.frames.push(&decoded);
                    Ok(())
                },
            }
        } else {
            self.frames.push(chunk);
            Ok(())
        }
    }

    /// Takes the next unit of the response stream: a message payload,
    /// the terminal trailer, or a request for more bytes. A frame
    /// after the trailer, a malformed trailer block, or a malformed or
    /// oversized frame is an error; message frames come out strictly
    /// in arrival order.
    pub fn next_event(&mut self) -> (r: Result<ClientEvent, AdapterError>)
        ensures
            final(self).inv() == old(self).inv(),
            final(self).is_text() == old(self).is_text(),
            final(self).out_carry() == old(self).out_carry(),
            final(self).in_carry() == old(self).in_carry(),
            final(self).in_finished() == old(self).in_finished(),
            final(self).max_len() == old(self).max_len(),
            old(self).trailer_state() matches Some(t) ==> ({
                &&& *final(self) == *old(self)
                &&& old(self).buffered().len() == 0 ==> (r matches Ok(e) && e
                    == ClientEvent::TrailerSeen)
                &&& old(self).buffered().len() > 0 ==> r == Err::<ClientEvent, AdapterError>(
                    AdapterError::Framing,
                )
            }),
            old(self).trailer_state() is None ==> match old(self).frames_failure() {
                Some(e) => r == Err::<ClientEvent, AdapterError>(e),
                None => true,
            },
            old(self).trailer_state() is None && old(self).frames_failure() is None ==> match
                spec_parse_frame(old(self).buffered(), old(self).max_len()) {
                ParseOutcome::Complete { frame: FrameModel::Message(p), used } => {
                    &&& r matches Ok(e) && e matches ClientEvent::Message(v) && v@ == p
                    &&& final(self).buffered() == old(self).buffered().skip(used)
                    &&& final(self).trailer_state() is None
                },
                ParseOutcome::Complete { frame: FrameModel::Trailer(p), used } => match
                    spec_parse_trailers(p) {
                    Some(t) => {
                        &&& r matches Ok(e) && e == ClientEvent::TrailerSeen
                        &&& final(self).buffered() == old(self).buffered().skip(used)
                        &&& final(self).trailer_state() == Some(t)
                    },
                    None => r == Err::<ClientEvent, AdapterError>(AdapterError::Framing),
                },
                ParseOutcome::Incomplete => {
                    &&& r matches Ok(e) && e == ClientEvent::NeedMoreData
                    &&& *final(self) == *old(self)
                },
                ParseOutcome::Malformed => r == Err::<ClientEvent, AdapterError>(
                    AdapterError::Framing,
                ),
                ParseOutcome::TooLarge => r == Err::<ClientEvent, AdapterError>(
                    AdapterError::MessageTooLarge,
                ),
            },
    {
        if self.trailers.is_some() {
            if self.frames.buffered_len() == 0 {
                return Ok(ClientEvent::TrailerSeen);
            } else {
                return Err(AdapterError::Framing);
            }
        }
        match self.frames.next_frame() {
            FrameStep::NeedMoreData => Ok(ClientEvent::NeedMoreData),
            FrameStep::Failed(e) => Err(e),
            FrameStep::Ready(Frame::Message(p)) => Ok(ClientEvent::Message(p)),
            FrameStep::Ready(Frame::Trailer(p)) => {
                match decode_trailers(&p) {
                    Err(e) => Err(e),
                    Ok(t) => {
                        self.trailers = Some(t);
                        Ok(ClientEvent::TrailerSeen)
                    },
                }
            },
        }
    }

    /// Closes the response stream. A stream that ended without a
    /// trailer frame is a failed call: the missing-trailer error, not
    /// a silent success.
    pub fn finish(&self) -> (r: Result<&HeaderList, AdapterError>)
        ensures
            self.trailer_state() is None <==> r == Err::<&HeaderList, AdapterError>(
                AdapterError::MissingTrailer,
            ),
            r matches Ok(t) ==> self.trailer_state() == Some(t@),
    {
        match &self.trailers {
            None => Err(AdapterError::MissingTrailer),
            Some(t) => Ok(t),
        }
    }
}

} // verus!
