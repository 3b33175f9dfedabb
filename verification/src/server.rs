//! The server-side adapter: accepts native gRPC, gRPC-Web and CORS
//! pre-flight traffic on one endpoint. Each request is classified
//! once; native traffic passes through untouched, pre-flights are
//! answered from the CORS policy without reaching the inner handler,
//! and gRPC-Web requests are rewritten to native form on the way in
//! and back to web form — with the status appended as an in-body
//! trailer frame — on the way out.

use vstd::prelude::*;

use crate::AdapterError;
use crate::bytes::{is_prefix_of, starts_with, copy_vec, views_of};
use crate::cors::{OriginDecider, AllowAllOrigins, CorsConfig, PreflightRequest, CorsDecision,
    CorsDecisionModel, spec_decision_ok, evaluate};
use crate::frame::{FrameModel, Frame, spec_encode_frame, encode_frame};
use crate::headers::{HeaderList, HeaderFieldModel, wf_name, wf_fields, spec_get,
    spec_encode_trailers, encode_trailers, spec_headers_to_native, headers_to_native,
    spec_split_commas, split_commas, check_name, spec_with_default_ct, with_default_ct,
    spec_content_type_name, content_type_name,
    spec_origin_name, origin_name, spec_acr_method_name, acr_method_name, spec_acr_headers_name,
    acr_headers_name, spec_aca_origin_name, aca_origin_name, spec_aca_headers_name,
    aca_headers_name, spec_aca_methods_name, aca_methods_name, spec_aca_credentials_name,
    aca_credentials_name, spec_true_value, true_value, spec_post_value, post_value};
use crate::bytes::{spec_ct_grpc, spec_ct_grpc_web, spec_ct_grpc_web_text, ct_grpc, ct_grpc_web,
    ct_grpc_web_text};
use crate::text::{Base64Decoder, Base64Encoder, spec_dec_step, spec_b64_encode,
    lemma_b64_encode_append};

verus! {

/// The request methods the adapter distinguishes.
#[derive(Clone, Copy, Debug, PartialEq, Eq, Structural)]
pub enum HttpMethod {
    Get,
    Post,
    Options,
    Other,
}

/// What the adapter reads of a request before its body: the method,
/// the path, and the headers.
pub struct RequestHead {
    pub method: HttpMethod,
    pub path: Vec<u8>,
    pub headers: HeaderList,
}

/// What one request is, decided once from method, content type and
/// pre-flight headers, and immutable thereafter.
#[derive(Clone, Copy, Debug, PartialEq, Eq, Structural)]
pub enum RequestClass {
    NativeGrpc,
    GrpcWeb,
    GrpcWebText,
    CorsPreflight,
    Unrelated,
}

/// The classification rule: an OPTIONS request carrying
/// `access-control-request-method` is a pre-flight; a POST is placed
/// by its content type; everything else is unrelated traffic.
pub open spec fn spec_classify(m: HttpMethod, headers: Seq<HeaderFieldModel>) -> RequestClass {
    if m == HttpMethod::Options && spec_get(headers, spec_acr_method_name()) is Some {
        RequestClass::CorsPreflight
    } else if m == HttpMethod::Post {
        match spec_get(headers, spec_content_type_name()) {
            Some(ct) => {
                if is_prefix_of(spec_ct_grpc_web_text(), ct) {
                    RequestClass::GrpcWebText
                } else if is_prefix_of(spec_ct_grpc_web(), ct) {
                    RequestClass::GrpcWeb
                } else if is_prefix_of(spec_ct_grpc(), ct) {
                    RequestClass::NativeGrpc
                } else {
                    RequestClass::Unrelated
                }
            },
            None => RequestClass::Unrelated,
        }
    } else {
        RequestClass::Unrelated
    }
}

/// Classifies one request head.
pub fn classify(req: &RequestHead) -> (r: RequestClass)
    ensures
        r == spec_classify(req.method, req.headers@),
{
    if req.method == HttpMethod::Options {
        if req.headers.get(&acr_method_name()).is_some() {
            return RequestClass::CorsPreflight;
        }
    }
    if req.method != HttpMethod::Post {
        return RequestClass::Unrelated;
    }
    match req.headers.get(&content_type_name()) {
        None => RequestClass::Unrelated,
        Some(ct) => {
            if starts_with(ct, &ct_grpc_web_text()) {
                RequestClass::GrpcWebText
            } else if starts_with(ct, &ct_grpc_web()) {
                RequestClass::GrpcWeb
            } else if starts_with(ct, &ct_grpc()) {
                RequestClass::NativeGrpc
            } else {
                RequestClass::Unrelated
            }
        },
    }
}

/// A fault in the adapter's own configuration, fatal at construction.
#[derive(Clone, Copy, Debug, PartialEq, Eq, Structural)]
pub enum ConfigError {
    /// A name in the allowed-request-headers list is not a well-formed
    /// normalized header name.
    InvalidHeaderName,
}

/// A builder for a `Server`.
pub struct ServerBuilder<F: OriginDecider> {
    pub config: CorsConfig,
    pub origin_filter: Option<F>,
}

impl ServerBuilder<AllowAllOrigins> {
    /// The default configuration: wildcard origin, wildcard headers,
    /// pre-flights honoured for gRPC-shaped paths only.
    pub fn new() -> (r: ServerBuilder<AllowAllOrigins>)
        ensures
            r.config.allowed_request_headers is None,
            r.config.cors_for_registered_endpoints_only,
            r.origin_filter is None,
    {
        ServerBuilder {
            config: CorsConfig {
                allowed_request_headers: None,
                cors_for_registered_endpoints_only: true,
            },
            origin_filter: None,
        }
    }
}

impl<F: OriginDecider> ServerBuilder<F> {
    /// Installs an origin policy; pre-flights then echo the admitted
    /// origin instead of the wildcard.
    pub fn origin_filter<G: OriginDecider>(self, value: G) -> (r: ServerBuilder<G>)
        ensures
            r.origin_filter matches Some(g) && g == value,
            r.config.allowed_request_headers == self.config.allowed_request_headers,
            r.config.cors_for_registered_endpoints_only
                == self.config.cors_for_registered_endpoints_only,
    {
        ServerBuilder { config: self.config, origin_filter: Some(value) }
    }

    /// Whether pre-flights are honoured only for paths of gRPC shape.
    pub fn cors_for_registered_endpoints_only(self, value: bool) -> (r: ServerBuilder<F>)
        ensures
            r.config.cors_for_registered_endpoints_only == value,
            r.config.allowed_request_headers == self.config.allowed_request_headers,
            r.origin_filter == self.origin_filter,
    {
        ServerBuilder {
            config: CorsConfig {
                allowed_request_headers: self.config.allowed_request_headers,
                cors_for_registered_endpoints_only: value,
            },
            origin_filter: self.origin_filter,
        }
    }

    /// Installs an allow-list of request header names. A name that is
    /// not well formed is a configuration fault, detected here and
    /// fatal to construction.
    pub fn allowed_request_headers(self, value: Vec<Vec<u8>>) -> (r: Result<
        ServerBuilder<F>,
        ConfigError,
    >)
        ensures
            (forall|i: int| 0 <= i < value@.len() ==> wf_name(value@[i]@)) <==> r is Ok,
            r matches Ok(b) ==> {
                &&& b.config.allowed_request_headers matches Some(v) && v@ == value@
                &&& b.config.cors_for_registered_endpoints_only
                    == self.config.cors_for_registered_endpoints_only
                &&& b.origin_filter == self.origin_filter
            },
            r matches Err(e) ==> e == ConfigError::InvalidHeaderName,
    {
        let mut i: usize = 0;
        while i < value.len()
            invariant
                i <= value@.len(),
                value@.len() == value.len(),
                forall|k: int| 0 <= k < i ==> wf_name(value@[k]@),
            decreases value@.len() - i,
        {
            if !check_name(&value[i]) {
                return Err(ConfigError::InvalidHeaderName);
            }
            i += 1;
        }
        Ok(
            ServerBuilder {
                config: CorsConfig {
                    allowed_request_headers: Some(value),
                    cors_for_registered_endpoints_only:
                        self.config.cors_for_registered_endpoints_only,
                },
                origin_filter: self.origin_filter,
            },
        )
    }

    /// Finishes the builder. The inner gRPC handler stays outside the
    /// adapter: the embedder pairs each `ServerAction` with its own
    /// dispatch.
    pub fn build(self) -> (r: Server<F>)
        ensures
            r.config.allowed_request_headers == self.config.allowed_request_headers,
            r.config.cors_for_registered_endpoints_only
                == self.config.cors_for_registered_endpoints_only,
            r.origin_filter == self.origin_filter,
    {
        Server { config: self.config, origin_filter: self.origin_filter }
    }
}

/// The server adapter: the immutable per-instance configuration.
/// Everything per-call lives in the `ServerFuture` that `call` hands
/// back.
pub struct Server<F: OriginDecider> {
    pub config: CorsConfig,
    pub origin_filter: Option<F>,
}

/// What the embedder must do with one classified request.
pub enum ServerAction {
    /// Forward request and response untouched.
    Passthrough,
    /// Forward the rewritten head, feed the bodies through the
    /// returned `ServerFuture`, and append its final trailer frame.
    Translate { grpc_head: RequestHead },
    /// Answer at once with no body and these headers; the inner
    /// handler is never reached.
    Preflight { decision: CorsDecision, response_headers: HeaderList },
}

/// The response headers of a pre-flight answer: echo of the granted
/// origin, the POST method, one `access-control-allow-headers` field
/// per granted name, and the credentials flag when granted. A denied
/// pre-flight gets no `Access-Control-Allow-*` headers at all.
pub open spec fn spec_preflight_headers(d: CorsDecisionModel) -> Seq<HeaderFieldModel> {
    if !d.allowed {
        seq![]
    } else {
        (match d.allow_origin {
            Some(o) => seq![HeaderFieldModel { name: spec_aca_origin_name(), value: o }],
            None => seq![],
        }) + seq![HeaderFieldModel { name: spec_aca_methods_name(), value: spec_post_value() }]
            + (match d.allow_headers {
            Some(hs) => hs.map_values(
                (|h: Seq<u8>| HeaderFieldModel { name: spec_aca_headers_name(), value: h }),
            ),
            None => seq![],
        }) + (if d.allow_credentials {
            seq![HeaderFieldModel { name: spec_aca_credentials_name(), value: spec_true_value() }]
        } else {
            seq![]
        })
    }
}

/// Builds the pre-flight response headers of a decision.
pub fn preflight_response_headers(d: &CorsDecision) -> (r: HeaderList)
    ensures
        r@ == spec_preflight_headers(d@),
{
    let mut r = HeaderList::new();
    if !d.allowed {
        proof {
            assert(r@ =~= spec_preflight_headers(d@));
        }
        return r;
    }
    match &d.allow_origin {
        Some(o) => {
            r.push(aca_origin_name(), copy_vec(o));
        },
        None => {},
    }
    r.push(aca_methods_name(), post_value());
    match &d.allow_headers {
        Some(hs) => {
            let ghost before = r@;
            let ghost hsm = views_of(hs@);
            let mut i: usize = 0;
            while i < hs.len()
                invariant
                    i <= hs@.len(),
                    hs@.len() == hs.len(),
                    hsm == views_of(hs@),
                    r@ == before + hsm.take(i as int).map_values(
                        (|h: Seq<u8>| HeaderFieldModel {
                            name: spec_aca_headers_name(),
                            value: h,
                        }),
                    ),
                decreases hs@.len() - i,
            {
                r.push(aca_headers_name(), copy_vec(&hs[i]));
                proof {
                    assert(r@ =~= before + hsm.take(i + 1).map_values(
                        (|h: Seq<u8>| HeaderFieldModel {
                            name: spec_aca_headers_name(),
                            value: h,
                        }),
                    ));
                }
                i += 1;
            }
            proof {
                assert(hsm.take(hsm.len() as int) =~= hsm);
            }
        },
        None => {},
    }
    if d.allow_credentials {
        r.push(aca_credentials_name(), true_value());
    }
    proof {
        assert(r@ =~= spec_preflight_headers(d@));
    }
    r
}

/// The per-call state of the server adapter: whether this call is
/// being translated, whether it uses the text envelope, and the two
/// base64 carry buffers of the call.
pub struct ServerFuture {
    translating: bool,
    text: bool,
    b64_req: Base64Decoder,
    b64_resp: Base64Encoder,
}

impl ServerFuture {
    /// Whether this call is a gRPC-Web call under translation.
    pub closed spec fn is_translating(&self) -> bool {
        self.translating
    }

    /// Whether the call uses the base64 text envelope.
    pub closed spec fn is_text(&self) -> bool {
        self.text
    }

    /// The request-side base64 carry.
    pub closed spec fn req_carry(&self) -> Seq<u8> {
        self.b64_req.carry_chars()
    }

    /// Whether the request-side text stream was closed by padding.
    pub closed spec fn req_finished(&self) -> bool {
        self.b64_req.finished()
    }

    /// The response-side base64 carry.
    pub closed spec fn resp_carry(&self) -> Seq<u8> {
        self.b64_resp.carry_bytes()
    }

    /// The carry buffers are in their lawful states.
    pub closed spec fn inv(&self) -> bool {
        self.b64_req.inv() && self.b64_resp.inv()
    }

    /// Translates one chunk of request body toward the inner handler:
    /// the identity in binary mode, base64 decoding in text mode.
    pub fn on_request_chunk(&mut self, chunk: &Vec<u8>) -> (r: Result<Vec<u8>, AdapterError>)
        requires
            old(self).inv(),
            old(self).req_carry().len() + chunk@.len() <= usize::MAX,
        ensures
            final(self).inv(),
            final(self).is_text() == old(self).is_text(),
            final(self).is_translating() == old(self).is_translating(),
            final(self).resp_carry() == old(self).resp_carry(),
            !old(self).is_text() ==> ({
                &&& r matches Ok(v) && v@ == chunk@
                &&& final(self).req_carry() == old(self).req_carry()
                &&& final(self).req_finished() == old(self).req_finished()
            }),
            old(self).is_text() && !old(self).req_finished() ==> match spec_dec_step(
                old(self).req_carry() + chunk@,
            ) {
                Some(t) => {
                    &&& r matches Ok(v) && v@ == t.0
                    &&& final(self).req_carry() == t.1
                    &&& final(self).req_finished() == t.2
                },
                None => r == Err::<Vec<u8>, AdapterError>(AdapterError::Framing),
            },
            old(self).is_text() && old(self).req_finished() && chunk@.len() == 0 ==> (r matches Ok(
                v,
            ) && v@ == Seq::<u8>::empty()),
            old(self).is_text() && old(self).req_finished() && chunk@.len() > 0 ==> r == Err::<
                Vec<u8>,
                AdapterError,
            >(AdapterError::Framing),
    {
        if self.text {
            self.b64_req.push(chunk)
        } else {
            Ok(copy_vec(chunk))
        }
    }

    /// At the end of the request body, a leftover text carry means the
    /// stream was truncated mid-group.
    pub fn on_request_end(&self) -> (r: Result<(), AdapterError>)
        ensures
            !self.is_text() ==> r is Ok,
            self.is_text() ==> (r is Ok <==> self.req_carry().len() == 0),
            r is Err ==> r == Err::<(), AdapterError>(AdapterError::Framing),
    {
        if self.text {
            self.b64_req.finish()
        } else {
            Ok(())
        }
    }

    /// Translates one chunk of response body toward the caller: the
    /// identity in binary mode, base64 encoding in text mode.
    pub fn on_response_chunk(&mut self, chunk: &Vec<u8>) -> (out: Vec<u8>)
        requires
            old(self).inv(),
            old(self).resp_carry().len() + chunk@.len() <= usize::MAX,
        ensures
            final(self).inv(),
            final(self).is_text() == old(self).is_text(),
            final(self).is_translating() == old(self).is_translating(),
            final(self).req_carry() == old(self).req_carry(),
            final(self).req_finished() == old(self).req_finished(),
            !old(self).is_text() ==> out@ == chunk@ && final(self).resp_carry() == old(
                self,
            ).resp_carry(),
            old(self).is_text() ==> ({
                let all = old(self).resp_carry() + chunk@;
                let k = all.len() - (all.len() % 3);
                &&& out@ == spec_b64_encode(all.take(k as int))
                &&& final(self).resp_carry() == all.skip(k as int)
            }),
    {
        if self.text {
            self.b64_resp.push(chunk)
        } else {
            copy_vec(chunk)
        }
    }

    /// Closes the response: the trailer set is serialized into one
    /// trailer frame, and in text mode the frame — together with any
    /// carried bytes — is flushed as padded base64.
    pub fn end_response(&mut self, trailers: &HeaderList) -> (out: Vec<u8>)
        requires
            old(self).inv(),
            wf_fields(trailers@),
            spec_encode_trailers(trailers@).len() + 8 <= u32::MAX,
            old(self).resp_carry().len() + spec_encode_trailers(trailers@).len() + 8
                <= usize::MAX,
        ensures
            final(self).inv(),
            ({
                let fb = spec_encode_frame(
                    FrameModel::Trailer(spec_encode_trailers(trailers@)),
                );
                &&& !old(self).is_text() ==> out@ == fb
                &&& old(self).is_text() ==> out@ == spec_b64_encode(old(self).resp_carry() + fb)
                    && final(self).resp_carry() == Seq::<u8>::empty()
            }),
    {
        let payload = encode_trailers(trailers);
        let frame_bytes = encode_frame(&Frame::Trailer(payload));
        if self.text {
            let ghost all = self.b64_resp.carry_bytes() + frame_bytes@;
            let mut out = self.b64_resp.push(&frame_bytes);
            let rest = self.b64_resp.finish();
            crate::bytes::extend(&mut out, &rest);
            proof {
                let k = (all.len() - (all.len() % 3)) as int;
                assert((all.len() - (all.len() % 3)) % 3 == 0) by (nonlinear_arith);
                assert(all.take(k).len() % 3 == 0);
                lemma_b64_encode_append(all.take(k), all.skip(k));
                assert(all.take(k) + all.skip(k) =~= all);
            }
            out
        } else {
            frame_bytes
        }
    }
}

impl<F: OriginDecider> Server<F> {
    /// Handles one request head: classifies it, and hands back the
    /// per-call state together with what the embedder must do — pass
    /// the call through, translate it, or answer the pre-flight from
    /// the CORS policy without touching the inner handler.
    pub fn call(&self, req: &RequestHead) -> (r: (ServerFuture, ServerAction))
        ensures
            ({
                let class = spec_classify(req.method, req.headers@);
                let origin = spec_get(req.headers@, spec_origin_name());
                let requested = match spec_get(req.headers@, spec_acr_headers_name()) {
                    None => Seq::<Seq<u8>>::empty(),
                    Some(v) => spec_split_commas(v),
                };
                let origin_ok = match self.origin_filter {
                    None => true,
                    Some(f) => match origin {
                        Some(o) => f.allows_spec(o),
                        None => false,
                    },
                };
                &&& r.0.inv()
                &&& r.0.is_translating() == (class == RequestClass::GrpcWeb || class
                    == RequestClass::GrpcWebText)
                &&& r.0.is_text() == (class == RequestClass::GrpcWebText)
                &&& r.0.req_carry() == Seq::<u8>::empty()
                &&& r.0.resp_carry() == Seq::<u8>::empty()
                &&& !r.0.req_finished()
                &&& class == RequestClass::CorsPreflight ==> (r.1 matches
                    ServerAction::Preflight { decision, response_headers } && spec_decision_ok(
                    self.config.cors_for_registered_endpoints_only,
                    crate::cors::view_opt_list(self.config.allowed_request_headers),
                    self.origin_filter is Some,
                    origin_ok,
                    req.path@,
                    origin,
                    requested,
                    decision@,
                ) && response_headers@ == spec_preflight_headers(decision@))
                &&& (class == RequestClass::GrpcWeb || class == RequestClass::GrpcWebText) ==> (
                r.1 matches ServerAction::Translate { grpc_head } && grpc_head.method
                    == req.method && grpc_head.path@ == req.path@ && grpc_head.headers@
                    == spec_with_default_ct(spec_headers_to_native(req.headers@)))
                &&& (class == RequestClass::NativeGrpc || class == RequestClass::Unrelated)
                    ==> r.1 is Passthrough
            }),
    {
        let class = classify(req);
        let translating = class == RequestClass::GrpcWeb || class == RequestClass::GrpcWebText;
        let fut = ServerFuture {
            translating,
            text: class == RequestClass::GrpcWebText,
            b64_req: Base64Decoder::new(),
            b64_resp: Base64Encoder::new(),
        };
        let action = if class == RequestClass::CorsPreflight {
            let origin = match req.headers.get(&origin_name()) {
                None => None,
                Some(o) => Some(copy_vec(o)),
            };
            let requested = match req.headers.get(&acr_headers_name()) {
                None => Vec::new(),
                Some(v) => split_commas(v),
            };
            let preq = PreflightRequest { path: copy_vec(&req.path), origin, requested_headers:
                requested };
            let decision = match &self.origin_filter {
                None => evaluate::<F>(&self.config, None, &preq),
                Some(f) => evaluate(&self.config, Some(f), &preq),
            };
            let response_headers = preflight_response_headers(&decision);
            proof {
                let origin_spec = spec_get(req.headers@, spec_origin_name());
                let requested_spec = match spec_get(req.headers@, spec_acr_headers_name()) {
                    None => Seq::<Seq<u8>>::empty(),
                    Some(v) => spec_split_commas(v),
                };
                assert(crate::cors::view_opt(preq.origin) == origin_spec);
                assert(views_of(preq.requested_headers@) =~= requested_spec);
                assert(preq.path@ == req.path@);
            }
            ServerAction::Preflight { decision, response_headers }
        } else if translating {
            let grpc_head = RequestHead {
                method: req.method,
                path: copy_vec(&req.path),
                headers: with_default_ct(headers_to_native(&req.headers)),
            };
            ServerAction::Translate { grpc_head }
        } else {
            ServerAction::Passthrough
        };
        (fut, action)
    }
}

} // verus!
