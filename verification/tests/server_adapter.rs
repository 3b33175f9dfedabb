use grpc_web::server::{ServerBuilder, ServerAction, RequestHead, HttpMethod, RequestClass,
    classify, ConfigError};
use grpc_web::cors::AllowListOrigins;
use grpc_web::headers::{HeaderList, encode_trailers, decode_trailers, status_trailers};
use grpc_web::frame::{Frame, FrameDecoder, FrameStep, encode_message};

fn headers(fields: &[(&str, &str)]) -> HeaderList {
    let mut h = HeaderList::new();
    for (n, v) in fields {
        h.push(n.as_bytes().to_vec(), v.as_bytes().to_vec());
    }
    h
}

fn head(method: HttpMethod, path: &str, fields: &[(&str, &str)]) -> RequestHead {
    RequestHead { method, path: path.as_bytes().to_vec(), headers: headers(fields) }
}

fn get_value<'a>(h: &'a HeaderList, name: &str) -> Option<&'a Vec<u8>> {
    let n = name.as_bytes().to_vec();
    h.get(&n)
}

#[test]
fn health_get_is_unrelated_and_passed_through() {
    let req = head(HttpMethod::Get, "/health", &[]);
    assert_eq!(classify(&req), RequestClass::Unrelated);
    let server = ServerBuilder::new().build();
    let (_fut, action) = server.call(&req);
    assert!(matches!(action, ServerAction::Passthrough));
}

#[test]
fn native_grpc_post_is_passed_through() {
    let req = head(HttpMethod::Post, "/pkg.Svc/Method", &[("content-type", "application/grpc")]);
    assert_eq!(classify(&req), RequestClass::NativeGrpc);
    let server = ServerBuilder::new().build();
    let (_fut, action) = server.call(&req);
    assert!(matches!(action, ServerAction::Passthrough));
}

#[test]
fn grpc_web_call_is_translated_end_to_end() {
    let req = head(HttpMethod::Post, "/pkg.Svc/Method", &[
        ("content-type", "application/grpc-web+proto"),
        ("x-grpc-web", "1"),
    ]);
    assert_eq!(classify(&req), RequestClass::GrpcWeb);

    let server = ServerBuilder::new().build();
    let (mut fut, action) = server.call(&req);
    let grpc_head = match action {
        ServerAction::Translate { grpc_head } => grpc_head,
        other => panic!("expected translation, got {:?}", matches!(other, ServerAction::Passthrough)),
    };
    assert_eq!(get_value(&grpc_head.headers, "content-type").unwrap(),
        &b"application/grpc+proto".to_vec());

    // the inner handler receives the decoded message bytes unchanged
    let message = b"\x08\x01".to_vec();
    let body = encode_message(&message);
    let forwarded = fut.on_request_chunk(&body).expect("binary body passes through");
    assert_eq!(forwarded, body);
    assert!(fut.on_request_end().is_ok());
    let mut dec = FrameDecoder::new(1024);
    dec.push(&forwarded);
    assert_eq!(dec.next_frame(), FrameStep::Ready(Frame::Message(message)));

    // a handler response with status 0 ends in a trailer frame
    // carrying `grpc-status: 0`
    let response_body = fut.on_response_chunk(&encode_message(&b"\x08\x02".to_vec()));
    let tail = fut.end_response(&status_trailers(0, None));
    let mut stream = response_body;
    stream.extend(tail);
    let mut out = FrameDecoder::new(1024);
    out.push(&stream);
    assert_eq!(out.next_frame(), FrameStep::Ready(Frame::Message(b"\x08\x02".to_vec())));
    match out.next_frame() {
        FrameStep::Ready(Frame::Trailer(p)) => {
            assert_eq!(p, b"grpc-status: 0\r\n".to_vec());
        },
        other => panic!("expected a trailer frame, got need-more={:?}",
            matches!(other, FrameStep::NeedMoreData)),
    }
    assert_eq!(out.next_frame(), FrameStep::NeedMoreData);
}

#[test]
fn text_mode_request_body_is_base64_decoded() {
    let req = head(HttpMethod::Post, "/pkg.Svc/Method", &[
        ("content-type", "application/grpc-web-text"),
    ]);
    assert_eq!(classify(&req), RequestClass::GrpcWebText);
    let server = ServerBuilder::new().build();
    let (mut fut, _action) = server.call(&req);

    let message = b"payload".to_vec();
    let frame_bytes = encode_message(&message);
    let mut enc = grpc_web::text::Base64Encoder::new();
    let mut text = enc.push(&frame_bytes);
    text.extend(enc.finish());

    let mut decoded = Vec::new();
    // feed one character at a time across group boundaries
    for c in &text {
        decoded.extend(fut.on_request_chunk(&vec![*c]).expect("valid text body"));
    }
    assert!(fut.on_request_end().is_ok());
    assert_eq!(decoded, frame_bytes);

    // the response trailer comes back base64-encoded
    let tail = fut.end_response(&status_trailers(0, None));
    let mut dec = grpc_web::text::Base64Decoder::new();
    let raw = dec.push(&tail).expect("valid base64 tail");
    let mut frames = FrameDecoder::new(1024);
    frames.push(&raw);
    assert_eq!(frames.next_frame(),
        FrameStep::Ready(Frame::Trailer(b"grpc-status: 0\r\n".to_vec())));
}

#[test]
fn preflight_default_config_answers_wildcard() {
    let req = head(HttpMethod::Options, "/pkg.Svc/Method", &[
        ("origin", "https://example.com"),
        ("access-control-request-method", "POST"),
    ]);
    assert_eq!(classify(&req), RequestClass::CorsPreflight);
    let server = ServerBuilder::new().build();
    let (_fut, action) = server.call(&req);
    match action {
        ServerAction::Preflight { decision, response_headers } => {
            assert!(decision.allowed);
            assert_eq!(decision.allow_origin, Some(b"*".to_vec()));
            assert!(!decision.allow_credentials);
            assert_eq!(get_value(&response_headers, "access-control-allow-origin").unwrap(),
                &b"*".to_vec());
            assert_eq!(get_value(&response_headers, "access-control-allow-methods").unwrap(),
                &b"POST".to_vec());
        },
        _ => panic!("expected a pre-flight answer"),
    }
}

#[test]
fn preflight_for_unregistered_path_is_denied() {
    let req = head(HttpMethod::Options, "/health", &[
        ("origin", "https://example.com"),
        ("access-control-request-method", "POST"),
    ]);
    let server = ServerBuilder::new().build();
    let (_fut, action) = server.call(&req);
    match action {
        ServerAction::Preflight { decision, response_headers } => {
            assert!(!decision.allowed);
            assert_eq!(decision.allow_origin, None);
            assert_eq!(decision.allow_headers, None);
            assert_eq!(response_headers, HeaderList::new());
        },
        _ => panic!("expected a pre-flight answer"),
    }
}

#[test]
fn preflight_unregistered_path_allowed_when_restriction_off() {
    let req = head(HttpMethod::Options, "/anything", &[
        ("origin", "https://example.com"),
        ("access-control-request-method", "POST"),
    ]);
    let server = ServerBuilder::new().cors_for_registered_endpoints_only(false).build();
    let (_fut, action) = server.call(&req);
    match action {
        ServerAction::Preflight { decision, .. } => assert!(decision.allowed),
        _ => panic!("expected a pre-flight answer"),
    }
}

#[test]
fn preflight_origin_filter_echoes_admitted_origin() {
    let filter = AllowListOrigins { allowed: vec![b"https://example.com".to_vec()] };
    let server = ServerBuilder::new().origin_filter(filter).build();

    let admitted = head(HttpMethod::Options, "/pkg.Svc/Method", &[
        ("origin", "https://example.com"),
        ("access-control-request-method", "POST"),
    ]);
    match server.call(&admitted).1 {
        ServerAction::Preflight { decision, .. } => {
            assert!(decision.allowed);
            assert_eq!(decision.allow_origin, Some(b"https://example.com".to_vec()));
            assert!(decision.allow_credentials);
        },
        _ => panic!("expected a pre-flight answer"),
    }

    let denied = head(HttpMethod::Options, "/pkg.Svc/Method", &[
        ("origin", "https://evil.example"),
        ("access-control-request-method", "POST"),
    ]);
    match server.call(&denied).1 {
        ServerAction::Preflight { decision, .. } => assert!(!decision.allowed),
        _ => panic!("expected a pre-flight answer"),
    }
}

#[test]
fn preflight_header_allow_list_intersection() {
    let builder = ServerBuilder::new()
        .allowed_request_headers(vec![b"x-custom".to_vec()])
        .expect("valid names");
    let server = builder.build();
    let req = head(HttpMethod::Options, "/pkg.Svc/Method", &[
        ("origin", "https://example.com"),
        ("access-control-request-method", "POST"),
        ("access-control-request-headers", "x-custom,x-other"),
    ]);
    match server.call(&req).1 {
        ServerAction::Preflight { decision, .. } => {
            assert!(decision.allowed);
            assert_eq!(decision.allow_headers, Some(vec![
                b"x-custom".to_vec(),
                b"content-type".to_vec(),
                b"x-grpc-web".to_vec(),
                b"grpc-timeout".to_vec(),
            ]));
        },
        _ => panic!("expected a pre-flight answer"),
    }
}

#[test]
fn preflight_wildcard_headers_echo_request() {
    let server = ServerBuilder::new().build();
    let req = head(HttpMethod::Options, "/pkg.Svc/Method", &[
        ("origin", "https://example.com"),
        ("access-control-request-method", "POST"),
        ("access-control-request-headers", "x-a,x-b"),
    ]);
    match server.call(&req).1 {
        ServerAction::Preflight { decision, .. } => {
            assert_eq!(decision.allow_headers, Some(vec![b"x-a".to_vec(), b"x-b".to_vec()]));
        },
        _ => panic!("expected a pre-flight answer"),
    }
}

#[test]
fn invalid_allow_list_name_is_fatal_at_construction() {
    let r = ServerBuilder::new().allowed_request_headers(vec![b"Bad Header".to_vec()]);
    match r {
        Err(e) => assert_eq!(e, ConfigError::InvalidHeaderName),
        Ok(_) => panic!("an invalid header name must be rejected at construction"),
    }
}

#[test]
fn handler_error_still_yields_well_formed_trailer_frame() {
    let req = head(HttpMethod::Post, "/pkg.Svc/Method", &[
        ("content-type", "application/grpc-web"),
    ]);
    let server = ServerBuilder::new().build();
    let (mut fut, _action) = server.call(&req);
    let msg = b"internal error".to_vec();
    let tail = fut.end_response(&status_trailers(13, Some(&msg)));
    let mut dec = FrameDecoder::new(1024);
    dec.push(&tail);
    match dec.next_frame() {
        FrameStep::Ready(Frame::Trailer(p)) => {
            let t = decode_trailers(&p).expect("well-formed trailer block");
            assert_eq!(encode_trailers(&t),
                b"grpc-status: 13\r\ngrpc-message: internal error\r\n".to_vec());
        },
        _ => panic!("expected a trailer frame"),
    }
}
