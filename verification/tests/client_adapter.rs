use grpc_web::client::{Client, ClientEvent, check_response_content_type};
use grpc_web::server::{RequestHead, HttpMethod};
use grpc_web::headers::{HeaderList, encode_trailers};
use grpc_web::frame::{Frame, encode_frame, encode_message};
use grpc_web::text::Base64Encoder;
use grpc_web::AdapterError;

fn headers(fields: &[(&str, &str)]) -> HeaderList {
    let mut h = HeaderList::new();
    for (n, v) in fields {
        h.push(n.as_bytes().to_vec(), v.as_bytes().to_vec());
    }
    h
}

fn trailer_frame(fields: &[(&str, &str)]) -> Vec<u8> {
    encode_frame(&Frame::Trailer(encode_trailers(&headers(fields))))
}

#[test]
fn outgoing_request_is_rewritten_to_web() {
    let client = Client::new(false, 1024);
    let req = RequestHead {
        method: HttpMethod::Post,
        path: b"/pkg.Svc/Method".to_vec(),
        headers: headers(&[("content-type", "application/grpc+proto"), ("te", "trailers")]),
    };
    let out = client.prepare_request(&req);
    assert_eq!(out.method, HttpMethod::Post);
    assert_eq!(out.path, b"/pkg.Svc/Method".to_vec());
    let ct = b"content-type".to_vec();
    assert_eq!(out.headers.get(&ct).unwrap(), &b"application/grpc-web+proto".to_vec());
}

#[test]
fn outgoing_request_text_mode_content_type() {
    let client = Client::new(true, 1024);
    let req = RequestHead {
        method: HttpMethod::Post,
        path: b"/pkg.Svc/Method".to_vec(),
        headers: headers(&[("content-type", "application/grpc")]),
    };
    let out = client.prepare_request(&req);
    let ct = b"content-type".to_vec();
    assert_eq!(out.headers.get(&ct).unwrap(), &b"application/grpc-web-text".to_vec());
}

#[test]
fn response_head_is_restored_to_native() {
    let client = Client::new(false, 1024);
    let restored = client.restore_response(&headers(&[
        ("content-type", "application/grpc-web+proto"),
    ]));
    let ct = b"content-type".to_vec();
    assert_eq!(restored.get(&ct).unwrap(), &b"application/grpc+proto".to_vec());
}

#[test]
fn restored_response_drops_pseudo_headers() {
    let client = Client::new(false, 1024);
    let restored = client.restore_response(&headers(&[
        (":status", "200"),
        ("content-type", "application/grpc-web"),
    ]));
    assert_eq!(restored, headers(&[("content-type", "application/grpc")]));
}

#[test]
fn response_stream_splits_messages_and_trailers() {
    let client = Client::new(false, 1024);
    let mut call = client.begin_call();

    let mut stream = encode_message(&b"one".to_vec());
    stream.extend(encode_message(&b"two".to_vec()));
    stream.extend(trailer_frame(&[("grpc-status", "0")]));

    call.push_response_chunk(&stream).expect("well-formed stream");
    assert_eq!(call.next_event(), Ok(ClientEvent::Message(b"one".to_vec())));
    assert_eq!(call.next_event(), Ok(ClientEvent::Message(b"two".to_vec())));
    assert_eq!(call.next_event(), Ok(ClientEvent::TrailerSeen));
    let trailers = call.finish().expect("trailer frame arrived");
    assert_eq!(*trailers, headers(&[("grpc-status", "0")]));
}

#[test]
fn dropped_connection_yields_missing_trailer_error() {
    let client = Client::new(false, 1024);
    let mut call = client.begin_call();
    // the peer sends one message, then the connection drops
    call.push_response_chunk(&encode_message(&b"partial".to_vec())).expect("valid frame");
    assert_eq!(call.next_event(), Ok(ClientEvent::Message(b"partial".to_vec())));
    assert_eq!(call.next_event(), Ok(ClientEvent::NeedMoreData));
    assert_eq!(call.finish().map(|_| ()).unwrap_err(), AdapterError::MissingTrailer);
}

#[test]
fn message_after_trailer_is_rejected() {
    let client = Client::new(false, 1024);
    let mut call = client.begin_call();
    let mut stream = trailer_frame(&[("grpc-status", "0")]);
    stream.extend(encode_message(&b"late".to_vec()));
    call.push_response_chunk(&stream).expect("frames parse");
    assert_eq!(call.next_event(), Ok(ClientEvent::TrailerSeen));
    assert_eq!(call.next_event(), Err(AdapterError::Framing));
}

#[test]
fn text_mode_round_trip_through_client() {
    let client = Client::new(true, 1024);
    let mut call = client.begin_call();

    // outbound body is base64-encoded with a final padded flush
    let body = encode_message(&b"ask".to_vec());
    let mut sent = call.on_request_chunk(&body);
    sent.extend(call.end_request());
    let mut enc = Base64Encoder::new();
    let mut expected = enc.push(&body);
    expected.extend(enc.finish());
    assert_eq!(sent, expected);

    // inbound text stream, fed in odd-sized chunks
    let mut raw = encode_message(&b"answer".to_vec());
    raw.extend(trailer_frame(&[("grpc-status", "0")]));
    let mut enc2 = Base64Encoder::new();
    let mut text = enc2.push(&raw);
    text.extend(enc2.finish());
    for chunk in text.chunks(5) {
        call.push_response_chunk(&chunk.to_vec()).expect("valid text stream");
    }
    assert_eq!(call.next_event(), Ok(ClientEvent::Message(b"answer".to_vec())));
    assert_eq!(call.next_event(), Ok(ClientEvent::TrailerSeen));
    assert!(call.finish().is_ok());
}

#[test]
fn oversized_response_message_is_rejected() {
    let client = Client::new(false, 4);
    let mut call = client.begin_call();
    call.push_response_chunk(&encode_message(&b"too large".to_vec())).expect("bytes buffered");
    assert_eq!(call.next_event(), Err(AdapterError::MessageTooLarge));
}

#[test]
fn foreign_response_content_type_is_unsupported() {
    assert!(check_response_content_type(&headers(&[
        ("content-type", "application/grpc-web+proto"),
    ])).is_ok());
    assert!(check_response_content_type(&headers(&[
        ("content-type", "application/grpc"),
    ])).is_ok());
    assert_eq!(check_response_content_type(&headers(&[("content-type", "text/html")]))
        .unwrap_err(), AdapterError::UnsupportedContentType);
    assert_eq!(check_response_content_type(&headers(&[])).unwrap_err(),
        AdapterError::UnsupportedContentType);
}
