use grpc_web::headers::{HeaderList, encode_trailers, decode_trailers, web_to_native_ct,
    native_to_web_ct, strip_transport_headers, split_commas, status_trailers, u64_to_decimal,
    with_default_ct};
use grpc_web::AdapterError;

fn list(fields: &[(&str, &str)]) -> HeaderList {
    let mut h = HeaderList::new();
    for (n, v) in fields {
        h.push(n.as_bytes().to_vec(), v.as_bytes().to_vec());
    }
    h
}

#[test]
fn trailer_block_exact_bytes() {
    let t = list(&[("grpc-status", "0")]);
    assert_eq!(encode_trailers(&t), b"grpc-status: 0\r\n".to_vec());
}

#[test]
fn trailer_block_round_trip() {
    let t = list(&[
        ("grpc-status", "3"),
        ("grpc-message", "bad argument"),
        ("x-extra", "one"),
        ("x-extra", "two"),
    ]);
    let block = encode_trailers(&t);
    let back = decode_trailers(&block).expect("well-formed block");
    assert_eq!(back, t);
}

#[test]
fn trailer_block_keeps_value_order_per_name() {
    let t = list(&[("x-seq", "1"), ("x-seq", "2"), ("x-seq", "3")]);
    let back = decode_trailers(&encode_trailers(&t)).expect("well-formed block");
    let values: Vec<&[u8]> = back.fields.iter().map(|f| f.value.as_slice()).collect();
    assert_eq!(values, vec![b"1".as_slice(), b"2".as_slice(), b"3".as_slice()]);
}

#[test]
fn empty_trailer_block_round_trip() {
    let t = HeaderList::new();
    let block = encode_trailers(&t);
    assert_eq!(block, Vec::<u8>::new());
    assert_eq!(decode_trailers(&block).expect("empty block"), t);
}

#[test]
fn malformed_trailer_block_is_framing_error() {
    assert_eq!(decode_trailers(&b"no colon here\r\n".to_vec()).map(|_| ()).unwrap_err(),
        AdapterError::Framing);
    assert_eq!(decode_trailers(&b"name:missing-space\r\n".to_vec()).map(|_| ()).unwrap_err(),
        AdapterError::Framing);
    assert_eq!(decode_trailers(&b"name: unterminated".to_vec()).map(|_| ()).unwrap_err(),
        AdapterError::Framing);
}

#[test]
fn content_type_rewrite_to_native() {
    assert_eq!(web_to_native_ct(&b"application/grpc-web".to_vec()),
        b"application/grpc".to_vec());
    assert_eq!(web_to_native_ct(&b"application/grpc-web+proto".to_vec()),
        b"application/grpc+proto".to_vec());
    assert_eq!(web_to_native_ct(&b"application/grpc-web-text".to_vec()),
        b"application/grpc-text".to_vec());
    assert_eq!(web_to_native_ct(&b"text/html".to_vec()), b"text/html".to_vec());
}

#[test]
fn content_type_rewrite_idempotence() {
    for suffix in ["", "+proto", "-text"] {
        let original = format!("application/grpc-web{}", suffix).into_bytes();
        let native = web_to_native_ct(&original);
        assert_eq!(native_to_web_ct(&native), original);
    }
    for suffix in ["", "+proto"] {
        let original = format!("application/grpc{}", suffix).into_bytes();
        let web = native_to_web_ct(&original);
        assert_eq!(web_to_native_ct(&web), original);
    }
}

#[test]
fn strip_removes_pseudo_headers_only() {
    let h = list(&[(":status", "200"), ("content-type", "application/grpc"), (":path", "/x")]);
    let stripped = strip_transport_headers(&h);
    assert_eq!(stripped, list(&[("content-type", "application/grpc")]));
}

#[test]
fn split_commas_items() {
    let items = split_commas(&b"x-one,x-two,x-three".to_vec());
    assert_eq!(items, vec![b"x-one".to_vec(), b"x-two".to_vec(), b"x-three".to_vec()]);
    assert_eq!(split_commas(&Vec::new()), Vec::<Vec<u8>>::new());
    assert_eq!(split_commas(&b"alone".to_vec()), vec![b"alone".to_vec()]);
}

#[test]
fn decimal_rendering() {
    assert_eq!(u64_to_decimal(0), b"0".to_vec());
    assert_eq!(u64_to_decimal(12), b"12".to_vec());
    assert_eq!(u64_to_decimal(10405), b"10405".to_vec());
}

#[test]
fn status_trailers_shape() {
    let t = status_trailers(0, None);
    assert_eq!(encode_trailers(&t), b"grpc-status: 0\r\n".to_vec());
    let msg = b"deadline exceeded".to_vec();
    let t2 = status_trailers(4, Some(&msg));
    assert_eq!(encode_trailers(&t2),
        b"grpc-status: 4\r\ngrpc-message: deadline exceeded\r\n".to_vec());
}

#[test]
fn default_content_type_inserted_when_absent() {
    let bare = with_default_ct(HeaderList::new());
    assert_eq!(bare, list(&[("content-type", "application/grpc")]));
    let present = list(&[("content-type", "application/grpc+proto")]);
    assert_eq!(with_default_ct(present.clone()), present);
}

#[test]
fn trailer_names_are_case_insensitive() {
    let back = decode_trailers(&b"Grpc-Status: 0\r\nGRPC-MESSAGE: ok\r\n".to_vec())
        .expect("mixed-case names are accepted");
    assert_eq!(back, list(&[("grpc-status", "0"), ("grpc-message", "ok")]));
}
