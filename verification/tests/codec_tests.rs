use xitca_h1::codec::{BodyDesc, Codec, DecodeError, Framing, Header};

fn decode(input: &[u8]) -> (Codec, Vec<u8>, Result<Option<xitca_h1::codec::RequestHead>, DecodeError>) {
    let mut codec = Codec::new();
    let mut buf: Vec<u8> = input.to_vec();
    let r = codec.decode_head(&mut buf);
    (codec, buf, r)
}

#[test]
fn decode_simple_get() {
    let (codec, buf, r) = decode(b"GET /plaintext HTTP/1.1\r\nHost: localhost\r\n\r\n");
    let head = r.unwrap().unwrap();
    assert_eq!(head.method, b"GET".to_vec());
    assert_eq!(head.path, b"/plaintext".to_vec());
    assert_eq!(head.version_minor, 1);
    assert_eq!(head.headers.len(), 1);
    assert_eq!(head.headers[0].name, b"Host".to_vec());
    assert_eq!(head.headers[0].value, b"localhost".to_vec());
    assert!(codec.keep_alive);
    assert!(buf.is_empty());
}

#[test]
fn decode_incomplete_returns_none() {
    let (_, buf, r) = decode(b"GET /plaintext HTTP/1.1\r\nHost: local");
    assert!(r.unwrap().is_none());
    assert_eq!(buf, b"GET /plaintext HTTP/1.1\r\nHost: local".to_vec());
}

#[test]
fn decode_empty_buffer_returns_none() {
    let (_, buf, r) = decode(b"");
    assert!(r.unwrap().is_none());
    assert!(buf.is_empty());
}

#[test]
fn decode_malformed_request_line() {
    let (_, _, r) = decode(b"NONSENSE\r\n\r\n");
    assert_eq!(r.unwrap_err(), DecodeError::Malformed);
}

#[test]
fn decode_bad_version_is_malformed() {
    let (_, _, r) = decode(b"GET / HTTP/2.0\r\n\r\n");
    assert_eq!(r.unwrap_err(), DecodeError::Malformed);
}

#[test]
fn decode_header_without_colon_is_malformed() {
    let (_, _, r) = decode(b"GET / HTTP/1.1\r\nNoColonHere\r\n\r\n");
    assert_eq!(r.unwrap_err(), DecodeError::Malformed);
}

#[test]
fn decode_eight_headers_accepted() {
    let mut req: Vec<u8> = b"GET / HTTP/1.1\r\n".to_vec();
    for i in 0..8 {
        req.extend_from_slice(format!("h{}: v\r\n", i).as_bytes());
    }
    req.extend_from_slice(b"\r\n");
    let (_, _, r) = decode(&req);
    let head = r.unwrap().unwrap();
    assert_eq!(head.headers.len(), 8);
}

#[test]
fn decode_nine_headers_rejected() {
    let mut req: Vec<u8> = b"GET / HTTP/1.1\r\n".to_vec();
    for i in 0..9 {
        req.extend_from_slice(format!("h{}: v\r\n", i).as_bytes());
    }
    req.extend_from_slice(b"\r\n");
    let (_, _, r) = decode(&req);
    assert_eq!(r.unwrap_err(), DecodeError::TooManyHeaders);
}

#[test]
fn decode_pipelined_heads_in_order() {
    let mut codec = Codec::new();
    let mut buf: Vec<u8> = b"GET /a HTTP/1.1\r\n\r\nGET /b HTTP/1.1\r\n\r\n".to_vec();
    let first = codec.decode_head(&mut buf).unwrap().unwrap();
    assert_eq!(first.path, b"/a".to_vec());
    let second = codec.decode_head(&mut buf).unwrap().unwrap();
    assert_eq!(second.path, b"/b".to_vec());
    assert!(codec.decode_head(&mut buf).unwrap().is_none());
}

#[test]
fn decode_connection_close_turns_keep_alive_off() {
    let (codec, _, r) = decode(b"GET / HTTP/1.1\r\nConnection: close\r\n\r\n");
    r.unwrap().unwrap();
    assert!(!codec.keep_alive);
}

#[test]
fn decode_http10_defaults_to_close() {
    let (codec, _, r) = decode(b"GET / HTTP/1.0\r\n\r\n");
    let head = r.unwrap().unwrap();
    assert_eq!(head.version_minor, 0);
    assert!(!codec.keep_alive);
}

#[test]
fn decode_http10_keep_alive_header() {
    let (codec, _, r) = decode(b"GET / HTTP/1.0\r\nConnection: Keep-Alive\r\n\r\n");
    r.unwrap().unwrap();
    assert!(codec.keep_alive);
}

#[test]
fn decode_value_leading_spaces_dropped() {
    let (_, _, r) = decode(b"GET / HTTP/1.1\r\nHost:   padded\r\n\r\n");
    let head = r.unwrap().unwrap();
    assert_eq!(head.headers[0].value, b"padded".to_vec());
}

#[test]
fn decode_empty_path_is_malformed() {
    let (_, _, r) = decode(b"GET  / HTTP/1.1\r\n\r\n");
    assert_eq!(r.unwrap_err(), DecodeError::Malformed);
}

#[test]
fn decode_empty_method_is_malformed() {
    let (_, _, r) = decode(b" / HTTP/1.1\r\n\r\n");
    assert_eq!(r.unwrap_err(), DecodeError::Malformed);
}

#[test]
fn decode_empty_header_name_is_malformed() {
    let (_, _, r) = decode(b"GET / HTTP/1.1\r\n: no-name\r\n\r\n");
    assert_eq!(r.unwrap_err(), DecodeError::Malformed);
}

#[test]
fn encode_head_server_error_reason() {
    let mut codec = Codec::new();
    let mut buf: Vec<u8> = Vec::new();
    let date: Vec<u8> = b"Thu, 01 Jan 1970 00:00:00 GMT".to_vec();
    codec.encode_head(500, &Vec::new(), BodyDesc::Fixed(0), &date, &mut buf);
    assert!(String::from_utf8(buf).unwrap().starts_with("HTTP/1.1 500 Internal Server Error\r\n"));
}

#[test]
fn encode_head_fixed_body() {
    let mut codec = Codec::new();
    let mut buf: Vec<u8> = Vec::new();
    let mut req: Vec<u8> = b"GET / HTTP/1.1\r\n\r\n".to_vec();
    codec.decode_head(&mut req).unwrap().unwrap();
    let date: Vec<u8> = b"Sun, 06 Nov 1994 08:49:37 GMT".to_vec();
    let headers = vec![Header { name: b"Content-Type".to_vec(), value: b"text/plain".to_vec() }];
    let f = codec.encode_head(200, &headers, BodyDesc::Fixed(13), &date, &mut buf);
    assert_eq!(f, Framing::Length(13));
    let expected = b"HTTP/1.1 200 OK\r\n\
Content-Type: text/plain\r\n\
Server: xitca\r\n\
Date: Sun, 06 Nov 1994 08:49:37 GMT\r\n\
Content-Length: 13\r\n\r\n";
    assert_eq!(buf, expected.to_vec());
}

#[test]
fn encode_head_http10_announces_keep_alive() {
    let mut codec = Codec::new();
    let mut req: Vec<u8> = b"GET / HTTP/1.0\r\nConnection: keep-alive\r\n\r\n".to_vec();
    codec.decode_head(&mut req).unwrap().unwrap();
    let mut buf: Vec<u8> = Vec::new();
    let date: Vec<u8> = b"Thu, 01 Jan 1970 00:00:00 GMT".to_vec();
    let f = codec.encode_head(404, &Vec::new(), BodyDesc::Fixed(0), &date, &mut buf);
    assert_eq!(f, Framing::Length(0));
    let expected = b"HTTP/1.0 404 Not Found\r\n\
Server: xitca\r\n\
Date: Thu, 01 Jan 1970 00:00:00 GMT\r\n\
Content-Length: 0\r\n\
Connection: keep-alive\r\n\r\n";
    assert_eq!(buf, expected.to_vec());
}

#[test]
fn encode_head_close_after_connection_close() {
    let mut codec = Codec::new();
    let mut req: Vec<u8> = b"GET / HTTP/1.1\r\nConnection: close\r\n\r\n".to_vec();
    codec.decode_head(&mut req).unwrap().unwrap();
    let mut buf: Vec<u8> = Vec::new();
    let date: Vec<u8> = b"Thu, 01 Jan 1970 00:00:00 GMT".to_vec();
    codec.encode_head(200, &Vec::new(), BodyDesc::Fixed(2), &date, &mut buf);
    let s = String::from_utf8(buf).unwrap();
    assert!(s.contains("Connection: close\r\n"));
    assert!(!codec.keep_alive);
}

#[test]
fn encode_stream_on_http11_is_chunked() {
    let mut codec = Codec::new();
    let mut req: Vec<u8> = b"GET / HTTP/1.1\r\n\r\n".to_vec();
    codec.decode_head(&mut req).unwrap().unwrap();
    let mut buf: Vec<u8> = Vec::new();
    let date: Vec<u8> = b"Thu, 01 Jan 1970 00:00:00 GMT".to_vec();
    let f = codec.encode_head(200, &Vec::new(), BodyDesc::Stream, &date, &mut buf);
    assert_eq!(f, Framing::Chunked);
    assert!(String::from_utf8(buf).unwrap().contains("Transfer-Encoding: chunked\r\n"));
    assert!(codec.keep_alive);
}

#[test]
fn encode_stream_on_http10_is_close_delimited() {
    let mut codec = Codec::new();
    let mut req: Vec<u8> = b"GET / HTTP/1.0\r\nConnection: keep-alive\r\n\r\n".to_vec();
    codec.decode_head(&mut req).unwrap().unwrap();
    let mut buf: Vec<u8> = Vec::new();
    let date: Vec<u8> = b"Thu, 01 Jan 1970 00:00:00 GMT".to_vec();
    let f = codec.encode_head(200, &Vec::new(), BodyDesc::Stream, &date, &mut buf);
    assert_eq!(f, Framing::Close);
    assert!(!codec.keep_alive);
    assert!(String::from_utf8(buf).unwrap().contains("Connection: close\r\n"));
}

#[test]
fn chunked_framing_per_chunk() {
    let f = Framing::Chunked;
    let mut buf: Vec<u8> = Vec::new();
    f.encode(&b"a".to_vec(), &mut buf);
    assert_eq!(buf, b"1\r\na\r\n".to_vec());
    f.encode(&b"bb".to_vec(), &mut buf);
    assert_eq!(buf, b"1\r\na\r\n2\r\nbb\r\n".to_vec());
    f.encode(&Vec::new(), &mut buf);
    assert_eq!(buf, b"1\r\na\r\n2\r\nbb\r\n".to_vec());
    f.encode_eof(&mut buf);
    assert_eq!(buf, b"1\r\na\r\n2\r\nbb\r\n0\r\n\r\n".to_vec());
}

#[test]
fn chunked_framing_hex_sizes() {
    let f = Framing::Chunked;
    let mut buf: Vec<u8> = Vec::new();
    let chunk: Vec<u8> = vec![120u8; 26];
    f.encode(&chunk, &mut buf);
    assert_eq!(&buf[0..4], b"1a\r\n");
}

#[test]
fn length_framing_writes_raw_bytes() {
    let f = Framing::Length(5);
    let mut buf: Vec<u8> = Vec::new();
    f.encode(&b"hello".to_vec(), &mut buf);
    f.encode_eof(&mut buf);
    assert_eq!(buf, b"hello".to_vec());
}
