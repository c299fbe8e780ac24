use xitca_h1::clock::Clock;
use xitca_h1::codec::RequestHead;
use xitca_h1::driver::{Conn, Step};
use xitca_h1::driver::{Response, ResponseBody};
use xitca_h1::service::{handler, Http1IOU};

fn get(path: &[u8]) -> RequestHead {
    RequestHead { method: b"GET".to_vec(), path: path.to_vec(), version_minor: 1, headers: Vec::new() }
}

fn body_bytes(res: &Response) -> &Vec<u8> {
    match &res.body {
        ResponseBody::Full(b) => b,
        ResponseBody::Stream => panic!("expected a full body"),
    }
}

#[test]
fn plaintext_route() {
    let res = handler(&get(b"/plaintext"));
    assert_eq!(res.status, 200);
    assert_eq!(body_bytes(&res), &b"Hello, World!".to_vec());
    assert_eq!(res.headers.len(), 1);
    assert_eq!(res.headers[0].name, b"Content-Type".to_vec());
    assert_eq!(res.headers[0].value, b"text/plain".to_vec());
}

#[test]
fn unknown_route_is_not_found() {
    let res = handler(&get(b"/unknown-path"));
    assert_eq!(res.status, 404);
    assert!(body_bytes(&res).is_empty());
    assert!(res.headers.is_empty());
}

#[test]
fn builder_carries_service_and_stamps_clock() {
    let svc: u32 = 7;
    let built = Http1IOU::new(svc);
    assert_eq!(built.service, 7);
    let runner = built.call(784111777);
    assert_eq!(runner.service, 7);
    assert_eq!(runner.date.get(), &b"Sun, 06 Nov 1994 08:49:37 GMT".to_vec());
}

#[test]
fn full_exchange_bytes_for_plaintext() {
    let clock = Clock::new(784111777);
    let mut conn = Conn::new();
    conn.start();
    let s = conn.on_read(b"GET /plaintext HTTP/1.1\r\n\r\n");
    let head = match s {
        Step::Dispatch { head } => head,
        _ => panic!("expected a dispatch"),
    };
    let res = handler(&head);
    let s = conn.on_response(&res, clock.get());
    assert!(matches!(s, Step::Flush));
    let text = String::from_utf8(conn.write_buf.clone()).unwrap();
    assert!(text.starts_with("HTTP/1.1 200 OK\r\n"));
    assert!(text.contains("Server: xitca\r\n"));
    assert!(text.contains("Date: Sun, 06 Nov 1994 08:49:37 GMT\r\n"));
    assert!(text.contains("Content-Type: text/plain\r\n"));
    assert!(text.ends_with("\r\n\r\nHello, World!"));
}

#[test]
fn handler_result_carries_no_server_or_date() {
    // The fixed headers belong to the codec, not the dispatcher.
    let res = handler(&get(b"/plaintext"));
    for h in &res.headers {
        assert_ne!(h.name, b"Server".to_vec());
        assert_ne!(h.name, b"Date".to_vec());
    }
}
