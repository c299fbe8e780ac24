use xitca_h1::clock::Clock;
use xitca_h1::driver::{Conn, Response, ResponseBody, Step};
use xitca_h1::service::handler;

const DATE: u64 = 784111777; // Sun, 06 Nov 1994 08:49:37 GMT

fn read_step_spare(s: &Step) -> usize {
    match s {
        Step::Read { spare } => *spare,
        _ => panic!("expected a read step"),
    }
}

#[test]
fn fresh_connection_reads_with_spare() {
    let mut conn = Conn::new();
    let s = conn.start();
    assert!(read_step_spare(&s) >= 4096);
}

#[test]
fn eof_read_shuts_down_cleanly() {
    let mut conn = Conn::new();
    conn.start();
    let s = conn.on_read(&[]);
    assert!(matches!(s, Step::Shutdown));
}

#[test]
fn incomplete_head_flushes_then_reads_again() {
    let mut conn = Conn::new();
    conn.start();
    let s = conn.on_read(b"GET /plaintext HT");
    assert!(matches!(s, Step::Flush));
    let s = conn.on_flushed();
    assert_eq!(conn.write_buf.len(), 0);
    assert!(read_step_spare(&s) >= 4096);
}

#[test]
fn too_many_headers_fail_before_dispatch() {
    let mut conn = Conn::new();
    conn.start();
    let mut req: Vec<u8> = b"GET / HTTP/1.1\r\n".to_vec();
    for i in 0..9 {
        req.extend_from_slice(format!("h{}: v\r\n", i).as_bytes());
    }
    req.extend_from_slice(b"\r\n");
    let s = conn.on_read(&req);
    assert!(matches!(s, Step::Fail { err: xitca_h1::codec::DecodeError::TooManyHeaders }));
}

#[test]
fn two_pipelined_requests_one_read_two_dispatches_one_flush() {
    let clock = Clock::new(DATE);
    let mut conn = Conn::new();
    conn.start();
    let s = conn.on_read(b"GET /plaintext HTTP/1.1\r\n\r\nGET /nowhere HTTP/1.1\r\n\r\n");

    // First head dispatched, in input order.
    let head1 = match s {
        Step::Dispatch { head } => head,
        _ => panic!("expected a dispatch"),
    };
    assert_eq!(head1.path, b"/plaintext".to_vec());
    let res1 = handler(&head1);
    let s = conn.on_response(&res1, clock.get());

    // Second head dispatched without any intermediate read.
    let head2 = match s {
        Step::Dispatch { head } => head,
        _ => panic!("expected a second dispatch"),
    };
    assert_eq!(head2.path, b"/nowhere".to_vec());
    let res2 = handler(&head2);
    let s = conn.on_response(&res2, clock.get());

    // Both responses buffered; only now does the driver flush.
    assert!(matches!(s, Step::Flush));
    let expected = b"HTTP/1.1 200 OK\r\n\
Content-Type: text/plain\r\n\
Server: xitca\r\n\
Date: Sun, 06 Nov 1994 08:49:37 GMT\r\n\
Content-Length: 13\r\n\r\n\
Hello, World!\
HTTP/1.1 404 Not Found\r\n\
Server: xitca\r\n\
Date: Sun, 06 Nov 1994 08:49:37 GMT\r\n\
Content-Length: 0\r\n\r\n";
    assert_eq!(conn.write_buf, expected.to_vec());

    // After the flush the write buffer is empty and reading resumes.
    let s = conn.on_flushed();
    assert_eq!(conn.write_buf.len(), 0);
    assert!(read_step_spare(&s) >= 4096);
}

#[test]
fn streaming_response_chunks_in_order_then_eof() {
    let clock = Clock::new(DATE);
    let mut conn = Conn::new();
    conn.start();
    let s = conn.on_read(b"GET /stream HTTP/1.1\r\n\r\n");
    let _head = match s {
        Step::Dispatch { head } => head,
        _ => panic!("expected a dispatch"),
    };
    let res = Response { status: 200, headers: Vec::new(), body: ResponseBody::Stream };
    let s = conn.on_response(&res, clock.get());
    assert!(matches!(s, Step::NextChunk));
    let head_len = conn.write_buf.len();

    let s = conn.on_chunk(Some(&b"a".to_vec()));
    assert!(matches!(s, Step::NextChunk));
    let s = conn.on_chunk(Some(&b"bb".to_vec()));
    assert!(matches!(s, Step::NextChunk));
    let s = conn.on_chunk(Some(&Vec::new()));
    assert!(matches!(s, Step::NextChunk));
    let s = conn.on_chunk(None);
    assert!(matches!(s, Step::Flush));

    assert_eq!(&conn.write_buf[head_len..], b"1\r\na\r\n2\r\nbb\r\n0\r\n\r\n");
}

#[test]
fn connection_close_request_shuts_down_after_flush() {
    let clock = Clock::new(DATE);
    let mut conn = Conn::new();
    conn.start();
    let s = conn.on_read(b"GET /plaintext HTTP/1.1\r\nConnection: close\r\n\r\n");
    let head = match s {
        Step::Dispatch { head } => head,
        _ => panic!("expected a dispatch"),
    };
    let res = handler(&head);
    let s = conn.on_response(&res, clock.get());
    assert!(matches!(s, Step::Flush));
    let s = conn.on_flushed();
    assert!(matches!(s, Step::Shutdown));
}

#[test]
fn head_split_across_two_reads() {
    let clock = Clock::new(DATE);
    let mut conn = Conn::new();
    conn.start();
    let s = conn.on_read(b"GET /plaintext HTT");
    assert!(matches!(s, Step::Flush));
    let s = conn.on_flushed();
    assert!(read_step_spare(&s) >= 4096);
    let s = conn.on_read(b"P/1.1\r\n\r\n");
    let head = match s {
        Step::Dispatch { head } => head,
        _ => panic!("expected a dispatch"),
    };
    assert_eq!(head.path, b"/plaintext".to_vec());
    let res = handler(&head);
    let s = conn.on_response(&res, clock.get());
    assert!(matches!(s, Step::Flush));
}

#[test]
fn completion_style_owned_buffers() {
    let clock = Clock::new(DATE);
    let mut conn = Conn::new();
    conn.start();

    // A completion read owns the buffer and appends what it received.
    let mut b = conn.lend_read_buf();
    assert!(b.is_empty());
    b.extend_from_slice(b"GET /plaintext HTTP/1.1\r\n\r\n");
    let s = conn.on_owned_read(b);
    let head = match s {
        Step::Dispatch { head } => head,
        _ => panic!("expected a dispatch"),
    };

    let res = handler(&head);
    let s = conn.on_response(&res, clock.get());
    assert!(matches!(s, Step::Flush));

    // A completion write owns the buffer until every byte is sent.
    let wb = conn.lend_write_buf();
    assert!(conn.write_buf.is_empty());
    assert!(wb.starts_with(b"HTTP/1.1 200 OK\r\n"));
    let s = conn.on_owned_flush(wb);
    assert_eq!(conn.write_buf.len(), 0);
    assert!(read_step_spare(&s) >= 4096);
}

#[test]
fn completion_read_of_nothing_is_eof() {
    let mut conn = Conn::new();
    conn.start();
    let b = conn.lend_read_buf();
    let s = conn.on_owned_read(b);
    assert!(matches!(s, Step::Shutdown));
}

#[test]
fn malformed_head_fails_connection() {
    let mut conn = Conn::new();
    conn.start();
    let s = conn.on_read(b"BROKEN\r\n\r\n");
    assert!(matches!(s, Step::Fail { err: xitca_h1::codec::DecodeError::Malformed }));
}
