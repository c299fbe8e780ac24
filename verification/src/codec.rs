//! The HTTP/1 head decode/encode state machine.
//!
//! A [`Codec`] tracks the negotiated keep-alive state and the protocol
//! version of the current exchange. [`Codec::decode_head`] parses one
//! complete request head out of the read buffer, enforcing the fixed header
//! scratch capacity; [`Codec::encode_head`] renders a response head and
//! chooses the body framing; [`Framing::encode`] and [`Framing::encode_eof`]
//! render body chunks and the end-of-body marker. Every byte written is
//! pinned down by a specification over sequences.

use vstd::prelude::*;

use crate::ascii::{ascii_seq, lower_seq, push_str, region_eq_str, vec_eq_str_ci};
use crate::num::{dec_seq, hex_seq, push_dec, push_hex};

verus! {

/// Maximum number of header fields one request head may declare: the size of
/// the fixed header scratch area.
pub const HEADER_SCRATCH_CAP: usize = 8;

/// One header field, name and value.
#[derive(Debug)]
pub struct Header {
    pub name: Vec<u8>,
    pub value: Vec<u8>,
}

impl View for Header {
    type V = (Seq<u8>, Seq<u8>);

    open spec fn view(&self) -> (Seq<u8>, Seq<u8>) {
        (self.name@, self.value@)
    }
}

/// The mathematical view of a sequence of header fields.
pub open spec fn headers_view(hs: Seq<Header>) -> Seq<(Seq<u8>, Seq<u8>)> {
    hs.map_values(|h: Header| h@)
}

/// A decoded request head.
#[derive(Debug)]
pub struct RequestHead {
    pub method: Vec<u8>,
    pub path: Vec<u8>,
    /// 0 for HTTP/1.0, 1 for HTTP/1.1.
    pub version_minor: u8,
    pub headers: Vec<Header>,
}

/// The mathematical view of a request head.
pub struct HeadView {
    pub method: Seq<u8>,
    pub path: Seq<u8>,
    pub version_minor: nat,
    pub headers: Seq<(Seq<u8>, Seq<u8>)>,
}

impl View for RequestHead {
    type V = HeadView;

    open spec fn view(&self) -> HeadView {
        HeadView {
            method: self.method@,
            path: self.path@,
            version_minor: self.version_minor as nat,
            headers: headers_view(self.headers@),
        }
    }
}

/// Why a request head was rejected.
#[derive(Clone, Copy, Debug, PartialEq, Eq, Structural)]
pub enum DecodeError {
    /// The head does not follow the HTTP/1 grammar.
    Malformed,
    /// The head declares more header fields than the fixed scratch capacity.
    TooManyHeaders,
}

/// How a response body is delimited on the wire.
#[derive(Clone, Copy, Debug, PartialEq, Eq, Structural)]
pub enum Framing {
    /// `Content-Length`: the body is exactly this many bytes.
    Length(u64),
    /// `Transfer-Encoding: chunked`.
    Chunked,
    /// Delimited by closing the connection.
    Close,
}

/// What the caller knows about a response body before encoding its head.
#[derive(Clone, Copy, Debug, PartialEq, Eq, Structural)]
pub enum BodyDesc {
    /// A single buffer of the given length.
    Fixed(u64),
    /// A lazy sequence of chunks of unknown total length.
    Stream,
}

// ---------------------------------------------------------------------------
// Encode specifications
// ---------------------------------------------------------------------------

pub open spec fn crlf() -> Seq<u8> {
    ascii_seq("\r\n"@)
}

/// The reason phrase rendered after the status code.
pub open spec fn spec_reason(status: u16) -> Seq<u8> {
    if status == 200 {
        ascii_seq("OK"@)
    } else if status == 404 {
        ascii_seq("Not Found"@)
    } else if status == 500 {
        ascii_seq("Internal Server Error"@)
    } else {
        Seq::empty()
    }
}

/// `HTTP/1.x <status> <reason>\r\n`.
pub open spec fn spec_status_line(version_minor: nat, status: u16) -> Seq<u8> {
    (if version_minor == 1 {
        ascii_seq("HTTP/1.1 "@)
    } else {
        ascii_seq("HTTP/1.0 "@)
    }) + dec_seq(status as nat) + ascii_seq(" "@) + spec_reason(status) + crlf()
}

/// `<name>: <value>\r\n`.
pub open spec fn spec_header_field(h: (Seq<u8>, Seq<u8>)) -> Seq<u8> {
    h.0 + ascii_seq(": "@) + h.1 + crlf()
}

/// All header fields, in insertion order.
pub open spec fn spec_header_block(hs: Seq<(Seq<u8>, Seq<u8>)>) -> Seq<u8>
    decreases hs.len(),
{
    if hs.len() == 0 {
        Seq::empty()
    } else {
        spec_header_field(hs[0]) + spec_header_block(hs.drop_first())
    }
}

/// The fixed `Server` header every response carries.
pub open spec fn spec_server_header() -> Seq<u8> {
    ascii_seq("Server: xitca\r\n"@)
}

/// The `Date` header carrying the clock's cached timestamp.
pub open spec fn spec_date_header(date: Seq<u8>) -> Seq<u8> {
    ascii_seq("Date: "@) + date + crlf()
}

/// The header announcing the chosen body framing.
pub open spec fn spec_framing_header(f: Framing) -> Seq<u8> {
    match f {
        Framing::Length(n) => ascii_seq("Content-Length: "@) + dec_seq(n as nat) + crlf(),
        Framing::Chunked => ascii_seq("Transfer-Encoding: chunked\r\n"@),
        Framing::Close => Seq::empty(),
    }
}

/// The `Connection` header, where the negotiated state needs announcing.
pub open spec fn spec_conn_header(version_minor: nat, keep_alive: bool) -> Seq<u8> {
    if !keep_alive {
        ascii_seq("Connection: close\r\n"@)
    } else if version_minor == 0 {
        ascii_seq("Connection: keep-alive\r\n"@)
    } else {
        Seq::empty()
    }
}

/// The framing chosen for a body descriptor under the given protocol state.
pub open spec fn spec_framing(body: BodyDesc, version_minor: nat) -> Framing {
    match body {
        BodyDesc::Fixed(n) => Framing::Length(n),
        BodyDesc::Stream => if version_minor == 1 {
            Framing::Chunked
        } else {
            Framing::Close
        },
    }
}

/// The full encoded response head.
pub open spec fn spec_encode_head(
    version_minor: nat,
    status: u16,
    hs: Seq<(Seq<u8>, Seq<u8>)>,
    date: Seq<u8>,
    f: Framing,
    keep_alive: bool,
) -> Seq<u8> {
    spec_status_line(version_minor, status) + spec_header_block(hs) + spec_server_header()
        + spec_date_header(date) + spec_framing_header(f) + spec_conn_header(
        version_minor,
        keep_alive,
    ) + crlf()
}

/// What one body chunk contributes to the wire under a framing.
pub open spec fn spec_chunk(f: Framing, c: Seq<u8>) -> Seq<u8> {
    match f {
        Framing::Chunked => if c.len() == 0 {
            Seq::empty()
        } else {
            hex_seq(c.len()) + crlf() + c + crlf()
        },
        _ => c,
    }
}

/// The terminal end-of-body marker under a framing.
pub open spec fn spec_eof(f: Framing) -> Seq<u8> {
    match f {
        Framing::Chunked => ascii_seq("0\r\n\r\n"@),
        _ => Seq::empty(),
    }
}

proof fn lemma_header_block_snoc(hs: Seq<(Seq<u8>, Seq<u8>)>, h: (Seq<u8>, Seq<u8>))
    ensures
        spec_header_block(hs.push(h)) == spec_header_block(hs) + spec_header_field(h),
    decreases hs.len(),
{
    let s = hs.push(h);
    if hs.len() == 0 {
        assert(s[0] == h);
        assert(s.drop_first() =~= Seq::<(Seq<u8>, Seq<u8>)>::empty());
        assert(spec_header_block(s.drop_first()) =~= Seq::<u8>::empty());
        assert(spec_header_block(s) =~= spec_header_field(h) + Seq::<u8>::empty());
        assert(spec_header_block(s) =~= spec_header_block(hs) + spec_header_field(h));
    } else {
        assert(s[0] == hs[0]);
        assert(s.drop_first() =~= hs.drop_first().push(h));
        lemma_header_block_snoc(hs.drop_first(), h);
        assert(spec_header_block(s.drop_first()) == spec_header_block(hs.drop_first())
            + spec_header_field(h));
        assert(spec_header_block(s) == spec_header_field(hs[0]) + spec_header_block(s.drop_first()));
        assert(spec_header_block(hs) == spec_header_field(hs[0]) + spec_header_block(
            hs.drop_first(),
        ));
        assert(spec_header_block(s) =~= spec_header_block(hs) + spec_header_field(h));
    }
}

/// Law: encoding writes the caller's headers in insertion order: the header
/// block is exactly the fields before `i`, then field `i`, then the fields
/// after it, for every position `i`.
pub proof fn lemma_header_block_order(hs: Seq<(Seq<u8>, Seq<u8>)>, i: int)
    requires
        0 <= i < hs.len(),
    ensures
        spec_header_block(hs) == spec_header_block(hs.subrange(0, i)) + spec_header_field(hs[i])
            + spec_header_block(hs.subrange(i + 1, hs.len() as int)),
    decreases i,
{
    if i == 0 {
        assert(hs.subrange(0, 0) =~= Seq::<(Seq<u8>, Seq<u8>)>::empty());
        assert(hs.subrange(1, hs.len() as int) =~= hs.drop_first());
        assert(spec_header_block(hs) =~= spec_header_block(hs.subrange(0, 0)) + spec_header_field(
            hs[0],
        ) + spec_header_block(hs.subrange(1, hs.len() as int)));
    } else {
        let t = hs.drop_first();
        lemma_header_block_order(t, i - 1);
        assert(t[i - 1] == hs[i]);
        assert(t.subrange(0, i - 1) =~= hs.subrange(1, i));
        assert(t.subrange(i, t.len() as int) =~= hs.subrange(i + 1, hs.len() as int));
        let p = hs.subrange(0, i);
        assert(p[0] == hs[0]);
        assert(p.drop_first() =~= hs.subrange(1, i));
        assert(spec_header_block(p) == spec_header_field(hs[0]) + spec_header_block(
            hs.subrange(1, i),
        ));
        assert(spec_header_block(hs) == spec_header_field(hs[0]) + spec_header_block(t));
        assert(spec_header_block(hs) =~= spec_header_block(p) + spec_header_field(hs[i])
            + spec_header_block(hs.subrange(i + 1, hs.len() as int)));
    }
}

// ---------------------------------------------------------------------------
// Decode specifications
// ---------------------------------------------------------------------------

/// Position of the first `\r\n\r\n` at or after `i`, if any.
pub open spec fn find_term(s: Seq<u8>, i: int) -> Option<int>
    decreases s.len() - i,
{
    if !(0 <= i && i + 4 <= s.len()) {
        None
    } else if s[i] == 13 && s[i + 1] == 10 && s[i + 2] == 13 && s[i + 3] == 10 {
        Some(i)
    } else {
        find_term(s, i + 1)
    }
}

/// Position of the first `\r\n` wholly inside `[i, end)`, if any.
pub open spec fn find_crlf_b(s: Seq<u8>, i: int, end: int) -> Option<int>
    decreases end - i,
{
    if !(0 <= i && i + 2 <= end && end <= s.len()) {
        None
    } else if s[i] == 13 && s[i + 1] == 10 {
        Some(i)
    } else {
        find_crlf_b(s, i + 1, end)
    }
}

/// Position of the first occurrence of `b` inside `[i, end)`, if any.
pub open spec fn find_byte_b(s: Seq<u8>, i: int, end: int, b: u8) -> Option<int>
    decreases end - i,
{
    if !(0 <= i && i + 1 <= end && end <= s.len()) {
        None
    } else if s[i] == b {
        Some(i)
    } else {
        find_byte_b(s, i + 1, end, b)
    }
}

/// First position at or after `i` in `[i, end)` that does not hold a space.
pub open spec fn skip_sp_b(s: Seq<u8>, i: int, end: int) -> int
    decreases end - i,
{
    if 0 <= i && i < end && end <= s.len() && s[i] == 32 {
        skip_sp_b(s, i + 1, end)
    } else {
        i
    }
}

/// The line boundaries of the head region `[i, end)`, split at `\r\n`.
pub open spec fn split_bounds(s: Seq<u8>, i: int, end: int) -> Seq<(int, int)>
    decreases end - i,
{
    if !(0 <= i && i <= end && end <= s.len()) {
        Seq::empty()
    } else {
        match find_crlf_b(s, i, end) {
            None => seq![(i, end)],
            Some(c) => if i <= c && c + 2 <= end {
                seq![(i, c)] + split_bounds(s, c + 2, end)
            } else {
                seq![(i, end)]
            },
        }
    }
}

/// Parses the request line `s[a..b]`: method, path, and minor version.
pub open spec fn spec_request_line(s: Seq<u8>, a: int, b: int) -> Option<(Seq<u8>, Seq<u8>, nat)> {
    match find_byte_b(s, a, b, 32) {
        None => None,
        Some(i) => if i == a {
            None
        } else {
            match find_byte_b(s, i + 1, b, 32) {
                None => None,
                Some(k) => if k == i + 1 {
                    None
                } else {
                    let method = s.subrange(a, i);
                    let path = s.subrange(i + 1, k);
                    let ver = s.subrange(k + 1, b);
                    if ver == ascii_seq("HTTP/1.1"@) {
                        Some((method, path, 1 as nat))
                    } else if ver == ascii_seq("HTTP/1.0"@) {
                        Some((method, path, 0 as nat))
                    } else {
                        None
                    }
                },
            }
        },
    }
}

/// Parses the header line `s[a..b]`: name, then value with leading spaces
/// dropped.
pub open spec fn spec_header_line(s: Seq<u8>, a: int, b: int) -> Option<(Seq<u8>, Seq<u8>)> {
    match find_byte_b(s, a, b, 58) {
        None => None,
        Some(c) => if c == a {
            None
        } else {
            let v = skip_sp_b(s, c + 1, b);
            Some((s.subrange(a, c), s.subrange(v, b)))
        },
    }
}

/// Parses every header line in `bounds`, in order; `None` if any is
/// malformed.
pub open spec fn spec_header_fields(s: Seq<u8>, bounds: Seq<(int, int)>) -> Option<
    Seq<(Seq<u8>, Seq<u8>)>,
>
    decreases bounds.len(),
{
    if bounds.len() == 0 {
        Some(Seq::empty())
    } else {
        match spec_header_line(s, bounds[0].0, bounds[0].1) {
            None => None,
            Some(h) => match spec_header_fields(s, bounds.drop_first()) {
                None => None,
                Some(rest) => Some(seq![h] + rest),
            },
        }
    }
}

/// The value of the first header whose lower-cased name is `name`.
pub open spec fn spec_find_header(hs: Seq<(Seq<u8>, Seq<u8>)>, name: Seq<u8>) -> Option<Seq<u8>>
    decreases hs.len(),
{
    if hs.len() == 0 {
        None
    } else if lower_seq(hs[0].0) == name {
        Some(hs[0].1)
    } else {
        spec_find_header(hs.drop_first(), name)
    }
}

/// Keep-alive negotiated by the request: HTTP/1.1 unless `Connection: close`,
/// HTTP/1.0 only with `Connection: keep-alive`.
pub open spec fn spec_keep_alive(version_minor: nat, hs: Seq<(Seq<u8>, Seq<u8>)>) -> bool {
    match spec_find_header(hs, ascii_seq("connection"@)) {
        Some(v) => if lower_seq(v) == ascii_seq("close"@) {
            false
        } else if lower_seq(v) == ascii_seq("keep-alive"@) {
            true
        } else {
            version_minor == 1
        },
        None => version_minor == 1,
    }
}

/// What decoding a buffer yields.
pub enum Decoded {
    /// No complete head is buffered yet.
    Incomplete,
    /// The head is complete and rejected.
    Bad(DecodeError),
    /// One head, the bytes it consumed, and the keep-alive it negotiates.
    Parsed { head: HeadView, consumed: int, keep_alive: bool },
}

/// The decode relation: what one call of [`Codec::decode_head`] does to a
/// buffer holding `s`.
pub open spec fn spec_decode(s: Seq<u8>) -> Decoded {
    match find_term(s, 0) {
        None => Decoded::Incomplete,
        Some(j) => {
            let bounds = split_bounds(s, 0, j);
            match spec_request_line(s, bounds[0].0, bounds[0].1) {
                None => Decoded::Bad(DecodeError::Malformed),
                Some(rl) => if bounds.len() - 1 > HEADER_SCRATCH_CAP as int {
                    Decoded::Bad(DecodeError::TooManyHeaders)
                } else {
                    match spec_header_fields(s, bounds.drop_first()) {
                        None => Decoded::Bad(DecodeError::Malformed),
                        Some(hs) => Decoded::Parsed {
                            head: HeadView {
                                method: rl.0,
                                path: rl.1,
                                version_minor: rl.2,
                                headers: hs,
                            },
                            consumed: j + 4,
                            keep_alive: spec_keep_alive(rl.2, hs),
                        },
                    }
                },
            }
        },
    }
}

proof fn lemma_find_term_bounds(s: Seq<u8>, i: int)
    ensures
        find_term(s, i) matches Some(j) ==> i <= j && 0 <= j && j + 4 <= s.len(),
    decreases s.len() - i,
{
    if 0 <= i && i + 4 <= s.len() {
        if !(s[i] == 13 && s[i + 1] == 10 && s[i + 2] == 13 && s[i + 3] == 10) {
            lemma_find_term_bounds(s, i + 1);
        }
    }
}

/// How many bytes a successful decode removes from the front of the buffer:
/// at least the empty head, never more than what is buffered.
pub proof fn lemma_decode_consumed(s: Seq<u8>)
    ensures
        spec_decode(s) matches Decoded::Parsed { consumed, .. } ==> 4 <= consumed <= s.len(),
{
    lemma_find_term_bounds(s, 0);
}

#[via_fn]
proof fn heads_of_decreases(s: Seq<u8>) {
    lemma_decode_consumed(s);
}

/// The complete, well-formed request heads buffered in `s`, in input order,
/// up to the first incomplete or rejected head.
#[verifier::opaque]
pub open spec fn heads_of(s: Seq<u8>) -> Seq<HeadView>
    decreases s.len(),
    via heads_of_decreases
{
    match spec_decode(s) {
        Decoded::Parsed { head, consumed, .. } => seq![head] + heads_of(
            s.subrange(consumed, s.len() as int),
        ),
        _ => Seq::empty(),
    }
}

/// Law: decode followed by encode is deterministic framing. Once a request
/// head has been decoded, the bytes of an encoded response are a function of
/// the decoded version and keep-alive, the response parts, the clock's date
/// and the body descriptor alone, and they decompose into the status line,
/// the response headers in insertion order, the fixed and framing headers,
/// and the empty line, in that order.
pub proof fn lemma_decode_encode_round_trip(
    s: Seq<u8>,
    head: HeadView,
    consumed: int,
    ka: bool,
    status: u16,
    hs: Seq<(Seq<u8>, Seq<u8>)>,
    date: Seq<u8>,
    body: BodyDesc,
)
    requires
        spec_decode(s) == (Decoded::Parsed { head, consumed, keep_alive: ka }),
    ensures
        ({
            let f = spec_framing(body, head.version_minor);
            let ka2 = ka && !(f is Close);
            spec_encode_head(head.version_minor, status, hs, date, f, ka2) == spec_status_line(
                head.version_minor,
                status,
            ) + spec_header_block(hs) + spec_server_header() + spec_date_header(date)
                + spec_framing_header(f) + spec_conn_header(head.version_minor, ka2) + crlf()
        }),
{
}

// ---------------------------------------------------------------------------
// Decode helpers
// ---------------------------------------------------------------------------

fn find_term_exec(buf: &Vec<u8>) -> (r: Option<usize>)
    ensures
        match r {
            Some(j) => find_term(buf@, 0) == Some(j as int) && j + 4 <= buf@.len(),
            None => find_term(buf@, 0) is None,
        },
{
    let n: usize = buf.len();
    let mut i: usize = 0;
    while n - i >= 4
        invariant
            n == buf@.len(),
            0 <= i <= n,
            find_term(buf@, 0) == find_term(buf@, i as int),
        decreases n - i,
    {
        if buf[i] == 13 && buf[i + 1] == 10 && buf[i + 2] == 13 && buf[i + 3] == 10 {
            return Some(i);
        }
        i += 1;
    }
    None
}

fn find_crlf_b_exec(buf: &Vec<u8>, from: usize, end: usize) -> (r: Option<usize>)
    requires
        from <= end <= buf@.len(),
    ensures
        match r {
            Some(c) => find_crlf_b(buf@, from as int, end as int) == Some(c as int) && from <= c
                && c + 2 <= end,
            None => find_crlf_b(buf@, from as int, end as int) is None,
        },
{
    let mut i: usize = from;
    while end - i >= 2
        invariant
            from <= i <= end <= buf@.len(),
            find_crlf_b(buf@, from as int, end as int) == find_crlf_b(buf@, i as int, end as int),
        decreases end - i,
    {
        if buf[i] == 13 && buf[i + 1] == 10 {
            return Some(i);
        }
        i += 1;
    }
    None
}

fn find_byte_b_exec(buf: &Vec<u8>, from: usize, end: usize, b: u8) -> (r: Option<usize>)
    requires
        from <= end <= buf@.len(),
    ensures
        match r {
            Some(c) => find_byte_b(buf@, from as int, end as int, b) == Some(c as int) && from <= c
                && c < end,
            None => find_byte_b(buf@, from as int, end as int, b) is None,
        },
{
    let mut i: usize = from;
    while i < end
        invariant
            from <= i <= end <= buf@.len(),
            find_byte_b(buf@, from as int, end as int, b) == find_byte_b(
                buf@,
                i as int,
                end as int,
                b,
            ),
        decreases end - i,
    {
        if buf[i] == b {
            return Some(i);
        }
        i += 1;
    }
    None
}

fn skip_sp_b_exec(buf: &Vec<u8>, from: usize, end: usize) -> (r: usize)
    requires
        from <= end <= buf@.len(),
    ensures
        r as int == skip_sp_b(buf@, from as int, end as int),
        from <= r <= end,
{
    let mut i: usize = from;
    while i < end && buf[i] == 32
        invariant
            from <= i <= end <= buf@.len(),
            skip_sp_b(buf@, from as int, end as int) == skip_sp_b(buf@, i as int, end as int),
        decreases end - i,
    {
        i += 1;
    }
    i
}

/// Copies `buf[a..b]` into a fresh vector.
fn copy_region(buf: &Vec<u8>, a: usize, b: usize) -> (r: Vec<u8>)
    requires
        a <= b <= buf@.len(),
    ensures
        r@ == buf@.subrange(a as int, b as int),
{
    let mut out: Vec<u8> = Vec::new();
    out.extend_from_slice(&buf.as_slice()[a..b]);
    proof {
        assert(out@ =~= buf@.subrange(a as int, b as int));
    }
    out
}

proof fn lemma_header_fields_snoc(s: Seq<u8>, bounds: Seq<(int, int)>, x: (int, int))
    requires
        spec_header_fields(s, bounds) is Some,
    ensures
        spec_header_fields(s, bounds.push(x)) == match spec_header_line(s, x.0, x.1) {
            None => None::<Seq<(Seq<u8>, Seq<u8>)>>,
            Some(h) => Some(spec_header_fields(s, bounds)->Some_0.push(h)),
        },
    decreases bounds.len(),
{
    let t = bounds.push(x);
    if bounds.len() == 0 {
        assert(t[0] == x);
        assert(t.drop_first() =~= Seq::<(int, int)>::empty());
        match spec_header_line(s, x.0, x.1) {
            None => {
                assert(spec_header_fields(s, t) is None);
            },
            Some(h) => {
                assert(spec_header_fields(s, t.drop_first()) == Some(
                    Seq::<(Seq<u8>, Seq<u8>)>::empty(),
                ));
                assert(spec_header_fields(s, t)->Some_0 =~= spec_header_fields(
                    s,
                    bounds,
                )->Some_0.push(h));
            },
        }
    } else {
        assert(t[0] == bounds[0]);
        assert(t.drop_first() =~= bounds.drop_first().push(x));
        lemma_header_fields_snoc(s, bounds.drop_first(), x);
        match spec_header_line(s, x.0, x.1) {
            None => {
                assert(spec_header_fields(s, t.drop_first()) is None);
                assert(spec_header_fields(s, t) is None);
            },
            Some(h) => {
                assert(spec_header_fields(s, t)->Some_0 =~= spec_header_fields(
                    s,
                    bounds,
                )->Some_0.push(h));
            },
        }
    }
}

/// The line bounds as mathematical pairs.
pub open spec fn bounds_view(bs: Seq<(usize, usize)>) -> Seq<(int, int)> {
    bs.map_values(|p: (usize, usize)| (p.0 as int, p.1 as int))
}

proof fn lemma_header_fields_fail(s: Seq<u8>, t: Seq<(int, int)>, k: int)
    requires
        0 <= k < t.len(),
        spec_header_fields(s, t.subrange(0, k)) is Some,
        spec_header_line(s, t[k].0, t[k].1) is None,
    ensures
        spec_header_fields(s, t) is None,
    decreases k,
{
    if k == 0 {
        assert(spec_header_fields(s, t) is None);
    } else {
        assert(t.subrange(0, k)[0] == t[0]);
        assert(t.subrange(0, k).drop_first() =~= t.drop_first().subrange(0, k - 1));
        assert(spec_header_fields(s, t.drop_first().subrange(0, k - 1)) is Some);
        assert(t.drop_first()[k - 1] == t[k]);
        lemma_header_fields_fail(s, t.drop_first(), k - 1);
        assert(spec_header_fields(s, t) is None);
    }
}

/// Computes the keep-alive the given request head negotiates.
fn compute_keep_alive(version_minor: u8, headers: &Vec<Header>) -> (r: bool)
    ensures
        r == spec_keep_alive(version_minor as nat, headers_view(headers@)),
{
    proof {
        reveal_strlit("connection");
        reveal_strlit("close");
        reveal_strlit("keep-alive");
    }
    let ghost hv = headers_view(headers@);
    proof {
        assert(hv.skip(0) =~= hv);
    }
    let mut i: usize = 0;
    while i < headers.len()
        invariant
            0 <= i <= headers@.len(),
            hv == headers_view(headers@),
            hv.len() == headers@.len(),
            spec_find_header(hv, ascii_seq("connection"@)) == spec_find_header(
                hv.skip(i as int),
                ascii_seq("connection"@),
            ),
        decreases headers@.len() - i,
    {
        proof {
            reveal_strlit("connection");
            reveal_strlit("close");
            reveal_strlit("keep-alive");
            assert(hv.skip(i as int)[0] == hv[i as int]);
            assert(hv.skip(i as int).drop_first() =~= hv.skip(i as int + 1));
        }
        let h = &headers[i];
        if vec_eq_str_ci(&h.name, "connection") {
            proof {
                assert(spec_find_header(hv, ascii_seq("connection"@)) == Some(hv[i as int].1));
            }
            if vec_eq_str_ci(&h.value, "close") {
                return false;
            } else if vec_eq_str_ci(&h.value, "keep-alive") {
                return true;
            } else {
                return version_minor == 1;
            }
        }
        i += 1;
    }
    proof {
        assert(hv.skip(hv.len() as int) =~= Seq::<(Seq<u8>, Seq<u8>)>::empty());
    }
    version_minor == 1
}

/// Splits the head region `[0, j)` of `buf` into lines at each `\r\n`.
fn split_lines_exec(buf: &Vec<u8>, j: usize) -> (bounds: Vec<(usize, usize)>)
    requires
        j <= buf@.len(),
    ensures
        split_bounds(buf@, 0, j as int) == bounds_view(bounds@),
        bounds@.len() >= 1,
        forall|k: int| 0 <= k < bounds@.len() ==> 0 <= #[trigger] bounds@[k].0 <= bounds@[k].1 <= j,
{
    let mut bounds: Vec<(usize, usize)> = Vec::new();
    let mut cur: usize = 0;
    loop
        invariant_except_break
            cur <= j <= buf@.len(),
            split_bounds(buf@, 0, j as int) == bounds_view(bounds@) + split_bounds(
                buf@,
                cur as int,
                j as int,
            ),
            forall|k: int|
                0 <= k < bounds@.len() ==> 0 <= #[trigger] bounds@[k].0 <= bounds@[k].1 <= j,
        ensures
            split_bounds(buf@, 0, j as int) == bounds_view(bounds@),
            bounds@.len() >= 1,
            forall|k: int|
                0 <= k < bounds@.len() ==> 0 <= #[trigger] bounds@[k].0 <= bounds@[k].1 <= j,
        decreases j - cur,
    {
        let ghost pre = bounds@;
        match find_crlf_b_exec(buf, cur, j) {
            Some(c) => {
                bounds.push((cur, c));
                proof {
                    assert(split_bounds(buf@, cur as int, j as int) == seq![(cur as int, c as int)]
                        + split_bounds(buf@, c as int + 2, j as int));
                    assert(bounds_view(bounds@) =~= bounds_view(pre).push((cur as int, c as int)));
                    assert(bounds_view(pre) + split_bounds(buf@, cur as int, j as int)
                        =~= bounds_view(bounds@) + split_bounds(buf@, c as int + 2, j as int));
                }
                cur = c + 2;
            },
            None => {
                bounds.push((cur, j));
                proof {
                    assert(split_bounds(buf@, cur as int, j as int) == seq![(cur as int, j as int)]);
                    assert(bounds_view(bounds@) =~= bounds_view(pre).push((cur as int, j as int)));
                    assert(bounds_view(pre) + split_bounds(buf@, cur as int, j as int)
                        =~= bounds_view(bounds@));
                }
                break ;
            },
        }
    }
    bounds
}

// ---------------------------------------------------------------------------
// Encode helpers
// ---------------------------------------------------------------------------

fn push_status_line(version_minor: u8, status: u16, buf: &mut Vec<u8>)
    ensures
        final(buf)@ == old(buf)@ + spec_status_line(version_minor as nat, status),
{
    proof {
        reveal_strlit("HTTP/1.1 ");
        reveal_strlit("HTTP/1.0 ");
        reveal_strlit(" ");
        reveal_strlit("OK");
        reveal_strlit("Not Found");
        reveal_strlit("Internal Server Error");
        reveal_strlit("\r\n");
    }
    if version_minor == 1 {
        push_str(buf, "HTTP/1.1 ");
    } else {
        push_str(buf, "HTTP/1.0 ");
    }
    push_dec(buf, status as u64);
    push_str(buf, " ");
    if status == 200 {
        push_str(buf, "OK");
    } else if status == 404 {
        push_str(buf, "Not Found");
    } else if status == 500 {
        push_str(buf, "Internal Server Error");
    }
    push_str(buf, "\r\n");
    proof {
        assert(buf@ =~= old(buf)@ + spec_status_line(version_minor as nat, status));
    }
}

fn push_header_block(headers: &Vec<Header>, buf: &mut Vec<u8>)
    ensures
        final(buf)@ == old(buf)@ + spec_header_block(headers_view(headers@)),
{
    let ghost buf1 = buf@;
    let mut i: usize = 0;
    while i < headers.len()
        invariant
            0 <= i <= headers@.len(),
            buf@ == buf1 + spec_header_block(headers_view(headers@.subrange(0, i as int))),
        decreases headers@.len() - i,
    {
        proof {
            reveal_strlit(": ");
            reveal_strlit("\r\n");
        }
        let ghost pre = buf@;
        let h = &headers[i];
        buf.extend_from_slice(h.name.as_slice());
        push_str(buf, ": ");
        buf.extend_from_slice(h.value.as_slice());
        push_str(buf, "\r\n");
        proof {
            assert(buf@ =~= pre + spec_header_field(headers@[i as int]@));
            let prefix = headers_view(headers@.subrange(0, i as int));
            lemma_header_block_snoc(prefix, headers@[i as int]@);
            assert(headers_view(headers@.subrange(0, i as int + 1)) =~= prefix.push(
                headers@[i as int]@,
            ));
            assert(buf@ =~= buf1 + spec_header_block(
                headers_view(headers@.subrange(0, i as int + 1)),
            ));
        }
        i += 1;
    }
    proof {
        assert(headers@.subrange(0, headers@.len() as int) =~= headers@);
        assert(buf@ =~= buf1 + spec_header_block(headers_view(headers@)));
    }
}

fn push_fixed_headers(date: &Vec<u8>, buf: &mut Vec<u8>)
    ensures
        final(buf)@ == old(buf)@ + spec_server_header() + spec_date_header(date@),
{
    proof {
        reveal_strlit("Server: xitca\r\n");
        reveal_strlit("Date: ");
        reveal_strlit("\r\n");
    }
    push_str(buf, "Server: xitca\r\n");
    push_str(buf, "Date: ");
    buf.extend_from_slice(date.as_slice());
    push_str(buf, "\r\n");
    proof {
        assert(buf@ =~= old(buf)@ + spec_server_header() + spec_date_header(date@));
    }
}

fn push_framing_header(version_minor: u8, body: BodyDesc, buf: &mut Vec<u8>) -> (f: Framing)
    ensures
        f == spec_framing(body, version_minor as nat),
        final(buf)@ == old(buf)@ + spec_framing_header(f),
{
    proof {
        reveal_strlit("Content-Length: ");
        reveal_strlit("Transfer-Encoding: chunked\r\n");
        reveal_strlit("\r\n");
    }
    let f: Framing = match body {
        BodyDesc::Fixed(n) => {
            push_str(buf, "Content-Length: ");
            push_dec(buf, n);
            push_str(buf, "\r\n");
            Framing::Length(n)
        },
        BodyDesc::Stream => {
            if version_minor == 1 {
                push_str(buf, "Transfer-Encoding: chunked\r\n");
                Framing::Chunked
            } else {
                Framing::Close
            }
        },
    };
    proof {
        assert(buf@ =~= old(buf)@ + spec_framing_header(f));
    }
    f
}

fn push_conn_header(version_minor: u8, keep_alive: bool, buf: &mut Vec<u8>)
    ensures
        final(buf)@ == old(buf)@ + spec_conn_header(version_minor as nat, keep_alive),
{
    proof {
        reveal_strlit("Connection: close\r\n");
        reveal_strlit("Connection: keep-alive\r\n");
    }
    if !keep_alive {
        push_str(buf, "Connection: close\r\n");
    } else if version_minor == 0 {
        push_str(buf, "Connection: keep-alive\r\n");
    }
    proof {
        assert(buf@ =~= old(buf)@ + spec_conn_header(version_minor as nat, keep_alive));
    }
}

// ---------------------------------------------------------------------------
// The codec context
// ---------------------------------------------------------------------------

/// Keep-alive and version state of one connection's current exchange.
pub struct Codec {
    /// Whether the connection stays open after the current response.
    pub keep_alive: bool,
    /// Minor version of the current request: 0 or 1.
    pub version_minor: u8,
}

impl Codec {
    /// A fresh codec: HTTP/1.1 semantics, keep-alive, until a request says
    /// otherwise.
    pub fn new() -> (c: Codec)
        ensures
            c.keep_alive,
            c.version_minor == 1,
    {
        Codec { keep_alive: true, version_minor: 1 }
    }

    /// Renders a response head into `buf` and returns the chosen framing.
    ///
    /// The status line, the caller's headers in insertion order, the fixed
    /// `Server` header, a `Date` header carrying `date`, the framing header
    /// and the `Connection` header are appended, terminated by an empty
    /// line. Close-delimited framing turns keep-alive off.
    pub fn encode_head(
        &mut self,
        status: u16,
        headers: &Vec<Header>,
        body: BodyDesc,
        date: &Vec<u8>,
        buf: &mut Vec<u8>,
    ) -> (f: Framing)
        ensures
            f == spec_framing(body, old(self).version_minor as nat),
            final(self).keep_alive == (old(self).keep_alive && !(f is Close)),
            final(self).version_minor == old(self).version_minor,
            final(buf)@ == old(buf)@ + spec_encode_head(
                old(self).version_minor as nat,
                status,
                headers_view(headers@),
                date@,
                f,
                final(self).keep_alive,
            ),
    {
        let ghost buf0 = buf@;
        push_status_line(self.version_minor, status, buf);
        push_header_block(headers, buf);
        push_fixed_headers(date, buf);
        let f = push_framing_header(self.version_minor, body, buf);
        if matches!(f, Framing::Close) {
            self.keep_alive = false;
        }
        push_conn_header(self.version_minor, self.keep_alive, buf);
        proof {
            reveal_strlit("\r\n");
        }
        push_str(buf, "\r\n");
        proof {
            assert(buf@ =~= buf0 + spec_encode_head(
                self.version_minor as nat,
                status,
                headers_view(headers@),
                date@,
                f,
                self.keep_alive,
            ));
        }
        f
    }

    /// Attempts to decode one complete request head from the front of `buf`.
    ///
    /// Returns `Ok(None)` when no complete head is buffered yet: the caller
    /// must read more bytes. On success the consumed bytes are removed from
    /// `buf` and the codec adopts the head's protocol version and the
    /// keep-alive it negotiates. A head that breaks the HTTP/1 grammar, or
    /// declares more header fields than the fixed scratch capacity, is
    /// rejected; the connection must then be torn down.
    #[verifier::rlimit(100)]
    pub fn decode_head(&mut self, buf: &mut Vec<u8>) -> (r: Result<
        Option<RequestHead>,
        DecodeError,
    >)
        ensures
            match spec_decode(old(buf)@) {
                Decoded::Incomplete => r matches Ok(h) && h is None && final(buf)@ == old(buf)@
                    && *final(self) == *old(self),
                Decoded::Bad(e) => r == Err::<Option<RequestHead>, DecodeError>(e) && final(buf)@
                    == old(buf)@ && *final(self) == *old(self),
                Decoded::Parsed { head, consumed, keep_alive } => {
                    &&& r matches Ok(Some(h)) && h@ == head
                    &&& 0 <= consumed <= old(buf)@.len()
                    &&& final(buf)@ == old(buf)@.subrange(consumed, old(buf)@.len() as int)
                    &&& final(self).keep_alive == keep_alive
                    &&& final(self).version_minor as nat == head.version_minor
                },
            },
    {
        proof {
            reveal_strlit("HTTP/1.1");
            reveal_strlit("HTTP/1.0");
        }
        let j: usize = match find_term_exec(buf) {
            None => {
                return Ok(None);
            },
            Some(j) => j,
        };

        // Split the head region [0, j) into lines.
        let bounds = split_lines_exec(buf, j);
        let ghost bv = bounds_view(bounds@);
        proof {
            assert(bv[0] == (bounds@[0].0 as int, bounds@[0].1 as int));
        }

        // Request line: method, path, version.
        let p0 = bounds[0];
        let a0: usize = p0.0;
        let b0: usize = p0.1;
        let sp1: usize = match find_byte_b_exec(buf, a0, b0, 32) {
            None => {
                return Err(DecodeError::Malformed);
            },
            Some(i) => i,
        };
        if sp1 == a0 {
            return Err(DecodeError::Malformed);
        }
        let sp2: usize = match find_byte_b_exec(buf, sp1 + 1, b0, 32) {
            None => {
                return Err(DecodeError::Malformed);
            },
            Some(k) => k,
        };
        if sp2 == sp1 + 1 {
            return Err(DecodeError::Malformed);
        }
        let version: u8 = if region_eq_str(buf, sp2 + 1, b0, "HTTP/1.1") {
            1
        } else if region_eq_str(buf, sp2 + 1, b0, "HTTP/1.0") {
            0
        } else {
            return Err(DecodeError::Malformed);
        };
        proof {
            assert(spec_request_line(buf@, bv[0].0, bv[0].1) matches Some(rl) && rl.2
                == version as nat);
        }

        // The fixed scratch area bounds how many header fields one head may
        // declare.
        if bounds.len() - 1 > HEADER_SCRATCH_CAP {
            return Err(DecodeError::TooManyHeaders);
        }

        // Header fields, in order.
        let mut headers: Vec<Header> = Vec::new();
        let mut k: usize = 1;
        while k < bounds.len()
            invariant
                1 <= k <= bounds@.len(),
                bv == bounds_view(bounds@),
                bv.len() == bounds@.len(),
                j + 4 <= buf@.len(),
                find_term(buf@, 0) == Some(j as int),
                split_bounds(buf@, 0, j as int) == bv,
                spec_request_line(buf@, bv[0].0, bv[0].1) is Some,
                bv.len() - 1 <= HEADER_SCRATCH_CAP as int,
                forall|m: int|
                    0 <= m < bounds@.len() ==> 0 <= #[trigger] bounds@[m].0 <= bounds@[m].1 <= j,
                spec_header_fields(buf@, bv.subrange(1, k as int)) == Some(
                    headers_view(headers@),
                ),
            decreases bounds@.len() - k,
        {
            let pk = bounds[k];
            let a: usize = pk.0;
            let b: usize = pk.1;
            let ghost prefix = bv.subrange(1, k as int);
            let c: usize = match find_byte_b_exec(buf, a, b, 58) {
                None => {
                    proof {
                        assert(bv[k as int] == (bounds@[k as int].0 as int, bounds@[
                            k as int
                        ].1 as int));
                        assert(spec_header_line(buf@, bv[k as int].0, bv[k as int].1) is None);
                        assert(bv.subrange(1, bv.len() as int)[k - 1] == bv[k as int]);
                        assert(bv.subrange(1, bv.len() as int).subrange(0, k - 1) =~= prefix);
                        lemma_header_fields_fail(buf@, bv.subrange(1, bv.len() as int), k - 1);
                        assert(bv.subrange(1, bv.len() as int) =~= bv.drop_first());
                    }
                    return Err(DecodeError::Malformed);
                },
                Some(c) => c,
            };
            if c == a {
                proof {
                    assert(bv[k as int] == (bounds@[k as int].0 as int, bounds@[
                        k as int
                    ].1 as int));
                    assert(spec_header_line(buf@, bv[k as int].0, bv[k as int].1) is None);
                    assert(bv.subrange(1, bv.len() as int)[k - 1] == bv[k as int]);
                    assert(bv.subrange(1, bv.len() as int).subrange(0, k - 1) =~= prefix);
                    lemma_header_fields_fail(buf@, bv.subrange(1, bv.len() as int), k - 1);
                    assert(bv.subrange(1, bv.len() as int) =~= bv.drop_first());
                }
                return Err(DecodeError::Malformed);
            }
            let v: usize = skip_sp_b_exec(buf, c + 1, b);
            let name = copy_region(buf, a, c);
            let value = copy_region(buf, v, b);
            let ghost pre_h = headers@;
            headers.push(Header { name, value });
            proof {
                lemma_header_fields_snoc(buf@, prefix, bv[k as int]);
                assert(bv.subrange(1, k as int + 1) =~= prefix.push(bv[k as int]));
                assert(headers_view(headers@) =~= headers_view(pre_h).push(
                    (buf@.subrange(a as int, c as int), buf@.subrange(v as int, b as int)),
                ));
            }
            k += 1;
        }
        proof {
            assert(bv.subrange(1, bv.len() as int) =~= bv.drop_first());
        }

        // Negotiated keep-alive, and the decoded head.
        let keep_alive = compute_keep_alive(version, &headers);
        self.keep_alive = keep_alive;
        self.version_minor = version;
        let method = copy_region(buf, a0, sp1);
        let path = copy_region(buf, sp1 + 1, sp2);
        let n: usize = buf.len();
        proof {
            assert(j + 4 <= n);
        }
        let tail = buf.split_off(j + 4);
        *buf = tail;
        let head = RequestHead { method, path, version_minor: version, headers };
        Ok(Some(head))
    }
}

impl Framing {
    /// Appends one body chunk under this framing. Under chunked framing an
    /// empty chunk contributes nothing (the terminal marker is the business
    /// of [`Framing::encode_eof`] alone).
    pub fn encode(&self, chunk: &Vec<u8>, buf: &mut Vec<u8>)
        ensures
            final(buf)@ == old(buf)@ + spec_chunk(*self, chunk@),
    {
        proof {
            reveal_strlit("\r\n");
        }
        match self {
            Framing::Chunked => {
                if chunk.len() > 0 {
                    push_hex(buf, chunk.len() as u64);
                    push_str(buf, "\r\n");
                    buf.extend_from_slice(chunk.as_slice());
                    push_str(buf, "\r\n");
                    proof {
                        assert(buf@ =~= old(buf)@ + spec_chunk(*self, chunk@));
                    }
                }
            },
            _ => {
                buf.extend_from_slice(chunk.as_slice());
                proof {
                    assert(buf@ =~= old(buf)@ + spec_chunk(*self, chunk@));
                }
            },
        }
    }

    /// Appends the end-of-body marker under this framing.
    pub fn encode_eof(&self, buf: &mut Vec<u8>)
        ensures
            final(buf)@ == old(buf)@ + spec_eof(*self),
    {
        proof {
            reveal_strlit("0\r\n\r\n");
        }
        match self {
            Framing::Chunked => {
                push_str(buf, "0\r\n\r\n");
            },
            _ => {
                proof {
                    assert(buf@ =~= old(buf)@ + spec_eof(*self));
                }
            },
        }
    }
}

} // verus!
