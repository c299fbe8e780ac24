//! The connection driver: the per-connection protocol loop as a verified
//! step machine.
//!
//! One [`Conn`] holds the read buffer, the write buffer and the codec of a
//! single connection. The surrounding task owns the transport and performs
//! the I/O: it asks the driver what to do next, performs the returned
//! [`Step`] (read, dispatch, poll a body chunk, flush, shut down), and hands
//! the outcome back through the matching `on_*` call. Between two I/O
//! suspension points every decision is made here and verified:
//!
//! - before every read the read buffer is granted at least
//!   [`READ_SPARE`] bytes of spare capacity;
//! - all request heads already buffered are dispatched in input order, and
//!   none of the `on_*` steps ever asks for a read while heads may remain;
//! - a read of zero bytes ends the connection cleanly;
//! - a protocol error ends the connection without dispatching the offending
//!   head;
//! - after a flush the write buffer is empty again.

use vstd::prelude::*;

use crate::codec::{
    BodyDesc, Codec, DecodeError, Decoded, Framing, HeadView, Header, RequestHead, headers_view,
    heads_of, lemma_decode_consumed, spec_chunk, spec_decode, spec_encode_head, spec_eof,
    spec_framing,
};

verus! {

/// Spare read-buffer capacity guaranteed before every read.
pub const READ_SPARE: usize = 4096;

/// What the connection task must do next.
pub enum Step {
    /// Read at most `spare` bytes and hand them to [`Conn::on_read`].
    Read { spare: usize },
    /// Call the dispatcher on `head` and hand the response to
    /// [`Conn::on_response`].
    Dispatch { head: RequestHead },
    /// Await the next body chunk and hand it to [`Conn::on_chunk`].
    NextChunk,
    /// Write the whole write buffer out, then call [`Conn::on_flushed`].
    Flush,
    /// Shut the transport down; the connection is over, without error.
    Shutdown,
    /// Protocol failure: tear the connection down.
    Fail { err: DecodeError },
}

/// Which event the driver is waiting for.
#[derive(Clone, Copy, Debug, PartialEq, Eq, Structural)]
pub enum Phase {
    /// A read is outstanding; the driver still holds the read buffer.
    Reading,
    /// A completion-style read is outstanding and owns the read buffer.
    ReadingLent,
    /// A dispatcher call is outstanding.
    Dispatching,
    /// A body-chunk poll is outstanding.
    Streaming,
    /// A flush is outstanding; the driver still holds the write buffer.
    Flushing,
    /// A completion-style write is outstanding and owns the write buffer.
    FlushingLent,
    /// The connection is over.
    Closed,
}

/// A response handed back by the dispatcher.
pub enum ResponseBody {
    /// The whole body in one buffer.
    Full(Vec<u8>),
    /// A lazy stream of chunks, polled one by one.
    Stream,
}

pub struct Response {
    pub status: u16,
    pub headers: Vec<Header>,
    pub body: ResponseBody,
}

/// Per-connection driver state.
pub struct Conn {
    pub codec: Codec,
    pub read_buf: Vec<u8>,
    /// Modeled capacity of the read buffer: how many bytes the task may hold
    /// in it, mirroring what has been reserved.
    pub read_cap: usize,
    pub write_buf: Vec<u8>,
    /// The framing of the response body currently being streamed.
    pub cur_framing: Option<Framing>,
    pub phase: Phase,
    /// Length of the read buffer when it was lent to a completion read.
    pub lent_len: usize,
    /// Contents of the read buffer when it was lent to a completion read.
    pub lent: Ghost<Seq<u8>>,
    /// The heads handed to the dispatcher so far, in order.
    pub dispatched: Ghost<Seq<HeadView>>,
}

/// The driver's structural invariant.
pub open spec fn wf(c: &Conn) -> bool {
    &&& c.read_buf@.len() <= c.read_cap
    &&& (c.phase is Streaming ==> c.cur_framing is Some)
    &&& (c.phase is ReadingLent ==> c.lent_len == c.lent@.len())
}

/// What draining one decode step from the read buffer does: the shared
/// postcondition of every step that may decide to dispatch the next buffered
/// head. `old_read` and `old_disp` are the read buffer and dispatch log
/// before the step.
pub open spec fn spec_drain(
    old_read: Seq<u8>,
    old_disp: Seq<HeadView>,
    c: &Conn,
    s: &Step,
) -> bool {
    match spec_decode(old_read) {
        Decoded::Incomplete => {
            &&& c.phase is Flushing
            &&& s is Flush
            &&& c.read_buf@ == old_read
            &&& c.dispatched@ == old_disp
        },
        Decoded::Bad(e) => {
            &&& c.phase is Closed
            &&& (s matches Step::Fail { err } && err == e)
            &&& c.read_buf@ == old_read
            &&& c.dispatched@ == old_disp
        },
        Decoded::Parsed { head, consumed, keep_alive } => {
            &&& c.phase is Dispatching
            &&& (s matches Step::Dispatch { head: h } && h@ == head)
            &&& c.read_buf@ == old_read.subrange(consumed, old_read.len() as int)
            &&& c.dispatched@ == old_disp + seq![head]
            &&& c.codec.keep_alive == keep_alive
            &&& c.codec.version_minor as nat == head.version_minor
        },
    }
}

/// Law: in-order pipelined dispatch. Across every drain step, the dispatch
/// log followed by the heads still buffered is unchanged: a step that
/// dispatches moves exactly the first buffered head onto the log, so the
/// heads of one read are dispatched in input order, each exactly once, and
/// none of these steps asks for a read.
pub proof fn lemma_drain_preserves_order(
    old_read: Seq<u8>,
    old_disp: Seq<HeadView>,
    c: &Conn,
    s: &Step,
)
    requires
        spec_drain(old_read, old_disp, c, s),
    ensures
        c.dispatched@ + heads_of(c.read_buf@) == old_disp + heads_of(old_read),
        (s is Flush || s matches Step::Fail { .. }) ==> heads_of(c.read_buf@)
            == heads_of(old_read),
{
    reveal(heads_of);
    match spec_decode(old_read) {
        Decoded::Parsed { head, consumed, .. } => {
            lemma_decode_consumed(old_read);
            assert(heads_of(old_read) == seq![head] + heads_of(
                old_read.subrange(consumed, old_read.len() as int),
            ));
            assert(c.dispatched@ + heads_of(c.read_buf@) =~= old_disp + heads_of(old_read));
        },
        _ => {
            assert(c.dispatched@ + heads_of(c.read_buf@) =~= old_disp + heads_of(old_read));
        },
    }
}

impl Conn {
    /// A fresh connection driver.
    pub fn new() -> (c: Conn)
        ensures
            wf(&c),
            c.phase is Reading,
            c.read_buf@.len() == 0,
            c.write_buf@.len() == 0,
            c.dispatched@ == Seq::<HeadView>::empty(),
            c.codec.keep_alive,
    {
        Conn {
            codec: Codec::new(),
            read_buf: Vec::new(),
            read_cap: 0,
            write_buf: Vec::new(),
            cur_framing: None,
            phase: Phase::Reading,
            lent_len: 0,
            lent: Ghost(Seq::empty()),
            dispatched: Ghost(Seq::empty()),
        }
    }

    /// Grows the modeled read capacity until the spare is at least
    /// [`READ_SPARE`], and returns the permitted read size.
    fn reserve_read(&mut self) -> (spare: usize)
        requires
            wf(old(self)),
            old(self).read_buf@.len() + READ_SPARE <= usize::MAX,
        ensures
            wf(final(self)),
            spare == final(self).read_cap - final(self).read_buf@.len(),
            spare >= READ_SPARE,
            final(self).read_buf == old(self).read_buf,
            final(self).write_buf == old(self).write_buf,
            final(self).codec == old(self).codec,
            final(self).phase == old(self).phase,
            final(self).cur_framing == old(self).cur_framing,
            final(self).dispatched == old(self).dispatched,
    {
        let len = self.read_buf.len();
        let rem = self.read_cap - len;
        if rem < READ_SPARE {
            self.read_cap = len + READ_SPARE;
        }
        self.read_cap - len
    }

    /// Issues the first read of the connection.
    ///
    /// The granted spare capacity is always at least [`READ_SPARE`] bytes.
    pub fn start(&mut self) -> (s: Step)
        requires
            wf(old(self)),
            old(self).phase is Reading,
            old(self).read_buf@.len() + READ_SPARE <= usize::MAX,
        ensures
            wf(final(self)),
            final(self).phase is Reading,
            s matches Step::Read { spare } && spare >= READ_SPARE && spare == final(self).read_cap
                - final(self).read_buf@.len(),
            final(self).read_buf == old(self).read_buf,
            final(self).write_buf == old(self).write_buf,
            final(self).dispatched == old(self).dispatched,
    {
        let spare = self.reserve_read();
        Step::Read { spare }
    }

    /// Takes the outcome of a read: the bytes that arrived, empty on EOF.
    ///
    /// EOF ends the connection cleanly. Otherwise the driver decodes the
    /// first buffered head, if one is complete, and never asks for another
    /// read here.
    pub fn on_read(&mut self, data: &[u8]) -> (s: Step)
        requires
            wf(old(self)),
            old(self).phase is Reading,
            data@.len() <= old(self).read_cap - old(self).read_buf@.len(),
        ensures
            wf(final(self)),
            !(s is Read),
            final(self).write_buf == old(self).write_buf,
            data@.len() == 0 ==> s is Shutdown && final(self).phase is Closed
                && final(self).dispatched == old(self).dispatched,
            data@.len() > 0 ==> spec_drain(
                old(self).read_buf@ + data@,
                old(self).dispatched@,
                final(self),
                &s,
            ),
    {
        if data.len() == 0 {
            self.phase = Phase::Closed;
            return Step::Shutdown;
        }
        self.read_buf.extend_from_slice(data);
        proof {
            assert(self.read_buf@ =~= old(self).read_buf@ + data@);
        }
        self.drain()
    }

    /// Decodes the next buffered head and decides the following step.
    fn drain(&mut self) -> (s: Step)
        requires
            wf(old(self)),
        ensures
            wf(final(self)),
            !(s is Read),
            final(self).write_buf == old(self).write_buf,
            final(self).read_cap == old(self).read_cap,
            spec_drain(old(self).read_buf@, old(self).dispatched@, final(self), &s),
    {
        match self.codec.decode_head(&mut self.read_buf) {
            Ok(Some(head)) => {
                proof {
                    self.dispatched@ = old(self).dispatched@ + seq![head@];
                }
                self.phase = Phase::Dispatching;
                Step::Dispatch { head }
            },
            Ok(None) => {
                self.phase = Phase::Flushing;
                Step::Flush
            },
            Err(err) => {
                self.phase = Phase::Closed;
                Step::Fail { err }
            },
        }
    }

    /// Takes the dispatcher's response for the head handed out last.
    ///
    /// The head is encoded at once; a full body is encoded and terminated
    /// behind it, and the next buffered head, if any, is dispatched without
    /// an intervening read. A streaming body suspends the driver until its
    /// chunks arrive.
    pub fn on_response(&mut self, res: &Response, date: &Vec<u8>) -> (s: Step)
        requires
            wf(old(self)),
            old(self).phase is Dispatching,
        ensures
            wf(final(self)),
            !(s is Read),
            ({
                let v = old(self).codec.version_minor as nat;
                let ka0 = old(self).codec.keep_alive;
                match res.body {
                    ResponseBody::Full(b) => {
                        let f = spec_framing(BodyDesc::Fixed(b@.len() as u64), v);
                        let ka = ka0 && !(f is Close);
                        &&& final(self).write_buf@ == old(self).write_buf@ + spec_encode_head(
                            v,
                            res.status,
                            headers_view(res.headers@),
                            date@,
                            f,
                            ka,
                        ) + spec_chunk(f, b@) + spec_eof(f)
                        &&& spec_drain(
                            old(self).read_buf@,
                            old(self).dispatched@,
                            final(self),
                            &s,
                        )
                    },
                    ResponseBody::Stream => {
                        let f = spec_framing(BodyDesc::Stream, v);
                        let ka = ka0 && !(f is Close);
                        &&& final(self).write_buf@ == old(self).write_buf@ + spec_encode_head(
                            v,
                            res.status,
                            headers_view(res.headers@),
                            date@,
                            f,
                            ka,
                        )
                        &&& final(self).phase is Streaming
                        &&& s is NextChunk
                        &&& final(self).cur_framing == Some(f)
                        &&& final(self).read_buf@ == old(self).read_buf@
                        &&& final(self).dispatched@ == old(self).dispatched@
                    },
                }
            }),
    {
        match &res.body {
            ResponseBody::Full(b) => {
                let f = self.codec.encode_head(
                    res.status,
                    &res.headers,
                    BodyDesc::Fixed(b.len() as u64),
                    date,
                    &mut self.write_buf,
                );
                f.encode(b, &mut self.write_buf);
                f.encode_eof(&mut self.write_buf);
                self.drain()
            },
            ResponseBody::Stream => {
                let f = self.codec.encode_head(
                    res.status,
                    &res.headers,
                    BodyDesc::Stream,
                    date,
                    &mut self.write_buf,
                );
                self.cur_framing = Some(f);
                self.phase = Phase::Streaming;
                Step::NextChunk
            },
        }
    }

    /// Takes one polled body chunk, or `None` at the stream's end.
    ///
    /// Chunks are encoded strictly in arrival order; after the end marker the
    /// next buffered head, if any, is dispatched without an intervening read.
    pub fn on_chunk(&mut self, chunk: Option<&Vec<u8>>) -> (s: Step)
        requires
            wf(old(self)),
            old(self).phase is Streaming,
        ensures
            wf(final(self)),
            !(s is Read),
            ({
                let f = old(self).cur_framing->Some_0;
                match chunk {
                    Some(c) => {
                        &&& final(self).write_buf@ == old(self).write_buf@ + spec_chunk(f, c@)
                        &&& final(self).phase is Streaming
                        &&& s is NextChunk
                        &&& final(self).cur_framing == old(self).cur_framing
                        &&& final(self).read_buf@ == old(self).read_buf@
                        &&& final(self).dispatched@ == old(self).dispatched@
                    },
                    None => {
                        &&& final(self).write_buf@ == old(self).write_buf@ + spec_eof(f)
                        &&& spec_drain(
                            old(self).read_buf@,
                            old(self).dispatched@,
                            final(self),
                            &s,
                        )
                    },
                }
            }),
    {
        let f = self.cur_framing.unwrap();
        match chunk {
            Some(c) => {
                f.encode(c, &mut self.write_buf);
                Step::NextChunk
            },
            None => {
                f.encode_eof(&mut self.write_buf);
                self.cur_framing = None;
                self.phase = Phase::Flushing;
                self.drain()
            },
        }
    }

    /// Takes the completion of a full flush of the write buffer.
    ///
    /// The write buffer is cleared before anything else happens; the
    /// connection then either closes, if the exchange turned keep-alive off,
    /// or issues the next read with at least [`READ_SPARE`] spare bytes.
    pub fn on_flushed(&mut self) -> (s: Step)
        requires
            wf(old(self)),
            old(self).phase is Flushing,
            old(self).read_buf@.len() + READ_SPARE <= usize::MAX,
        ensures
            wf(final(self)),
            final(self).write_buf@.len() == 0,
            final(self).read_buf@ == old(self).read_buf@,
            final(self).dispatched == old(self).dispatched,
            !old(self).codec.keep_alive ==> s is Shutdown && final(self).phase is Closed,
            old(self).codec.keep_alive ==> final(self).phase is Reading && (s matches Step::Read {
                spare,
            } && spare >= READ_SPARE && spare == final(self).read_cap
                - final(self).read_buf@.len()),
    {
        self.write_buf.clear();
        if !self.codec.keep_alive {
            self.phase = Phase::Closed;
            return Step::Shutdown;
        }
        self.phase = Phase::Reading;
        let spare = self.reserve_read();
        Step::Read { spare }
    }

    /// Hands the read buffer to a completion-style read operation.
    ///
    /// Ownership of the buffer moves to the operation: until
    /// [`Conn::on_owned_read`] returns it, the driver holds no read buffer
    /// and takes no other read step.
    pub fn lend_read_buf(&mut self) -> (b: Vec<u8>)
        requires
            wf(old(self)),
            old(self).phase is Reading,
        ensures
            wf(final(self)),
            b@ == old(self).read_buf@,
            final(self).phase is ReadingLent,
            final(self).lent@ == old(self).read_buf@,
            final(self).lent_len == old(self).read_buf@.len(),
            final(self).read_buf@.len() == 0,
            final(self).read_cap == old(self).read_cap,
            final(self).write_buf == old(self).write_buf,
            final(self).codec == old(self).codec,
            final(self).dispatched == old(self).dispatched,
    {
        self.lent_len = self.read_buf.len();
        proof {
            self.lent@ = self.read_buf@;
        }
        self.phase = Phase::ReadingLent;
        self.read_buf.split_off(0)
    }

    /// Takes the read buffer back from a completion-style read that appended
    /// the bytes it received; appending nothing signals EOF.
    ///
    /// Behaves exactly like [`Conn::on_read`] on the appended bytes.
    pub fn on_owned_read(&mut self, b: Vec<u8>) -> (s: Step)
        requires
            wf(old(self)),
            old(self).phase is ReadingLent,
            b@.len() >= old(self).lent@.len(),
            b@.subrange(0, old(self).lent@.len() as int) == old(self).lent@,
            b@.len() <= old(self).read_cap,
        ensures
            wf(final(self)),
            !(s is Read),
            final(self).write_buf == old(self).write_buf,
            b@.len() == old(self).lent@.len() ==> s is Shutdown && final(self).phase is Closed
                && final(self).dispatched == old(self).dispatched,
            b@.len() > old(self).lent@.len() ==> spec_drain(
                b@,
                old(self).dispatched@,
                final(self),
                &s,
            ),
    {
        let n = b.len();
        self.read_buf = b;
        if n == self.lent_len {
            self.phase = Phase::Closed;
            return Step::Shutdown;
        }
        self.phase = Phase::Reading;
        self.drain()
    }

    /// Hands the write buffer to a completion-style write operation.
    ///
    /// Ownership of the buffer moves to the operation, which must not return
    /// before every byte is accepted; [`Conn::on_owned_flush`] takes it
    /// back.
    pub fn lend_write_buf(&mut self) -> (b: Vec<u8>)
        requires
            wf(old(self)),
            old(self).phase is Flushing,
        ensures
            wf(final(self)),
            b@ == old(self).write_buf@,
            final(self).phase is FlushingLent,
            final(self).write_buf@.len() == 0,
            final(self).read_buf == old(self).read_buf,
            final(self).read_cap == old(self).read_cap,
            final(self).codec == old(self).codec,
            final(self).dispatched == old(self).dispatched,
    {
        self.phase = Phase::FlushingLent;
        self.write_buf.split_off(0)
    }

    /// Takes the write buffer back once the completion-style write has sent
    /// every byte, then behaves exactly like [`Conn::on_flushed`].
    pub fn on_owned_flush(&mut self, b: Vec<u8>) -> (s: Step)
        requires
            wf(old(self)),
            old(self).phase is FlushingLent,
            old(self).read_buf@.len() + READ_SPARE <= usize::MAX,
        ensures
            wf(final(self)),
            final(self).write_buf@.len() == 0,
            final(self).read_buf@ == old(self).read_buf@,
            final(self).dispatched == old(self).dispatched,
            !old(self).codec.keep_alive ==> s is Shutdown && final(self).phase is Closed,
            old(self).codec.keep_alive ==> final(self).phase is Reading && (s matches Step::Read {
                spare,
            } && spare >= READ_SPARE && spare == final(self).read_cap
                - final(self).read_buf@.len()),
    {
        self.write_buf = b;
        self.phase = Phase::Flushing;
        self.on_flushed()
    }
}

} // verus!
