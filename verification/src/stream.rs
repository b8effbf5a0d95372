//! One stream of a connection: what it has received and not yet handed out,
//! and which of its two directions are still open.
//!
//! A [`Stream`] decides and keeps state; it neither waits nor sends. A method
//! that has something to send returns the frame, and the host, which owns the
//! connection's outgoing queue, reports afterwards whether the queue took it.
//! A method that cannot go on returns a value that says so, and the host calls
//! it again once the stream has changed.

use crate::error::{Error, IoError, IoErrorKind};
use crate::frame::{
    DataFrame, Frame, RstStatus, RstStreamFrame, SynReplyFrame, DATA_FLAG_FIN, FLAG_FIN,
};
#[allow(unused_imports)]
use crate::frame::{fin_flags, has_fin, Fields, FrameModel};
#[allow(unused_imports)]
use crate::headers::fields;
use crate::payload::slice;
#[allow(unused_imports)]
use crate::payload::octets;
use bytes::Bytes;
use http::HeaderMap;
use std::collections::VecDeque;
use vstd::prelude::*;

verus! {

/// How many received payloads a stream keeps until they are read.
pub const RECEIVE_CAPACITY: usize = 64;

/// What became of a frame that was offered to the outgoing queue without
/// waiting.
#[derive(Debug, Clone, Copy, PartialEq, Eq, Structural)]
pub enum SendOutcome {
    /// The queue took the frame.
    Sent,
    /// The queue has no room at the moment.
    Full,
    /// Nothing takes frames out of the queue any more.
    Closed,
}

/// What a poll arrives at.
#[derive(Debug, PartialEq)]
pub enum Progress<T> {
    Ready(T),
    Pending,
}

/// What [`Stream::write_data`] asks of the host.
#[derive(Debug, PartialEq)]
pub enum WriteStep {
    /// No reply has been sent yet: try again with this payload once one has.
    AwaitReply(Bytes),
    /// Put this frame into the outgoing queue.
    Send(Frame),
}

/// What [`Stream::read_data`] arrives at.
#[derive(Debug, PartialEq)]
pub enum ReadStep {
    /// The oldest payload that had not been read.
    Data(Bytes),
    /// The remote side has closed and everything has been read.
    Eof,
    /// There is nothing to read yet.
    Await,
}

/// What [`Stream::poll_shutdown`] asks of the host.
#[derive(Debug, PartialEq)]
pub enum ShutdownStep {
    /// The local side is closed already.
    Done,
    /// Offer this frame to the outgoing queue.
    Send(Frame),
}

/// What is done with a stream once it has taken in a frame or sent one.
#[derive(Debug, Clone, Copy, PartialEq, Eq, Structural)]
pub enum WorkerStep {
    /// Run the handler on the stream.
    RunHandler,
    /// Take the stream out of the connection's table.
    Forget,
    /// Nothing more.
    Done,
}

/// A stream as the proofs see it.
pub ghost struct StreamModel {
    pub stream_id: u32,
    pub headers: Fields,
    pub priority: u8,
    /// Payloads received and not yet taken up by a read, oldest first.
    pub received: Seq<Seq<u8>>,
    /// What an octet-wise read has left over of the payload it took up last.
    pub unread: Seq<u8>,
    pub local_fin_sent: bool,
    pub replied: bool,
    pub remote_closed: bool,
}

impl StreamModel {
    /// A stream that has just been opened.
    pub open spec fn opened(stream_id: u32, headers: Fields, priority: u8) -> StreamModel {
        StreamModel {
            stream_id,
            headers,
            priority,
            received: Seq::empty(),
            unread: Seq::empty(),
            local_fin_sent: false,
            replied: false,
            remote_closed: false,
        }
    }

    /// The stream after `data` has arrived: a full stream drops it.
    pub open spec fn pushed(self, data: Seq<u8>) -> StreamModel {
        if self.received.len() < RECEIVE_CAPACITY {
            StreamModel { received: self.received.push(data), ..self }
        } else {
            self
        }
    }

    /// The stream after the remote side has closed, if it has.
    pub open spec fn remote_closed_if(self, fin: bool) -> StreamModel {
        StreamModel { remote_closed: self.remote_closed || fin, ..self }
    }

    /// The stream after a reply has gone out.
    pub open spec fn replied_with(self, fin: bool) -> StreamModel {
        StreamModel { replied: true, local_fin_sent: self.local_fin_sent || fin, ..self }
    }

    /// Whether there is anything to read.
    pub open spec fn readable(self) -> bool {
        self.unread.len() > 0 || self.received.len() > 0
    }

    /// The run of octets that the next octet-wise read takes from.
    pub open spec fn head(self) -> Seq<u8> {
        if self.unread.len() > 0 {
            self.unread
        } else {
            self.received[0]
        }
    }

    /// How many octets an octet-wise read into `room` octets hands out.
    pub open spec fn read_len(self, room: nat) -> nat {
        if self.head().len() <= room {
            self.head().len()
        } else {
            room
        }
    }

    /// What an octet-wise read into `room` octets hands out.
    pub open spec fn chunk(self, room: nat) -> Seq<u8> {
        if self.readable() {
            self.head().take(self.read_len(room) as int)
        } else {
            Seq::empty()
        }
    }

    /// The stream after an octet-wise read into `room` octets.
    pub open spec fn after_chunk(self, room: nat) -> StreamModel {
        if self.readable() {
            StreamModel {
                unread: self.head().skip(self.read_len(room) as int),
                received: if self.unread.len() > 0 {
                    self.received
                } else {
                    self.received.drop_first()
                },
                ..self
            }
        } else {
            self
        }
    }

    /// Every octet received and not yet handed out, in order.
    pub open spec fn backlog(self) -> Seq<u8> {
        self.unread + self.received.flatten()
    }

    /// What every operation keeps: who the stream is, and that a direction
    /// once closed, or a reply once sent, stays so.
    pub open spec fn evolves_to(self, later: StreamModel) -> bool {
        &&& later.stream_id == self.stream_id
        &&& later.headers == self.headers
        &&& later.priority == self.priority
        &&& self.local_fin_sent ==> later.local_fin_sent
        &&& self.replied ==> later.replied
        &&& self.remote_closed ==> later.remote_closed
    }

    /// The stream after a worker has let it take in `frame`.
    pub open spec fn took_in(self, frame: FrameModel) -> StreamModel {
        match frame {
            FrameModel::Data { data, flags, .. } => self.pushed(data).remote_closed_if(
                has_fin(flags),
            ),
            FrameModel::RstStream { .. } => self.remote_closed_if(true),
            FrameModel::SynReply { flags, .. } => self.remote_closed_if(has_fin(flags)),
            FrameModel::Headers { flags, .. } => self.remote_closed_if(has_fin(flags)),
            _ => self,
        }
    }

    /// The stream after a DATA frame has gone out.
    pub open spec fn sent_with(self, fin: bool) -> StreamModel {
        StreamModel { local_fin_sent: self.local_fin_sent || fin, ..self }
    }

    /// Whether both sides have closed: nothing more comes in or goes out.
    pub open spec fn finished(self) -> bool {
        self.remote_closed && self.local_fin_sent
    }

    /// What is done with the stream as it stands: a finished one is forgotten.
    pub open spec fn step(self) -> WorkerStep {
        if self.finished() {
            WorkerStep::Forget
        } else {
            WorkerStep::Done
        }
    }

    /// What a worker does after letting the stream take in `frame`: it runs the
    /// handler on a new stream, and forgets one that was reset or is finished.
    pub open spec fn worker_step(self, frame: FrameModel) -> WorkerStep {
        match frame {
            FrameModel::SynStream { .. } => WorkerStep::RunHandler,
            FrameModel::RstStream { .. } => WorkerStep::Forget,
            _ => self.took_in(frame).step(),
        }
    }
}

/// The result that the caller of a sending method gets once the outgoing queue
/// has taken the frame or refused it for good.
pub open spec fn send_result(accepted: bool) -> Result<(), Error> {
    if accepted {
        Ok(())
    } else {
        Err(Error::ConnectionClosed)
    }
}

/// Tells the caller of a sending method whether the outgoing queue took the
/// frame.
pub fn frame_sent(accepted: bool) -> (r: Result<(), Error>)
    ensures
        r == send_result(accepted),
{
    if accepted {
        Ok(())
    } else {
        Err(Error::ConnectionClosed)
    }
}

/// One bidirectional stream.
pub struct Stream {
    pub stream_id: u32,
    pub headers: HeaderMap,
    pub priority: u8,
    pub state: StreamState,
}

/// What a stream keeps of what has happened on it.
pub struct StreamState {
    received: VecDeque<Bytes>,
    local_fin_sent: bool,
    replied: bool,
    remote_closed: bool,
    unread: Option<Bytes>,
}

impl StreamState {
    /// Payloads received and not yet taken up by a read, oldest first.
    pub closed spec fn received(&self) -> Seq<Seq<u8>> {
        self.received@.map_values(|b: Bytes| octets(b))
    }

    /// What an octet-wise read has left over.
    pub closed spec fn unread(&self) -> Seq<u8> {
        match self.unread {
            Some(b) => octets(b),
            None => Seq::empty(),
        }
    }

    /// Whether a local FIN has been sent.
    pub closed spec fn local_fin_sent(&self) -> bool {
        self.local_fin_sent
    }

    /// Whether a reply has been sent.
    pub closed spec fn replied(&self) -> bool {
        self.replied
    }

    /// Whether the remote side has closed.
    pub closed spec fn remote_closed(&self) -> bool {
        self.remote_closed
    }

    /// What holds of every stream between calls: it keeps at most
    /// [`RECEIVE_CAPACITY`] payloads, and a left-over is never empty.
    pub closed spec fn wf(&self) -> bool {
        &&& self.received@.len() <= RECEIVE_CAPACITY
        &&& self.unread matches Some(b) ==> octets(b).len() > 0
    }
}

impl View for Stream {
    type V = StreamModel;

    open spec fn view(&self) -> StreamModel {
        StreamModel {
            stream_id: self.stream_id,
            headers: fields(self.headers),
            priority: self.priority,
            received: self.state.received(),
            unread: self.state.unread(),
            local_fin_sent: self.state.local_fin_sent(),
            replied: self.state.replied(),
            remote_closed: self.state.remote_closed(),
        }
    }
}

impl Stream {
    /// What holds of every stream between calls.
    pub open spec fn wf(&self) -> bool {
        self.state.wf()
    }

    /// A stream that has just been opened.
    pub fn new(stream_id: u32, headers: HeaderMap, priority: u8) -> (s: Stream)
        ensures
            s.wf(),
            s@ == StreamModel::opened(stream_id, fields(headers), priority),
            s.stream_id == stream_id,
            s.headers == headers,
            s.priority == priority,
    {
        let s = Stream {
            stream_id,
            headers,
            priority,
            state: StreamState {
                received: VecDeque::new(),
                local_fin_sent: false,
                replied: false,
                remote_closed: false,
                unread: None,
            },
        };
        assert(s@.received =~= Seq::empty());
        s
    }

    /// Takes in a payload that has arrived from the remote side. A stream that
    /// already keeps [`RECEIVE_CAPACITY`] unread payloads drops it.
    pub fn push_data(&mut self, data: Bytes)
        requires
            old(self).wf(),
        ensures
            final(self).wf(),
            final(self)@ == old(self)@.pushed(octets(data)),
            old(self)@.evolves_to(final(self)@),
    {
        if self.state.received.len() < RECEIVE_CAPACITY {
            self.state.received.push_back(data);
        }
        assert(self@.received =~= old(self)@.pushed(octets(data)).received);
    }

    /// Notes that the remote side has closed.
    pub fn close_remote(&mut self)
        requires
            old(self).wf(),
        ensures
            final(self).wf(),
            final(self)@ == old(self)@.remote_closed_if(true),
            old(self)@.evolves_to(final(self)@),
    {
        self.state.remote_closed = true;
    }

    /// The RST_STREAM frame that ends this stream.
    pub fn reset(&self, status: RstStatus) -> (f: Frame)
        ensures
            f@ == (FrameModel::RstStream { stream_id: self@.stream_id, status }),
    {
        Frame::RstStream(RstStreamFrame { stream_id: self.stream_id, status })
    }

    /// Whether the remote side has closed.
    pub fn is_remote_closed(&self) -> (b: bool)
        ensures
            b == self@.remote_closed,
    {
        self.state.remote_closed
    }

    /// Whether a local FIN has been sent.
    pub fn is_local_fin_sent(&self) -> (b: bool)
        ensures
            b == self@.local_fin_sent,
    {
        self.state.local_fin_sent
    }

    /// The SYN_REPLY frame that answers the opening of this stream.
    pub fn send_reply(&self, headers: HeaderMap, fin: bool) -> (f: Frame)
        ensures
            f@ == (FrameModel::SynReply {
                stream_id: self@.stream_id,
                headers: fields(headers),
                flags: fin_flags(fin),
            }),
    {
        Frame::SynReply(
            SynReplyFrame {
                stream_id: self.stream_id,
                headers,
                flags: if fin {
                    FLAG_FIN
                } else {
                    0
                },
            },
        )
    }

    /// Notes whether the outgoing queue took the frame of
    /// [`send_reply`](Stream::send_reply). Writers that wait for a reply can go
    /// on once it has.
    pub fn reply_sent(&mut self, fin: bool, accepted: bool) -> (r: Result<(), Error>)
        requires
            old(self).wf(),
        ensures
            final(self).wf(),
            r == send_result(accepted),
            final(self)@ == if accepted {
                old(self)@.replied_with(fin)
            } else {
                old(self)@
            },
            old(self)@.evolves_to(final(self)@),
    {
        if !accepted {
            return Err(Error::ConnectionClosed);
        }
        self.state.replied = true;
        if fin {
            self.state.local_fin_sent = true;
        }
        Ok(())
    }

    /// Makes a DATA frame of `data`. Nothing goes out before a reply has been
    /// sent, nor after a local FIN.
    pub fn write_data(&self, data: Bytes, fin: bool) -> (r: Result<WriteStep, Error>)
        ensures
            !self@.replied ==> r == Ok::<WriteStep, Error>(WriteStep::AwaitReply(data)),
            self@.replied && self@.local_fin_sent ==> r == Err::<WriteStep, Error>(
                Error::StreamClosed,
            ),
            self@.replied && !self@.local_fin_sent ==> {
                &&& r matches Ok(WriteStep::Send(f))
                &&& f@ == (FrameModel::Data {
                    stream_id: self@.stream_id,
                    flags: fin_flags(fin),
                    data: octets(data),
                })
            },
    {
        if !self.state.replied {
            return Ok(WriteStep::AwaitReply(data));
        }
        if self.state.local_fin_sent {
            return Err(Error::StreamClosed);
        }
        Ok(
            WriteStep::Send(
                Frame::Data(
                    DataFrame {
                        stream_id: self.stream_id,
                        flags: if fin {
                            DATA_FLAG_FIN
                        } else {
                            0
                        },
                        data,
                    },
                ),
            ),
        )
    }

    /// Notes whether the outgoing queue took the frame of
    /// [`write_data`](Stream::write_data). A FIN counts as sent once it has.
    pub fn data_sent(&mut self, fin: bool, accepted: bool) -> (r: Result<(), Error>)
        requires
            old(self).wf(),
        ensures
            final(self).wf(),
            r == send_result(accepted),
            final(self)@ == old(self)@.sent_with(fin && accepted),
            old(self)@.evolves_to(final(self)@),
    {
        if fin && accepted {
            self.state.local_fin_sent = true;
        }
        frame_sent(accepted)
    }

    /// What is done with the stream as it stands, such as after a local FIN has
    /// been sent: one that is closed on both sides is to be forgotten.
    pub fn step(&self) -> (r: WorkerStep)
        ensures
            r == self@.step(),
    {
        if self.state.remote_closed && self.state.local_fin_sent {
            WorkerStep::Forget
        } else {
            WorkerStep::Done
        }
    }

    /// Takes the oldest unread payload.
    pub fn read_data(&mut self) -> (r: ReadStep)
        requires
            old(self).wf(),
        ensures
            final(self).wf(),
            old(self)@.received.len() > 0 ==> {
                &&& r matches ReadStep::Data(data)
                &&& octets(data) == old(self)@.received[0]
                &&& final(self)@ == (StreamModel {
                    received: old(self)@.received.drop_first(),
                    ..old(self)@
                })
            },
            old(self)@.received.len() == 0 ==> {
                &&& r == if old(self)@.remote_closed {
                    ReadStep::Eof
                } else {
                    ReadStep::Await
                }
                &&& final(self)@ == old(self)@
            },
            old(self)@.evolves_to(final(self)@),
    {
        match self.state.received.pop_front() {
            Some(data) => {
                assert(self@.received =~= old(self)@.received.drop_first());
                ReadStep::Data(data)
            },
            None => {
                if self.state.remote_closed {
                    ReadStep::Eof
                } else {
                    ReadStep::Await
                }
            },
        }
    }

    /// Hands out at most `room` octets: first what an earlier call left over,
    /// else from the oldest unread payload, of which the rest is left over. An
    /// empty chunk where there is nothing to read means that the remote side
    /// has closed.
    pub fn poll_read(&mut self, room: usize) -> (r: Progress<Bytes>)
        requires
            old(self).wf(),
        ensures
            final(self).wf(),
            final(self)@ == old(self)@.after_chunk(room as nat),
            !old(self)@.readable() && !old(self)@.remote_closed ==> r == Progress::<Bytes>::Pending,
            old(self)@.readable() || old(self)@.remote_closed ==> {
                &&& r matches Progress::Ready(chunk)
                &&& octets(chunk) == old(self)@.chunk(room as nat)
            },
            old(self)@.evolves_to(final(self)@),
    {
        let taken = match self.state.unread.take() {
            Some(left) => Some(left),
            None => self.state.received.pop_front(),
        };
        match taken {
            Some(data) => {
                assert(octets(data) == old(self)@.head());
                assert(self@.received =~= old(self)@.after_chunk(room as nat).received);
                let n: usize = if data.len() <= room {
                    data.len()
                } else {
                    room
                };
                let chunk = slice(&data, 0, n);
                if n < data.len() {
                    self.state.unread = Some(slice(&data, n, data.len()));
                }
                assert(self@.unread =~= old(self)@.head().skip(n as int));
                assert(octets(chunk) =~= old(self)@.head().take(n as int));
                Progress::Ready(chunk)
            },
            None => {
                assert(self@.received =~= old(self)@.received);
                if self.state.remote_closed {
                    Progress::Ready(Bytes::new())
                } else {
                    Progress::Pending
                }
            },
        }
    }

    /// The DATA frame that carries `buf`, to be offered to the outgoing queue.
    pub fn poll_write(&self, buf: &[u8]) -> (f: Frame)
        ensures
            f@ == (FrameModel::Data { stream_id: self@.stream_id, flags: 0, data: buf@ }),
    {
        Frame::Data(
            DataFrame { stream_id: self.stream_id, flags: 0, data: Bytes::copy_from_slice(buf) },
        )
    }

    /// The frame, if one is needed, that closes the local side.
    pub fn poll_shutdown(&self) -> (r: ShutdownStep)
        ensures
            self@.local_fin_sent ==> r == ShutdownStep::Done,
            !self@.local_fin_sent ==> {
                &&& r matches ShutdownStep::Send(f)
                &&& f@ == (FrameModel::Data {
                    stream_id: self@.stream_id,
                    flags: DATA_FLAG_FIN,
                    data: Seq::empty(),
                })
            },
    {
        if self.state.local_fin_sent {
            return ShutdownStep::Done;
        }
        ShutdownStep::Send(
            Frame::Data(
                DataFrame { stream_id: self.stream_id, flags: DATA_FLAG_FIN, data: Bytes::new() },
            ),
        )
    }

    /// Notes what became of the frame of
    /// [`poll_shutdown`](Stream::poll_shutdown).
    pub fn shutdown_polled(&mut self, outcome: SendOutcome) -> (r: Progress<Result<(), Error>>)
        requires
            old(self).wf(),
        ensures
            final(self).wf(),
            outcome is Sent ==> r == Progress::Ready(Ok::<(), Error>(())),
            outcome is Full ==> r == Progress::<Result<(), Error>>::Pending,
            outcome is Closed ==> (r matches Progress::Ready(Err(e)) && is_broken_pipe(e)),
            final(self)@ == (StreamModel {
                local_fin_sent: old(self)@.local_fin_sent || outcome is Sent,
                ..old(self)@
            }),
            old(self)@.evolves_to(final(self)@),
    {
        match outcome {
            SendOutcome::Sent => {
                self.state.local_fin_sent = true;
                Progress::Ready(Ok(()))
            },
            SendOutcome::Full => Progress::Pending,
            SendOutcome::Closed => Progress::Ready(Err(broken_pipe())),
        }
    }

    /// Lets the stream take in a frame that the connection has routed to it,
    /// and says what the worker does next.
    pub fn take_in(&mut self, frame: &Frame) -> (r: WorkerStep)
        requires
            old(self).wf(),
        ensures
            final(self).wf(),
            final(self)@ == old(self)@.took_in(frame@),
            r == old(self)@.worker_step(frame@),
            old(self)@.evolves_to(final(self)@),
    {
        match frame {
            Frame::SynStream(_) => WorkerStep::RunHandler,
            Frame::Data(df) => {
                let fin = (df.flags & DATA_FLAG_FIN) != 0;
                self.push_data(df.data.clone());
                if fin {
                    self.close_remote();
                }
                self.step()
            },
            Frame::RstStream(_) => {
                self.close_remote();
                WorkerStep::Forget
            },
            Frame::SynReply(sr) => {
                if (sr.flags & FLAG_FIN) != 0 {
                    self.close_remote();
                }
                self.step()
            },
            Frame::Headers(hf) => {
                if (hf.flags & FLAG_FIN) != 0 {
                    self.close_remote();
                }
                self.step()
            },
            _ => self.step(),
        }
    }
}

/// Whether `e` is the transport failure that a writer meets when nothing takes
/// frames out of the outgoing queue any more.
pub open spec fn is_broken_pipe(e: Error) -> bool {
    e matches Error::Io(io) && io.kind == IoErrorKind::BrokenPipe && io.message@
        == "connection closed"@
}

fn broken_pipe() -> (e: Error)
    ensures
        is_broken_pipe(e),
{
    Error::Io(
        IoError { kind: IoErrorKind::BrokenPipe, message: "connection closed".to_owned() },
    )
}

/// What a poll of [`Stream::poll_write`] arrives at, by what became of its
/// frame: all `len` octets are written, or none.
pub fn write_polled(len: usize, outcome: SendOutcome) -> (r: Progress<Result<usize, Error>>)
    ensures
        outcome is Sent ==> r == Progress::Ready(Ok::<usize, Error>(len)),
        outcome is Full ==> r == Progress::<Result<usize, Error>>::Pending,
        outcome is Closed ==> (r matches Progress::Ready(Err(e)) && is_broken_pipe(e)),
{
    match outcome {
        SendOutcome::Sent => Progress::Ready(Ok(len)),
        SendOutcome::Full => Progress::Pending,
        SendOutcome::Closed => Progress::Ready(Err(broken_pipe())),
    }
}

/// What happens to the payloads that a stream keeps.
pub ghost enum PayloadEvent {
    /// A payload arrives.
    Arrival(Seq<u8>),
    /// A payload is read.
    Read,
}

/// The payloads that arrive in a run of arrivals and reads, in order.
pub open spec fn arrivals(events: Seq<PayloadEvent>) -> Seq<Seq<u8>>
    decreases events.len(),
{
    if events.len() == 0 {
        Seq::empty()
    } else {
        match events[0] {
            PayloadEvent::Arrival(data) => seq![data] + arrivals(events.drop_first()),
            PayloadEvent::Read => arrivals(events.drop_first()),
        }
    }
}

impl StreamModel {
    /// What a read of a payload hands out: the oldest, if there is one.
    pub open spec fn next_payload(self) -> Seq<Seq<u8>> {
        if self.received.len() > 0 {
            seq![self.received[0]]
        } else {
            Seq::empty()
        }
    }

    /// The stream after one payload has arrived, or one has been read.
    pub open spec fn moved(self, event: PayloadEvent) -> StreamModel {
        match event {
            PayloadEvent::Arrival(data) => self.pushed(data),
            PayloadEvent::Read => if self.received.len() > 0 {
                StreamModel { received: self.received.drop_first(), ..self }
            } else {
                self
            },
        }
    }

    /// The stream after a run of arrivals and reads.
    pub open spec fn moved_by(self, events: Seq<PayloadEvent>) -> StreamModel
        decreases events.len(),
    {
        if events.len() == 0 {
            self
        } else {
            self.moved(events[0]).moved_by(events.drop_first())
        }
    }

    /// What the reads of a run of arrivals and reads hand out, in order.
    pub open spec fn read_by(self, events: Seq<PayloadEvent>) -> Seq<Seq<u8>>
        decreases events.len(),
    {
        if events.len() == 0 {
            Seq::empty()
        } else {
            let handed_out = if events[0] is Read {
                self.next_payload()
            } else {
                Seq::empty()
            };
            handed_out + self.moved(events[0]).read_by(events.drop_first())
        }
    }

    /// Whether no payload of a run of arrivals and reads finds the stream full.
    pub open spec fn never_full(self, events: Seq<PayloadEvent>) -> bool
        decreases events.len(),
    {
        events.len() == 0 || {
            &&& events[0] is Arrival ==> self.received.len() < RECEIVE_CAPACITY
            &&& self.moved(events[0]).never_full(events.drop_first())
        }
    }

    /// The stream after `n` payloads have been read from it.
    pub open spec fn after_reads(self, n: nat) -> StreamModel
        decreases n,
    {
        if n == 0 {
            self
        } else {
            let before = self.after_reads((n - 1) as nat);
            StreamModel { received: before.received.drop_first(), ..before }
        }
    }

    /// What successive octet-wise reads hand out, where the i-th has room for
    /// `rooms[i]` octets.
    pub open spec fn chunks(self, rooms: Seq<nat>) -> Seq<u8>
        decreases rooms.len(),
    {
        if rooms.len() == 0 {
            Seq::empty()
        } else {
            self.chunk(rooms[0]) + self.after_chunk(rooms[0]).chunks(rooms.drop_first())
        }
    }

    /// The stream after successive octet-wise reads.
    pub open spec fn after_chunks(self, rooms: Seq<nat>) -> StreamModel
        decreases rooms.len(),
    {
        if rooms.len() == 0 {
            self
        } else {
            self.after_chunk(rooms[0]).after_chunks(rooms.drop_first())
        }
    }
}

/// Payloads are read in the order in which they arrived, none is lost and none
/// is altered, however arrivals and reads follow each other, as long as the
/// stream never has to keep more than [`RECEIVE_CAPACITY`] of them: what has
/// been read, followed by what is kept, is what was kept, followed by what has
/// arrived.
pub proof fn law_payloads_are_read_in_order(m: StreamModel, events: Seq<PayloadEvent>)
    requires
        m.never_full(events),
    ensures
        m.read_by(events) + m.moved_by(events).received == m.received + arrivals(events),
    decreases events.len(),
{
    if events.len() == 0 {
        assert(m.read_by(events) + m.received =~= m.received + arrivals(events));
    } else {
        let next = m.moved(events[0]);
        let rest = events.drop_first();
        law_payloads_are_read_in_order(next, rest);
        let tail = next.read_by(rest) + next.moved_by(rest).received;
        match events[0] {
            PayloadEvent::Arrival(data) => {
                assert(m.read_by(events) + m.moved_by(events).received =~= tail);
                assert(next.received + arrivals(rest) =~= m.received + arrivals(events));
            },
            PayloadEvent::Read => {
                assert(m.received =~= m.next_payload() + next.received);
                assert(m.read_by(events) + m.moved_by(events).received =~= m.next_payload() + tail);
                assert(m.next_payload() + (next.received + arrivals(rest)) =~= m.received
                    + arrivals(events));
            },
        }
    }
}

proof fn lemma_after_reads(m: StreamModel, n: nat)
    requires
        n <= m.received.len(),
    ensures
        m.after_reads(n) == (StreamModel { received: m.received.skip(n as int), ..m }),
    decreases n,
{
    if n == 0 {
        assert(m.received.skip(0) =~= m.received);
    } else {
        lemma_after_reads(m, (n - 1) as nat);
        assert(m.received.skip(n - 1).drop_first() =~= m.received.skip(n as int));
    }
}

/// A stream that has been closed by the remote side comes to its end once
/// everything that it keeps has been read, and not before.
pub proof fn law_end_follows_the_last_payload(m: StreamModel, n: nat)
    requires
        m.remote_closed,
        n <= m.received.len(),
    ensures
        m.after_reads(n).remote_closed,
        m.after_reads(n).received.len() == 0 <==> n == m.received.len(),
{
    lemma_after_reads(m, n);
}

/// Octet-wise reads cut the received payloads up and hand the pieces out in
/// order: what they have handed out, followed by what is left, is what was
/// there.
pub proof fn law_chunks_reassemble(m: StreamModel, rooms: Seq<nat>)
    ensures
        m.chunks(rooms) + m.after_chunks(rooms).backlog() == m.backlog(),
    decreases rooms.len(),
{
    if rooms.len() == 0 {
        assert(m.chunks(rooms) + m.backlog() =~= m.backlog());
    } else {
        let next = m.after_chunk(rooms[0]);
        law_chunks_reassemble(next, rooms.drop_first());
        lemma_chunk_splits_backlog(m, rooms[0]);
        assert(m.chunks(rooms) + m.after_chunks(rooms).backlog() =~= m.chunk(rooms[0]) + (
        next.chunks(rooms.drop_first()) + next.after_chunks(rooms.drop_first()).backlog()));
    }
}

proof fn lemma_chunk_splits_backlog(m: StreamModel, room: nat)
    ensures
        m.chunk(room) + m.after_chunk(room).backlog() == m.backlog(),
{
    if m.readable() {
        let n = m.read_len(room) as int;
        assert(m.head() =~= m.head().take(n) + m.head().skip(n));
        if m.unread.len() > 0 {
            assert(m.chunk(room) + m.after_chunk(room).backlog() =~= m.backlog());
        } else {
            assert(m.received.flatten() == m.received[0] + m.received.drop_first().flatten());
            assert(m.chunk(room) + m.after_chunk(room).backlog() =~= m.backlog());
        }
    } else {
        assert(m.chunk(room) + m.backlog() =~= m.backlog());
    }
}

/// Octet-wise reads that each have room for an octet or more come to the end:
/// after as many of them as there are octets and payloads, everything that was
/// there has been handed out.
pub proof fn law_chunks_come_to_the_end(m: StreamModel, rooms: Seq<nat>)
    requires
        forall|i: int| 0 <= i < rooms.len() ==> rooms[i] > 0,
        rooms.len() >= m.backlog().len() + m.received.len(),
    ensures
        !m.after_chunks(rooms).readable(),
        m.chunks(rooms) == m.backlog(),
    decreases rooms.len(),
{
    law_chunks_reassemble(m, rooms);
    lemma_chunks_exhaust(m, rooms);
    let end = m.after_chunks(rooms);
    assert(end.backlog() =~= Seq::empty());
    assert(m.chunks(rooms) + end.backlog() =~= m.chunks(rooms));
}

proof fn lemma_chunks_exhaust(m: StreamModel, rooms: Seq<nat>)
    requires
        forall|i: int| 0 <= i < rooms.len() ==> rooms[i] > 0,
        rooms.len() >= m.backlog().len() + m.received.len(),
    ensures
        !m.after_chunks(rooms).readable(),
    decreases rooms.len(),
{
    if rooms.len() > 0 {
        let next = m.after_chunk(rooms[0]);
        lemma_chunk_splits_backlog(m, rooms[0]);
        assert(m.chunk(rooms[0]).len() + next.backlog().len() == m.backlog().len());
        if m.readable() {
            if m.head().len() > 0 {
                assert(m.chunk(rooms[0]).len() > 0);
            }
        } else {
            assert(m.backlog() =~= Seq::empty());
        }
        let rest = rooms.drop_first();
        assert forall|i: int| 0 <= i < rest.len() implies rest[i] > 0 by {
            assert(rest[i] == rooms[i + 1]);
        }
        lemma_chunks_exhaust(next, rest);
    }
}

/// Once the local side of a stream has replied and closed, it has for ever: no
/// later [`Stream::write_data`] gets anything out.
pub proof fn law_local_fin_is_final(m: StreamModel, later: StreamModel)
    requires
        m.replied,
        m.local_fin_sent,
        m.evolves_to(later),
    ensures
        later.replied,
        later.local_fin_sent,
{
}

/// A frame that carries payload and a FIN is read as the payload and then the
/// end, as long as the stream has room for the payload.
pub proof fn law_fin_follows_its_payload(m: StreamModel, stream_id: u32, flags: u8, data: Seq<u8>)
    requires
        m.received.len() < RECEIVE_CAPACITY,
        has_fin(flags),
    ensures
        ({
            let after = m.took_in(FrameModel::Data { stream_id, flags, data });
            &&& after.received == m.received.push(data)
            &&& after.remote_closed
            &&& after.after_reads(m.received.len()).received == seq![data]
            &&& after.after_reads(m.received.len() + 1).received.len() == 0
        }),
{
    let after = m.took_in(FrameModel::Data { stream_id, flags, data });
    lemma_after_reads(after, m.received.len());
    lemma_after_reads(after, m.received.len() + 1);
    assert(after.received.skip(m.received.len() as int) =~= seq![data]);
}

/// Writes wait for the stream's own reply: nothing that the remote side sends
/// takes its place.
pub proof fn law_only_its_own_reply_lets_a_stream_write(m: StreamModel, frame: FrameModel)
    ensures
        m.took_in(frame).replied == m.replied,
        m.took_in(frame).local_fin_sent == m.local_fin_sent,
{
}

/// A stream on which both sides have sent a FIN is forgotten, whichever came
/// first: when the remote FIN is taken in after the local one, and when the
/// local one has gone out after the remote one.
pub proof fn law_two_fins_finish_a_stream(m: StreamModel, frame: FrameModel)
    ensures
        m.local_fin_sent && (frame matches FrameModel::Data { flags, .. } && has_fin(flags))
            ==> m.worker_step(frame) == WorkerStep::Forget,
        m.local_fin_sent && (frame matches FrameModel::SynReply { flags, .. } && has_fin(flags))
            ==> m.worker_step(frame) == WorkerStep::Forget,
        m.local_fin_sent && (frame matches FrameModel::Headers { flags, .. } && has_fin(flags))
            ==> m.worker_step(frame) == WorkerStep::Forget,
        m.remote_closed ==> m.sent_with(true).step() == WorkerStep::Forget,
        m.remote_closed ==> m.replied_with(true).step() == WorkerStep::Forget,
{
}

/// What an operation keeps is kept by any number of them.
pub proof fn law_streams_evolve(a: StreamModel, b: StreamModel, c: StreamModel)
    requires
        a.evolves_to(b),
        b.evolves_to(c),
    ensures
        a.evolves_to(a),
        a.evolves_to(c),
{
}

/// An arrival adds its octets to the end of those still to be handed out and
/// takes nothing from them; a stream that is full keeps what it has. Nothing
/// else about the stream changes.
pub proof fn law_arrivals_only_add(m: StreamModel, data: Seq<u8>)
    ensures
        m.received.len() < 64 ==> m.pushed(data).unread + m.pushed(data).received.flatten()
            == m.unread + m.received.flatten() + data,
        m.received.len() < 64 ==> m.pushed(data).received.len() == m.received.len() + 1,
        m.received.len() >= 64 ==> m.pushed(data).received == m.received,
        m.pushed(data).unread == m.unread,
        same_but_for_payload(m, m.pushed(data)),
{
    if m.received.len() < 64 {
        m.received.lemma_flatten_push(data);
        assert(m.pushed(data).unread + m.pushed(data).received.flatten() =~= m.unread
            + m.received.flatten() + data);
    }
}

/// Whether two streams differ at most in what is still to be handed out.
pub open spec fn same_but_for_payload(a: StreamModel, b: StreamModel) -> bool {
    &&& a.stream_id == b.stream_id
    &&& a.headers == b.headers
    &&& a.priority == b.priority
    &&& a.local_fin_sent == b.local_fin_sent
    &&& a.replied == b.replied
    &&& a.remote_closed == b.remote_closed
}

/// An octet-wise read hands out the front of what is still to be handed out: as
/// much as there is room for, up to the end of the payload that it takes from.
/// It takes up a new payload only when nothing is left over. Nothing else about
/// the stream changes.
pub proof fn law_chunks_come_from_the_front(m: StreamModel, room: nat)
    ensures
        m.chunk(room) + (m.after_chunk(room).unread + m.after_chunk(room).received.flatten())
            == m.unread + m.received.flatten(),
        m.chunk(room).len() <= room,
        m.chunk(room).len() == room || m.after_chunk(room).unread.len() == 0,
        m.unread.len() > 0 ==> m.after_chunk(room).received == m.received,
        m.unread.len() == 0 && m.received.len() > 0 ==> m.after_chunk(room).received
            == m.received.drop_first(),
        m.unread.len() == 0 && m.received.len() == 0 ==> m.after_chunk(room) == m,
        m.readable() <==> m.unread.len() > 0 || m.received.len() > 0,
        same_but_for_payload(m, m.after_chunk(room)),
{
    lemma_chunk_splits_backlog(m, room);
}

/// What happens to the octets that a stream keeps.
pub ghost enum OctetEvent {
    /// A payload arrives.
    Arrival(Seq<u8>),
    /// An octet-wise read with room for this many octets.
    Read(nat),
}

/// The stream after a run of arrivals and octet-wise reads.
pub open spec fn after_octet_events(m: StreamModel, events: Seq<OctetEvent>) -> StreamModel
    decreases events.len(),
{
    if events.len() == 0 {
        m
    } else {
        match events.last() {
            OctetEvent::Arrival(data) => after_octet_events(m, events.drop_last()).pushed(data),
            OctetEvent::Read(room) => after_octet_events(m, events.drop_last()).after_chunk(room),
        }
    }
}

/// What the reads of a run of arrivals and octet-wise reads hand out.
pub open spec fn octets_read(m: StreamModel, events: Seq<OctetEvent>) -> Seq<u8>
    decreases events.len(),
{
    if events.len() == 0 {
        Seq::empty()
    } else {
        match events.last() {
            OctetEvent::Arrival(data) => octets_read(m, events.drop_last()),
            OctetEvent::Read(room) => octets_read(m, events.drop_last()) + after_octet_events(
                m,
                events.drop_last(),
            ).chunk(room),
        }
    }
}

/// The octets that arrive in a run of arrivals and octet-wise reads.
pub open spec fn octets_arrived(events: Seq<OctetEvent>) -> Seq<u8>
    decreases events.len(),
{
    if events.len() == 0 {
        Seq::empty()
    } else {
        match events.last() {
            OctetEvent::Arrival(data) => octets_arrived(events.drop_last()) + data,
            OctetEvent::Read(room) => octets_arrived(events.drop_last()),
        }
    }
}

/// Octets are read in the order in which they arrived and none is lost, however
/// arrivals and octet-wise reads follow each other, as long as no payload finds
/// the stream with 64 unread ones.
pub proof fn law_octets_are_read_in_order(m: StreamModel, events: Seq<OctetEvent>)
    requires
        forall|i: int|
            0 <= i < events.len() && events[i] is Arrival ==> after_octet_events(
                m,
                #[trigger] events.take(i),
            ).received.len() < 64,
    ensures
        octets_read(m, events) + (after_octet_events(m, events).unread + after_octet_events(
            m,
            events,
        ).received.flatten()) == m.unread + m.received.flatten() + octets_arrived(events),
    decreases events.len(),
{
    if events.len() == 0 {
        assert(octets_read(m, events) + (m.unread + m.received.flatten()) =~= m.unread
            + m.received.flatten() + octets_arrived(events));
    } else {
        let front = events.drop_last();
        let n = front.len() as int;
        assert forall|i: int| 0 <= i < front.len() && front[i] is Arrival implies
            after_octet_events(m, #[trigger] front.take(i)).received.len() < 64 by {
            assert(front.take(i) =~= events.take(i));
            assert(events[i] is Arrival);
        }
        law_octets_are_read_in_order(m, front);
        assert(events.take(n) =~= front);
        let mid = after_octet_events(m, front);
        let end = after_octet_events(m, events);
        let start = m.unread + m.received.flatten();
        match events.last() {
            OctetEvent::Arrival(data) => {
                assert(events[n] is Arrival);
                law_arrivals_only_add(mid, data);
                assert(octets_read(m, events) + (end.unread + end.received.flatten()) =~= (
                octets_read(m, front) + (mid.unread + mid.received.flatten())) + data);
                assert(start + octets_arrived(events) =~= (start + octets_arrived(front)) + data);
            },
            OctetEvent::Read(room) => {
                law_chunks_come_from_the_front(mid, room);
                assert(octets_read(m, events) + (end.unread + end.received.flatten()) =~=
                octets_read(m, front) + (mid.chunk(room) + (end.unread + end.received.flatten())));
            },
        }
    }
}

/// A stream starts with the identifier, headers and priority that it was opened
/// with; nothing has arrived, been sent or been closed.
pub proof fn law_streams_start_blank(stream_id: u32, headers: Fields, priority: u8)
    ensures
        StreamModel::opened(stream_id, headers, priority).stream_id == stream_id,
        StreamModel::opened(stream_id, headers, priority).headers == headers,
        StreamModel::opened(stream_id, headers, priority).priority == priority,
        StreamModel::opened(stream_id, headers, priority).received.len() == 0,
        StreamModel::opened(stream_id, headers, priority).unread.len() == 0,
        !StreamModel::opened(stream_id, headers, priority).local_fin_sent,
        !StreamModel::opened(stream_id, headers, priority).replied,
        !StreamModel::opened(stream_id, headers, priority).remote_closed,
{
}

/// Whether a frame closes the remote side of its stream: a reset does, and so
/// does the lowest flag of a frame that can carry a FIN.
pub open spec fn closes_remote(frame: FrameModel) -> bool {
    match frame {
        FrameModel::RstStream { .. } => true,
        FrameModel::Data { flags, .. } => flags % 2 == 1,
        FrameModel::SynReply { flags, .. } => flags % 2 == 1,
        FrameModel::Headers { flags, .. } => flags % 2 == 1,
        _ => false,
    }
}

/// A stream takes payload in from DATA frames alone, and all of it, and its
/// remote side closes exactly when a frame closes it. What the stream itself
/// has sent does not change.
pub proof fn law_streams_take_in_what_frames_carry(m: StreamModel, frame: FrameModel)
    ensures
        m.took_in(frame).remote_closed <==> m.remote_closed || closes_remote(frame),
        m.took_in(frame).local_fin_sent == m.local_fin_sent,
        m.took_in(frame).replied == m.replied,
        m.took_in(frame).stream_id == m.stream_id,
        m.took_in(frame).headers == m.headers,
        m.took_in(frame).priority == m.priority,
        m.took_in(frame).unread == m.unread,
        !(frame is Data) ==> m.took_in(frame).received == m.received,
        frame matches FrameModel::Data { data, .. } ==> m.took_in(frame).received == if
            m.received.len() < 64 {
            m.received.push(data)
        } else {
            m.received
        },
{
    lemma_fin_is_the_lowest_flag(frame);
}

proof fn lemma_fin_is_the_lowest_flag(frame: FrameModel)
    ensures
        frame matches FrameModel::Data { flags, .. } ==> has_fin(flags) == (flags % 2 == 1),
        frame matches FrameModel::SynReply { flags, .. } ==> has_fin(flags) == (flags % 2 == 1),
        frame matches FrameModel::Headers { flags, .. } ==> has_fin(flags) == (flags % 2 == 1),
{
    match frame {
        FrameModel::Data { flags, .. } => crate::frame::law_fin_is_the_lowest_flag(flags),
        FrameModel::SynReply { flags, .. } => crate::frame::law_fin_is_the_lowest_flag(flags),
        FrameModel::Headers { flags, .. } => crate::frame::law_fin_is_the_lowest_flag(flags),
        _ => {},
    }
}

/// The handler runs on a frame that opens a stream and on no other. A stream is
/// forgotten exactly when it is reset or when both of its sides have closed.
pub proof fn law_streams_are_forgotten_when_they_end(m: StreamModel, frame: FrameModel)
    ensures
        m.worker_step(frame) is RunHandler <==> frame is SynStream,
        m.worker_step(frame) is Forget <==> frame is RstStream || (!(frame is SynStream)
            && m.local_fin_sent && (m.remote_closed || closes_remote(frame))),
        m.step() is Forget <==> m.remote_closed && m.local_fin_sent,
        !(m.step() is RunHandler),
{
    lemma_fin_is_the_lowest_flag(frame);
}

/// Sending changes nothing but what the stream has sent: a reply counts as one,
/// and a FIN counts with either.
pub proof fn law_sending_changes_only_what_was_sent(m: StreamModel, fin: bool)
    ensures
        m.replied_with(fin).replied,
        m.replied_with(fin).local_fin_sent <==> m.local_fin_sent || fin,
        m.replied_with(fin) == (StreamModel {
            replied: m.replied_with(fin).replied,
            local_fin_sent: m.replied_with(fin).local_fin_sent,
            ..m
        }),
        m.sent_with(fin).local_fin_sent <==> m.local_fin_sent || fin,
        m.sent_with(fin) == (StreamModel {
            local_fin_sent: m.sent_with(fin).local_fin_sent,
            ..m
        }),
        m.remote_closed_if(fin).remote_closed <==> m.remote_closed || fin,
        m.remote_closed_if(fin) == (StreamModel {
            remote_closed: m.remote_closed_if(fin).remote_closed,
            ..m
        }),
        send_result(fin) is Ok <==> fin,
        send_result(fin) matches Err(e) ==> e is ConnectionClosed,
{
}

} // verus!
