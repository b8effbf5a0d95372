//! One connection: which streams are open on it, which identifiers it has
//! accepted, which pings it waits for, and whether it is closing.
//!
//! A [`Connection`] decides and keeps state; it neither waits, reads nor sends.
//! The host reads frames and hands each to [`Connection::receive`], which says
//! what to do with it. The host reaches a stream through a handle of its own
//! choosing, of type `S`, and wakes whoever waits for the echo of a ping
//! through one of type `W`; the connection keeps both.

use crate::error::{protocol, Error};
#[allow(unused_imports)]
use crate::error::is_protocol;
use crate::frame::{
    Frame, GoAwayFrame, GoAwayStatus, PingFrame, RstStatus, RstStreamFrame, Setting, SettingsFrame,
    FLAG_FIN,
};
#[allow(unused_imports)]
use crate::frame::{has_fin, FrameModel};
use crate::headers::copy_of;
#[allow(unused_imports)]
use crate::headers::fields;
use crate::stream::Stream;
#[allow(unused_imports)]
use crate::stream::StreamModel;
use http::HeaderMap;
use std::collections::HashMap;
#[allow(unused_imports)]
use vstd::std_specs::iter::IteratorSpec;
use vstd::prelude::*;

verus! {

broadcast use vstd::std_specs::hash::group_hash_axioms;

/// How many workers the streams are spread over.
pub const N_WORKERS: usize = 5;

/// Setting ID for SETTINGS_MAX_CONCURRENT_STREAMS.
pub const SETTINGS_MAX_CONCURRENT_STREAMS: u32 = 4;

/// Setting ID for SETTINGS_INITIAL_WINDOW_SIZE.
pub const SETTINGS_INITIAL_WINDOW_SIZE: u32 = 7;

/// How many concurrent streams the first SETTINGS frame allows.
pub const MAX_CONCURRENT_STREAMS: u32 = 100;

/// Default initial window size (64 KiB).
pub const DEFAULT_INITIAL_WINDOW_SIZE: u32 = 65536;

/// How long to wait for the echo of a ping, in seconds.
pub const PING_TIMEOUT_SECS: u64 = 5;

/// How long a closing connection waits for its streams to finish, in seconds.
pub const CLOSE_DRAIN_TIMEOUT_SECS: u64 = 5;

/// How long a closing connection sleeps before it looks again whether its
/// streams have finished, in milliseconds.
pub const CLOSE_DRAIN_INTERVAL_MILLIS: u64 = 10;

/// What the host does with a frame that it has read.
#[derive(Debug, PartialEq)]
pub enum Action<W> {
    /// Put this frame into the outgoing queue.
    Send(Frame),
    /// Hand this frame to a worker, for the stream `stream_id`.
    Route { worker: usize, stream_id: u32, frame: Frame },
    /// Tell this waiter that its ping has been echoed.
    Wake(W),
    /// Read no further frames.
    Stop,
    /// Nothing.
    Ignore,
}

/// How a ping ended.
#[derive(Debug, Clone, Copy, PartialEq, Eq, Structural)]
pub enum PingOutcome {
    /// The outgoing queue did not take the frame.
    NotSent,
    /// No echo came in time.
    TimedOut,
    /// The waiter was dropped before an echo came.
    Abandoned,
    /// The echo came.
    Echoed,
}

/// A connection as the proofs see it.
#[verifier::reject_recursive_types(S)]
#[verifier::reject_recursive_types(W)]
pub ghost struct ConnectionModel<S, W> {
    /// The open streams, by identifier.
    pub streams: Map<u32, S>,
    pub next_server_stream_id: u32,
    /// The largest stream identifier accepted so far; 0 if none was.
    pub last_client_stream_id: u32,
    /// Whether either side has announced that it accepts no further stream.
    pub gone_away: bool,
    /// Whether the connection has been declared closed.
    pub closed: bool,
    /// Who waits for the echo of which ping.
    pub ping_map: Map<u32, W>,
    pub next_ping_id: u32,
    /// The peer's announced initial window size.
    pub initial_window_size: u32,
}

/// The worker that serves a stream.
pub open spec fn worker_of(stream_id: u32) -> int {
    stream_id as int % N_WORKERS as int
}

/// The initial window size after `settings` have been applied in order.
pub open spec fn window_after(settings: Seq<Setting>, before: u32) -> u32
    decreases settings.len(),
{
    if settings.len() == 0 {
        before
    } else if settings.last().id == SETTINGS_INITIAL_WINDOW_SIZE {
        settings.last().value
    } else {
        window_after(settings.drop_last(), before)
    }
}

impl<S, W> ConnectionModel<S, W> {
    /// A connection on which nothing has happened.
    pub open spec fn fresh() -> ConnectionModel<S, W> {
        ConnectionModel {
            streams: Map::empty(),
            next_server_stream_id: 2,
            last_client_stream_id: 0,
            gone_away: false,
            closed: false,
            ping_map: Map::empty(),
            next_ping_id: 2,
            initial_window_size: DEFAULT_INITIAL_WINDOW_SIZE,
        }
    }

    /// What holds of every connection between calls: identifiers that a client
    /// chose are odd and none exceeds the largest accepted one; identifiers
    /// that the connection itself chose are even.
    pub open spec fn wf(self) -> bool {
        &&& self.last_client_stream_id == 0 || self.last_client_stream_id % 2 == 1
        &&& forall|id: u32| #[trigger]
            self.streams.contains_key(id) ==> id % 2 == 1 && id <= self.last_client_stream_id
        &&& self.next_ping_id % 2 == 0
        &&& forall|id: u32| #[trigger] self.ping_map.contains_key(id) ==> id % 2 == 0
        &&& self.next_server_stream_id % 2 == 0
        &&& self.streams.dom().finite()
        &&& self.ping_map.dom().finite()
    }

    /// Why a stream may not be opened under `id`, if it may not.
    pub open spec fn refusal(self, id: u32) -> Option<RstStatus> {
        if id % 2 == 0 {
            Some(RstStatus::ProtocolError)
        } else if id <= self.last_client_stream_id {
            Some(RstStatus::ProtocolError)
        } else if self.gone_away {
            Some(RstStatus::RefusedStream)
        } else if self.streams.contains_key(id) {
            Some(RstStatus::StreamInUse)
        } else {
            None
        }
    }

    /// The connection after a stream has been opened.
    pub open spec fn opened(self, id: u32, handle: S) -> ConnectionModel<S, W> {
        ConnectionModel {
            streams: self.streams.insert(id, handle),
            last_client_stream_id: id,
            ..self
        }
    }

    /// The connection after it has received a frame that opens no stream.
    pub open spec fn received(self, frame: FrameModel) -> ConnectionModel<S, W> {
        match frame {
            FrameModel::Ping { id } => ConnectionModel {
                ping_map: if id % 2 == 0 {
                    self.ping_map.remove(id)
                } else {
                    self.ping_map
                },
                ..self
            },
            FrameModel::GoAway { .. } => ConnectionModel {
                gone_away: true,
                closed: true,
                ..self
            },
            FrameModel::Settings { settings, .. } => ConnectionModel {
                initial_window_size: window_after(settings, self.initial_window_size),
                ..self
            },
            _ => self,
        }
    }

    /// What every operation keeps: the largest accepted identifier never
    /// falls, and a connection that is closing or closed stays so.
    pub open spec fn evolves_to(self, later: ConnectionModel<S, W>) -> bool {
        &&& self.last_client_stream_id <= later.last_client_stream_id
        &&& self.gone_away ==> later.gone_away
        &&& self.closed ==> later.closed
    }
}

/// The stream that a frame other than SYN_STREAM is addressed to, if it is
/// addressed to one that must be open.
pub open spec fn addressee(frame: FrameModel) -> Option<u32> {
    match frame {
        FrameModel::Data { stream_id, .. } => Some(stream_id),
        FrameModel::SynReply { stream_id, .. } => Some(stream_id),
        FrameModel::RstStream { stream_id, .. } => Some(stream_id),
        FrameModel::Headers { stream_id, .. } => Some(stream_id),
        _ => None,
    }
}

/// Whether `a` hands the frame `frame` to the worker of the stream `id`.
pub open spec fn routes<W>(a: Action<W>, id: u32, frame: FrameModel) -> bool {
    a matches Action::Route { worker, stream_id, frame: f } && worker == worker_of(id) && stream_id
        == id && f@ == frame
}

/// Whether `a` puts the frame `frame` into the outgoing queue.
pub open spec fn sends<W>(a: Action<W>, frame: FrameModel) -> bool {
    a matches Action::Send(f) && f@ == frame
}

/// What the host is told to do with a frame that opens no stream.
pub open spec fn reaction<S, W>(
    before: ConnectionModel<S, W>,
    frame: FrameModel,
    a: Action<W>,
) -> bool {
    match addressee(frame) {
        Some(id) => if before.streams.contains_key(id) {
            routes(a, id, frame)
        } else if frame is Data {
            sends(a, FrameModel::RstStream { stream_id: id, status: RstStatus::InvalidStream })
        } else {
            a is Ignore
        },
        None => match frame {
            FrameModel::Ping { id } => if id % 2 == 1 {
                sends(a, frame)
            } else if before.ping_map.contains_key(id) {
                a == Action::Wake(before.ping_map[id])
            } else {
                a is Ignore
            },
            FrameModel::GoAway { .. } => a is Stop,
            _ => a is Ignore,
        },
    }
}

/// The SETTINGS frame that a connection starts with.
pub open spec fn initial_settings() -> FrameModel {
    FrameModel::Settings {
        settings: seq![
            Setting {
                id: SETTINGS_MAX_CONCURRENT_STREAMS,
                flags: 0,
                value: MAX_CONCURRENT_STREAMS,
            },
        ],
        flags: 0,
    }
}

/// A connection, from the accepting side.
pub struct Connection<S, W> {
    streams: HashMap<u32, S>,
    next_server_stream_id: u32,
    last_client_stream_id: u32,
    gone_away: bool,
    closed: bool,
    ping_map: HashMap<u32, W>,
    next_ping_id: u32,
    initial_window_size: u32,
}

impl<S, W> View for Connection<S, W> {
    type V = ConnectionModel<S, W>;

    closed spec fn view(&self) -> ConnectionModel<S, W> {
        ConnectionModel {
            streams: self.streams@,
            next_server_stream_id: self.next_server_stream_id,
            last_client_stream_id: self.last_client_stream_id,
            gone_away: self.gone_away,
            closed: self.closed,
            ping_map: self.ping_map@,
            next_ping_id: self.next_ping_id,
            initial_window_size: self.initial_window_size,
        }
    }
}

impl<S, W> Connection<S, W> {
    /// A connection on which nothing has happened.
    pub fn new() -> (c: Connection<S, W>)
        ensures
            c@ == ConnectionModel::<S, W>::fresh(),
            c@.wf(),
    {
        Connection {
            streams: HashMap::new(),
            next_server_stream_id: 2,
            last_client_stream_id: 0,
            gone_away: false,
            closed: false,
            ping_map: HashMap::new(),
            next_ping_id: 2,
            initial_window_size: DEFAULT_INITIAL_WINDOW_SIZE,
        }
    }

    /// Starts to serve: a fresh connection and the SETTINGS frame that goes
    /// out before anything else.
    pub fn serve() -> (r: (Connection<S, W>, Frame))
        ensures
            r.0@ == ConnectionModel::<S, W>::fresh(),
            r.0@.wf(),
            r.1@ == initial_settings(),
    {
        let settings = vec![Setting {
            id: SETTINGS_MAX_CONCURRENT_STREAMS,
            flags: 0,
            value: MAX_CONCURRENT_STREAMS,
        }];
        assert(settings@ =~= initial_settings()->settings);
        (Connection::new(), Frame::Settings(SettingsFrame { settings, flags: 0 }))
    }

    /// The number of active streams.
    pub fn stream_count(&self) -> (n: usize)
        ensures
            n == self@.streams.len(),
    {
        self.streams.len()
    }

    /// The host's handle on an open stream.
    pub fn stream(&self, id: u32) -> (h: Option<&S>)
        ensures
            h == if self@.streams.contains_key(id) {
                Some(&self@.streams[id])
            } else {
                None
            },
    {
        self.streams.get(&id)
    }

    /// Starts a ping: picks the next even identifier, remembers who waits for
    /// the echo, and returns the frame to send. Identifiers wrap around.
    pub fn ping(&mut self, waiter: W) -> (f: Frame)
        requires
            old(self)@.wf(),
        ensures
            final(self)@.wf(),
            f@ == (FrameModel::Ping { id: old(self)@.next_ping_id }),
            final(self)@ == (ConnectionModel {
                ping_map: old(self)@.ping_map.insert(old(self)@.next_ping_id, waiter),
                next_ping_id: ((old(self)@.next_ping_id + 2) % 0x1_0000_0000) as u32,
                ..old(self)@
            }),
            old(self)@.evolves_to(final(self)@),
    {
        let id: u32 = self.next_ping_id;
        self.next_ping_id = id.wrapping_add(2);
        self.ping_map.insert(id, waiter);
        Frame::Ping(PingFrame { id })
    }

    /// Starts to close: marks the connection as going away and returns the
    /// GOAWAY frame to send. Nothing is left to do where that has happened
    /// before.
    pub fn close(&mut self) -> (f: Option<Frame>)
        requires
            old(self)@.wf(),
        ensures
            final(self)@.wf(),
            final(self)@ == (ConnectionModel { gone_away: true, ..old(self)@ }),
            old(self)@.gone_away ==> f is None,
            !old(self)@.gone_away ==> {
                &&& f matches Some(g)
                &&& g@ == (FrameModel::GoAway {
                    last_good_stream_id: old(self)@.last_client_stream_id,
                    status: GoAwayStatus::Okay,
                })
            },
            old(self)@.evolves_to(final(self)@),
    {
        if self.gone_away {
            return None;
        }
        self.gone_away = true;
        Some(
            Frame::GoAway(
                GoAwayFrame {
                    last_good_stream_id: self.last_client_stream_id,
                    status: GoAwayStatus::Okay,
                },
            ),
        )
    }

    /// Declares the connection closed: the second step of closing, after the
    /// GOAWAY frame has been offered to the outgoing queue.
    pub fn announce_closed(&mut self)
        requires
            old(self)@.wf(),
        ensures
            final(self)@.wf(),
            final(self)@ == (ConnectionModel { closed: true, ..old(self)@ }),
            old(self)@.evolves_to(final(self)@),
    {
        self.closed = true;
    }

    /// Whether a closing connection has no stream left to wait for. Streams that
    /// have finished do not count: they have been taken out of the table.
    pub fn is_drained(&self) -> (b: bool)
        ensures
            b <==> self@.streams == Map::<u32, S>::empty(),
    {
        let b = self.streams.is_empty();
        assert(b ==> self@.streams =~= Map::<u32, S>::empty());
        b
    }

    /// Whether the wait for the connection's end is over.
    pub fn wait_closed(&self) -> (b: bool)
        ensures
            b == self@.closed,
    {
        self.closed
    }

    /// Whether either side has announced that it accepts no further stream.
    pub fn is_gone_away(&self) -> (b: bool)
        ensures
            b == self@.gone_away,
    {
        self.gone_away
    }

    /// The peer's announced initial window size, which is kept but not
    /// enforced.
    pub fn initial_window_size(&self) -> (n: u32)
        ensures
            n == self@.initial_window_size,
    {
        self.initial_window_size
    }

    /// Takes a stream out of the table, as is done when the peer has reset it
    /// and when both sides have closed it.
    pub fn forget(&mut self, id: u32) -> (h: Option<S>)
        requires
            old(self)@.wf(),
        ensures
            final(self)@.wf(),
            final(self)@ == (ConnectionModel {
                streams: old(self)@.streams.remove(id),
                ..old(self)@
            }),
            h == if old(self)@.streams.contains_key(id) {
                Some(old(self)@.streams[id])
            } else {
                None
            },
            old(self)@.evolves_to(final(self)@),
    {
        self.streams.remove(&id)
    }

    /// Opens a stream if it may be opened; else returns why not.
    fn open_stream<F: FnOnce(Stream) -> S>(
        &mut self,
        id: u32,
        headers: HeaderMap,
        priority: u8,
        flags: u8,
        make_handle: F,
    ) -> (r: Option<RstStatus>)
        requires
            old(self)@.wf(),
            forall|s: Stream| s.wf() ==> call_requires(make_handle, (s,)),
        ensures
            final(self)@.wf(),
            r == old(self)@.refusal(id),
            r is Some ==> final(self)@ == old(self)@,
            r is None ==> exists|s: Stream, h: S| #[trigger]
                opens_with(make_handle, s, h) && s@ == StreamModel::opened(
                    id,
                    fields(headers),
                    priority,
                ).remote_closed_if(has_fin(flags)) && final(self)@ == old(self)@.opened(id, h),
            old(self)@.evolves_to(final(self)@),
    {
        if id == 0 || id % 2 == 0 {
            return Some(RstStatus::ProtocolError);
        }
        if id <= self.last_client_stream_id {
            return Some(RstStatus::ProtocolError);
        }
        if self.gone_away {
            return Some(RstStatus::RefusedStream);
        }
        if self.streams.contains_key(&id) {
            return Some(RstStatus::StreamInUse);
        }
        let mut s = Stream::new(id, headers, priority);
        if (flags & FLAG_FIN) != 0 {
            s.close_remote();
        }
        let ghost gs = s;
        let h = make_handle(s);
        assert(opens_with(make_handle, gs, h));
        let ghost gh = h;
        self.streams.insert(id, h);
        self.last_client_stream_id = id;
        assert(self@ =~= old(self)@.opened(id, gh));
        None
    }

    /// The frame goes to the worker of its stream if that is open; else
    /// nothing is done.
    fn route(&self, id: u32, frame: Frame) -> (a: Action<W>)
        ensures
            self@.streams.contains_key(id) ==> routes(a, id, frame@),
            !self@.streams.contains_key(id) ==> a is Ignore,
    {
        if self.streams.contains_key(&id) {
            Action::Route { worker: worker_index(id), stream_id: id, frame }
        } else {
            Action::Ignore
        }
    }

    /// Takes in a frame that has been read, and says what to do with it.
    ///
    /// A SYN_STREAM frame that may open a stream does so: `make_handle` turns
    /// the new stream into the host's handle on it, which the connection keeps.
    /// A FIN on that frame opens the stream with its remote side closed.
    pub fn receive<F: FnOnce(Stream) -> S>(&mut self, frame: Frame, make_handle: F) -> (a: Action<
        W,
    >)
        requires
            old(self)@.wf(),
            forall|s: Stream| s.wf() ==> call_requires(make_handle, (s,)),
        ensures
            final(self)@.wf(),
            frame@ matches FrameModel::SynStream {
                stream_id,
                headers,
                priority,
                flags,
                ..
            } ==> {
                match old(self)@.refusal(stream_id) {
                    Some(status) => {
                        &&& sends(a, FrameModel::RstStream { stream_id, status })
                        &&& final(self)@ == old(self)@
                    },
                    None => {
                        &&& routes(a, stream_id, frame@)
                        &&& exists|s: Stream, h: S| #[trigger]
                            opens_with(make_handle, s, h) && s@ == StreamModel::opened(
                                stream_id,
                                headers,
                                priority,
                            ).remote_closed_if(has_fin(flags)) && final(self)@ == old(self)@.opened(stream_id, h)
                    },
                }
            },
            !(frame@ is SynStream) ==> {
                &&& reaction(old(self)@, frame@, a)
                &&& final(self)@ == old(self)@.received(frame@)
            },
            old(self)@.evolves_to(final(self)@),
    {
        match frame {
            Frame::SynStream(sf) => {
                let id: u32 = sf.stream_id;
                match self.open_stream(
                    id,
                    copy_of(&sf.headers),
                    sf.priority,
                    sf.flags,
                    make_handle,
                ) {
                    Some(status) => Action::Send(
                        Frame::RstStream(RstStreamFrame { stream_id: id, status }),
                    ),
                    None => Action::Route {
                        worker: worker_index(id),
                        stream_id: id,
                        frame: Frame::SynStream(sf),
                    },
                }
            },
            Frame::Data(df) => {
                let id: u32 = df.stream_id;
                if self.streams.contains_key(&id) {
                    self.route(id, Frame::Data(df))
                } else {
                    Action::Send(
                        Frame::RstStream(
                            RstStreamFrame { stream_id: id, status: RstStatus::InvalidStream },
                        ),
                    )
                }
            },
            Frame::SynReply(sr) => self.route(sr.stream_id, Frame::SynReply(sr)),
            Frame::RstStream(rs) => self.route(rs.stream_id, Frame::RstStream(rs)),
            Frame::Headers(hf) => self.route(hf.stream_id, Frame::Headers(hf)),
            Frame::Ping(pf) => {
                if pf.id % 2 == 1 {
                    Action::Send(Frame::Ping(pf))
                } else {
                    match self.ping_map.remove(&pf.id) {
                        Some(waiter) => Action::Wake(waiter),
                        None => Action::Ignore,
                    }
                }
            },
            Frame::GoAway(_) => {
                self.gone_away = true;
                self.closed = true;
                Action::Stop
            },
            Frame::Settings(sf) => {
                self.apply_settings(&sf.settings);
                Action::Ignore
            },
            Frame::WindowUpdate(_) => Action::Ignore,
        }
    }

    /// Keeps the initial window size that the peer announces: the last one, if
    /// it announces several.
    fn apply_settings(&mut self, settings: &Vec<Setting>)
        ensures
            final(self)@ == (ConnectionModel {
                initial_window_size: window_after(settings@, old(self)@.initial_window_size),
                ..old(self)@
            }),
    {
        let mut i: usize = 0;
        while i < settings.len()
            invariant
                i <= settings@.len(),
                self@ == (ConnectionModel {
                    initial_window_size: window_after(
                        settings@.take(i as int),
                        old(self)@.initial_window_size,
                    ),
                    ..old(self)@
                }),
            decreases settings@.len() - i,
        {
            if settings[i].id == SETTINGS_INITIAL_WINDOW_SIZE {
                self.initial_window_size = settings[i].value;
            }
            proof {
                let upto = settings@.take(i + 1);
                assert(upto.drop_last() =~= settings@.take(i as int));
                assert(upto.last() == settings@[i as int]);
            }
            i = i + 1;
        }
        assert(settings@.take(i as int) =~= settings@);
    }

    /// Notes that a frame could not be written to the transport: the connection
    /// counts as closed.
    pub fn write_failed(&mut self)
        requires
            old(self)@.wf(),
        ensures
            final(self)@.wf(),
            final(self)@ == (ConnectionModel { closed: true, ..old(self)@ }),
            old(self)@.evolves_to(final(self)@),
    {
        self.closed = true;
    }

    /// Notes that no further frame will be read, and returns the identifiers of
    /// the open streams, each once: the host closes the remote side of each, so
    /// that whoever reads from it learns that nothing more will come.
    pub fn end_of_input(&mut self) -> (ids: Vec<u32>)
        requires
            old(self)@.wf(),
        ensures
            final(self)@.wf(),
            final(self)@ == (ConnectionModel { closed: true, ..old(self)@ }),
            ids@.to_set() == old(self)@.streams.dom(),
            ids@.no_duplicates(),
            old(self)@.evolves_to(final(self)@),
    {
        let mut ids: Vec<u32> = Vec::new();
        let keys = self.streams.keys();
        let ghost all: Seq<&u32> = keys.remaining();
        for id in it: keys
            invariant
                it.seq() == all,
                ids@ =~= all.unref().take(it.index() as int),
        {
            ids.push(*id);
        }
        assert(ids@ =~= all.unref());
        self.closed = true;
        ids
    }
}

/// Whether `make_handle`, given the new stream `s`, may return the handle `h`.
pub open spec fn opens_with<S, F: FnOnce(Stream) -> S>(make_handle: F, s: Stream, h: S) -> bool {
    s.wf() && call_ensures(make_handle, (s,), h)
}

/// The worker that serves a stream.
pub fn worker_index(stream_id: u32) -> (w: usize)
    ensures
        w == worker_of(stream_id),
        w < N_WORKERS,
{
    (stream_id as usize) % N_WORKERS
}

/// The result of a ping, by how it ended.
pub fn ping_finished(outcome: PingOutcome) -> (r: Result<(), Error>)
    ensures
        outcome is Echoed ==> r == Ok::<(), Error>(()),
        outcome is TimedOut ==> (r matches Err(e) && is_protocol(e, "ping timeout"@)),
        outcome is NotSent || outcome is Abandoned ==> r == Err::<(), Error>(
            Error::ConnectionClosed,
        ),
{
    match outcome {
        PingOutcome::Echoed => Ok(()),
        PingOutcome::TimedOut => Err(protocol("ping timeout")),
        PingOutcome::NotSent => Err(Error::ConnectionClosed),
        PingOutcome::Abandoned => Err(Error::ConnectionClosed),
    }
}

/// What an operation keeps is kept by any number of them.
pub proof fn law_connections_evolve<S, W>(
    a: ConnectionModel<S, W>,
    b: ConnectionModel<S, W>,
    c: ConnectionModel<S, W>,
)
    requires
        a.evolves_to(b),
        b.evolves_to(c),
    ensures
        a.evolves_to(a),
        a.evolves_to(c),
{
}

/// The identifiers of accepted streams are odd and strictly increase: once a
/// stream has been accepted, that identifier and every smaller one is refused
/// as a protocol error ever after.
pub proof fn law_identifiers_increase<S, W>(
    m: ConnectionModel<S, W>,
    id: u32,
    handle: S,
    later: ConnectionModel<S, W>,
    other: u32,
)
    requires
        m.refusal(id) is None,
        m.opened(id, handle).evolves_to(later),
        other <= id,
    ensures
        id % 2 == 1,
        id > m.last_client_stream_id,
        later.refusal(other) == Some(RstStatus::ProtocolError),
{
}

/// Opening a stream adds one to those that are open, and keeps what holds of
/// every connection.
pub proof fn law_opening_adds_one_stream<S, W>(m: ConnectionModel<S, W>, id: u32, handle: S)
    requires
        m.wf(),
        m.refusal(id) is None,
    ensures
        m.opened(id, handle).wf(),
        m.opened(id, handle).streams.len() == m.streams.len() + 1,
        m.opened(id, handle).streams[id] == handle,
{
}

/// The frames of one stream all go to the same worker, so they are taken in in
/// the order in which they were received.
pub proof fn law_frames_of_a_stream_share_a_worker<W>(
    id: u32,
    first: FrameModel,
    a: Action<W>,
    second: FrameModel,
    b: Action<W>,
)
    requires
        routes(a, id, first),
        routes(b, id, second),
    ensures
        a->worker == b->worker,
        a->worker < N_WORKERS,
{
}

/// An identifier that is in use is always refused as a protocol error, because
/// it does not exceed the largest accepted one: the status that says "in use"
/// is never the answer.
pub proof fn law_in_use_is_never_the_answer<S, W>(m: ConnectionModel<S, W>, id: u32)
    requires
        m.wf(),
    ensures
        m.refusal(id) != Some(RstStatus::StreamInUse),
        m.streams.contains_key(id) ==> m.refusal(id) == Some(RstStatus::ProtocolError),
{
}

/// Once either side has announced that it accepts no further stream, none is
/// accepted.
pub proof fn law_going_away_is_final<S, W>(
    m: ConnectionModel<S, W>,
    later: ConnectionModel<S, W>,
    id: u32,
)
    requires
        m.gone_away,
        m.evolves_to(later),
    ensures
        later.refusal(id) is Some,
        later.refusal(id) == Some(RstStatus::RefusedStream) <==> id % 2 == 1 && id
            > later.last_client_stream_id,
{
}

/// No open stream has an identifier beyond the one that a GOAWAY frame names.
pub proof fn law_last_good_stream_bounds_open_streams<S, W>(m: ConnectionModel<S, W>, id: u32)
    requires
        m.wf(),
        m.streams.contains_key(id),
    ensures
        id <= m.last_client_stream_id,
{
}

/// The identifier of the n-th ping after one with the identifier `id`.
pub open spec fn ping_id_after(id: u32, n: nat) -> u32
    decreases n,
{
    if n == 0 {
        id
    } else {
        ((ping_id_after(id, (n - 1) as nat) + 2) % 0x1_0000_0000) as u32
    }
}

/// A ping gets an identifier that none of the 2^31 - 1 pings before it has, so
/// it takes no other waiter's place before the identifiers have wrapped around.
pub proof fn law_ping_identifiers_differ(id: u32, n: nat)
    requires
        0 < n < 0x8000_0000,
    ensures
        ping_id_after(id, n) != id,
{
    lemma_ping_id_after(id, n);
}

proof fn lemma_ping_id_after(id: u32, n: nat)
    ensures
        ping_id_after(id, n) == (id + 2 * n) % 0x1_0000_0000,
    decreases n,
{
    if n > 0 {
        lemma_ping_id_after(id, (n - 1) as nat);
    }
}

/// The echo of a ping wakes the one who waits for it. It leaves the connection
/// as it was before the ping but for the next identifier, unless the ping took
/// the place of one with the same identifier.
pub proof fn law_echo_wakes_the_waiter<S, W>(
    before: ConnectionModel<S, W>,
    pinged: ConnectionModel<S, W>,
    waiter: W,
    a: Action<W>,
)
    requires
        before.wf(),
        pinged == (ConnectionModel {
            ping_map: before.ping_map.insert(before.next_ping_id, waiter),
            next_ping_id: pinged.next_ping_id,
            ..before
        }),
        reaction(pinged, FrameModel::Ping { id: before.next_ping_id }, a),
    ensures
        a == Action::Wake(waiter),
        pinged.received(FrameModel::Ping { id: before.next_ping_id }) == (ConnectionModel {
            ping_map: before.ping_map.remove(before.next_ping_id),
            next_ping_id: pinged.next_ping_id,
            ..before
        }),
        !before.ping_map.contains_key(before.next_ping_id) ==> before.ping_map.remove(
            before.next_ping_id,
        ) == before.ping_map,
{
    let after = pinged.received(FrameModel::Ping { id: before.next_ping_id });
    assert(after.ping_map =~= before.ping_map.remove(before.next_ping_id));
}

/// A ping that the client has started is sent back unchanged and alters
/// nothing.
pub proof fn law_client_pings_are_echoed<S, W>(m: ConnectionModel<S, W>, id: u32, a: Action<W>)
    requires
        id % 2 == 1,
        reaction(m, FrameModel::Ping { id }, a),
    ensures
        sends(a, FrameModel::Ping { id }),
        m.received(FrameModel::Ping { id }) == m,
{
}

/// Only a SYN_STREAM frame adds a stream, and no frame takes one away: that is
/// left to the worker that lets the stream take the reset in.
pub proof fn law_frames_keep_the_streams<S, W>(m: ConnectionModel<S, W>, frame: FrameModel)
    ensures
        m.received(frame).streams == m.streams,
        m.received(frame).last_client_stream_id == m.last_client_stream_id,
{
}

/// Payload for a stream that has been taken out of the table is answered with a
/// reset.
pub proof fn law_forgotten_streams_are_invalid<S, W>(
    m: ConnectionModel<S, W>,
    id: u32,
    flags: u8,
    data: Seq<u8>,
    a: Action<W>,
)
    requires
        reaction(
            ConnectionModel { streams: m.streams.remove(id), ..m },
            FrameModel::Data { stream_id: id, flags, data },
            a,
        ),
    ensures
        sends(a, FrameModel::RstStream { stream_id: id, status: RstStatus::InvalidStream }),
{
}

/// A closing connection has nothing left to wait for once the last of its
/// streams has finished and been forgotten.
pub proof fn law_finished_streams_drain<S, W>(m: ConnectionModel<S, W>, id: u32)
    requires
        m.streams.dom() == set![id],
    ensures
        m.streams.remove(id) == Map::<u32, S>::empty(),
{
    assert(m.streams.remove(id) =~= Map::<u32, S>::empty());
}

/// Whoever reads from a stream that was open when the input ended learns, once
/// everything received has been read, that nothing more will come: closing the
/// remote side of a stream leaves no read of it waiting.
pub proof fn law_end_of_input_leaves_no_reader_waiting(m: StreamModel)
    ensures
        m.remote_closed_if(true).received == m.received,
        m.remote_closed_if(true).after_reads(m.received.len()).received.len() == 0,
        m.remote_closed_if(true).after_reads(m.received.len()).remote_closed,
{
    crate::stream::law_end_follows_the_last_payload(m.remote_closed_if(true), m.received.len());
}

/// A frame for an open stream is handed to that stream, whichever other streams
/// are open and whenever it was opened: the worker gets the frame as it came.
/// Only payload for a stream that is not open is answered, with a reset;
/// anything else for such a stream is ignored.
pub proof fn law_frames_reach_their_stream<S, W>(
    m: ConnectionModel<S, W>,
    frame: FrameModel,
    id: u32,
    a: Action<W>,
)
    requires
        reaction(m, frame, a),
        match frame {
            FrameModel::Data { stream_id, .. } => stream_id == id,
            FrameModel::SynReply { stream_id, .. } => stream_id == id,
            FrameModel::RstStream { stream_id, .. } => stream_id == id,
            FrameModel::Headers { stream_id, .. } => stream_id == id,
            _ => false,
        },
    ensures
        m.streams.contains_key(id) <==> a is Route,
        a matches Action::Route { worker, stream_id, frame: f } ==> stream_id == id && f@ == frame
            && worker == id % 5,
        a is Send <==> frame is Data && !m.streams.contains_key(id),
        a matches Action::Send(f) ==> f@ == (FrameModel::RstStream {
            stream_id: id,
            status: RstStatus::InvalidStream,
        }),
        a is Ignore <==> !(frame is Data) && !m.streams.contains_key(id),
{
}

/// A frame that is addressed to no stream is never handed to one. A ping with
/// an odd identifier is sent back; one with an even identifier wakes whoever
/// waits for it, and is otherwise ignored; GOAWAY alone ends the reading.
pub proof fn law_frames_for_the_connection_stay_there<S, W>(
    m: ConnectionModel<S, W>,
    frame: FrameModel,
    a: Action<W>,
)
    requires
        reaction(m, frame, a),
        frame is Ping || frame is GoAway || frame is Settings || frame is WindowUpdate,
    ensures
        !(a is Route),
        a is Stop <==> frame is GoAway,
        a is Send <==> (frame matches FrameModel::Ping { id } && id % 2 == 1),
        a matches Action::Send(f) ==> f@ == frame,
        a is Wake <==> (frame matches FrameModel::Ping { id } && id % 2 == 0
            && m.ping_map.contains_key(id)),
        a matches Action::Wake(w) ==> (frame matches FrameModel::Ping { id } && w
            == m.ping_map[id]),
{
}

/// A stream may be opened exactly under an odd identifier above every one that
/// was accepted before, as long as neither side is going away. How many streams
/// are open, or were, makes no difference.
pub proof fn law_streams_are_accepted<S, W>(m: ConnectionModel<S, W>, id: u32)
    requires
        m.wf(),
    ensures
        m.refusal(id) is None <==> id % 2 == 1 && id > m.last_client_stream_id && !m.gone_away,
        m.refusal(id) == Some(RstStatus::ProtocolError) <==> id % 2 == 0 || id
            <= m.last_client_stream_id,
        m.refusal(id) == Some(RstStatus::RefusedStream) <==> id % 2 == 1 && id
            > m.last_client_stream_id && m.gone_away,
{
}

/// Opening a stream puts its handle into the table under its identifier, leaves
/// every other stream alone, and makes it the largest accepted identifier.
pub proof fn law_opening_touches_nothing_else<S, W>(
    m: ConnectionModel<S, W>,
    id: u32,
    handle: S,
    other: u32,
)
    ensures
        m.opened(id, handle).streams.contains_key(id),
        m.opened(id, handle).streams[id] == handle,
        other != id ==> m.opened(id, handle).streams.contains_key(other)
            == m.streams.contains_key(other),
        other != id && m.streams.contains_key(other) ==> m.opened(id, handle).streams[other]
            == m.streams[other],
        m.opened(id, handle).last_client_stream_id == id,
        m.opened(id, handle).gone_away == m.gone_away,
        m.opened(id, handle).closed == m.closed,
        m.opened(id, handle).ping_map == m.ping_map,
        m.opened(id, handle).next_ping_id == m.next_ping_id,
        m.opened(id, handle).next_server_stream_id == m.next_server_stream_id,
        m.opened(id, handle).initial_window_size == m.initial_window_size,
{
}

/// A received frame changes nothing but what it is about: an even ping settles
/// that one ping, GOAWAY closes, and settings may set the window size.
pub proof fn law_frames_change_only_what_they_are_about<S, W>(
    m: ConnectionModel<S, W>,
    frame: FrameModel,
    other: u32,
)
    ensures
        m.received(frame).streams == m.streams,
        m.received(frame).last_client_stream_id == m.last_client_stream_id,
        m.received(frame).next_server_stream_id == m.next_server_stream_id,
        m.received(frame).next_ping_id == m.next_ping_id,
        m.received(frame).gone_away <==> m.gone_away || frame is GoAway,
        m.received(frame).closed <==> m.closed || frame is GoAway,
        !(frame is Settings) ==> m.received(frame).initial_window_size == m.initial_window_size,
        m.received(frame).ping_map.contains_key(other) <==> m.ping_map.contains_key(other) && !(
        frame matches FrameModel::Ping { id } && id % 2 == 0 && id == other),
        m.received(frame).ping_map.contains_key(other) ==> m.received(frame).ping_map[other]
            == m.ping_map[other],
{
}

/// Of several announced window sizes the last one counts; where none is
/// announced, the window size stays.
pub proof fn law_the_last_window_size_counts<S, W>(
    m: ConnectionModel<S, W>,
    settings: Seq<Setting>,
    flags: u8,
    i: int,
)
    requires
        -1 <= i < settings.len(),
        i >= 0 ==> settings[i].id == 7,
        forall|j: int| i < j < settings.len() ==> (#[trigger] settings[j]).id != 7,
    ensures
        m.received(FrameModel::Settings { settings, flags }).initial_window_size == if i >= 0 {
            settings[i].value
        } else {
            m.initial_window_size
        },
{
    lemma_last_window_size(settings, m.initial_window_size, i);
}

proof fn lemma_last_window_size(settings: Seq<Setting>, before: u32, i: int)
    requires
        -1 <= i < settings.len(),
        i >= 0 ==> settings[i].id == 7,
        forall|j: int| i < j < settings.len() ==> (#[trigger] settings[j]).id != 7,
    ensures
        window_after(settings, before) == if i >= 0 {
            settings[i].value
        } else {
            before
        },
    decreases settings.len(),
{
    if settings.len() > 0 && i < settings.len() - 1 {
        assert(settings.last().id != 7);
        let front = settings.drop_last();
        assert forall|j: int| i < j < front.len() implies (#[trigger] front[j]).id != 7 by {
            assert(front[j] == settings[j]);
        }
        lemma_last_window_size(front, before, i);
    }
}

/// An action that hands a frame over hands over that frame, for that stream, to
/// the one worker that serves it; an action that sends a frame sends that one.
pub proof fn law_actions_carry_the_frame<W>(a: Action<W>, id: u32, frame: FrameModel)
    ensures
        routes(a, id, frame) <==> (a matches Action::Route { worker, stream_id, frame: f }
            && worker == id % 5 && stream_id == id && f@ == frame),
        sends(a, frame) <==> (a matches Action::Send(f) && f@ == frame),
{
}

/// A connection starts with no stream, no ping under way and nothing closed,
/// and with one announcement: a hundred concurrent streams.
pub proof fn law_connections_start_empty<S, W>(id: u32)
    ensures
        !ConnectionModel::<S, W>::fresh().streams.contains_key(id),
        !ConnectionModel::<S, W>::fresh().ping_map.contains_key(id),
        !ConnectionModel::<S, W>::fresh().gone_away,
        !ConnectionModel::<S, W>::fresh().closed,
        ConnectionModel::<S, W>::fresh().refusal(id) is None <==> id % 2 == 1,
        ConnectionModel::<S, W>::fresh().last_client_stream_id == 0,
        ConnectionModel::<S, W>::fresh().next_server_stream_id == 2,
        ConnectionModel::<S, W>::fresh().next_ping_id == 2,
        ConnectionModel::<S, W>::fresh().initial_window_size == 65536,
        initial_settings() == (FrameModel::Settings {
            settings: seq![Setting { id: 4, flags: 0, value: 100 }],
            flags: 0,
        }),
{
}

} // verus!
