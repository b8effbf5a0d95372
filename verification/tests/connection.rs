use bytes::Bytes;
use http::HeaderMap;
use spdystream::codec::parse_frame_header;
use spdystream::connection::{
    ping_finished, worker_index, Action, PingOutcome, SETTINGS_INITIAL_WINDOW_SIZE,
    SETTINGS_MAX_CONCURRENT_STREAMS,
};
use spdystream::frame::{
    DataFrame, GoAwayFrame, HeadersFrame, PingFrame, RstStreamFrame, Setting, SettingsFrame,
    SynReplyFrame, SynStreamFrame, WindowUpdateFrame, DATA_FLAG_FIN, FLAG_FIN,
};
use spdystream::stream::{ReadStep, WorkerStep, WriteStep};
use spdystream::{Connection, Error, Frame, Framer, GoAwayStatus, RstStatus, Stream};
use std::cell::RefCell;
use std::rc::Rc;

type Handle = Rc<RefCell<Stream>>;

/// A host without input or output: it takes octets in and collects those that
/// it would send.
struct Host {
    conn: Connection<Handle, u32>,
    framer: Framer,
    sent: Vec<u8>,
    woken: Vec<u32>,
    started: Vec<Handle>,
    stopped: bool,
}

impl Host {
    fn new() -> Host {
        let (conn, settings) = Connection::serve();
        let mut host = Host {
            conn,
            framer: Framer::new(),
            sent: Vec::new(),
            woken: Vec::new(),
            started: Vec::new(),
            stopped: false,
        };
        host.send(&settings);
        host
    }

    fn send(&mut self, frame: &Frame) {
        let octets = self.framer.write_frame(frame).unwrap();
        self.sent.extend_from_slice(&octets);
    }

    fn feed(&mut self, octets: &[u8]) {
        let mut at = 0;
        while at < octets.len() {
            let header = parse_frame_header(&octets[at..at + 8]).unwrap();
            let end = at + 8 + header.length() as usize;
            let payload = octets[at + 8..end].to_vec();
            let frame = self.framer.parse_frame(header, payload).unwrap();
            self.take(frame);
            at = end;
        }
    }

    fn take(&mut self, frame: Frame) {
        match self.conn.receive(frame, |s: Stream| Rc::new(RefCell::new(s))) {
            Action::Send(frame) => self.send(&frame),
            Action::Route { worker, stream_id, frame } => {
                assert_eq!(worker, worker_index(stream_id));
                let handle = self.conn.stream(stream_id).unwrap().clone();
                let step = handle.borrow_mut().take_in(&frame);
                match step {
                    WorkerStep::RunHandler => self.started.push(handle),
                    WorkerStep::Forget => {
                        assert!(self.conn.forget(stream_id).is_some());
                    }
                    WorkerStep::Done => {}
                }
            }
            Action::Wake(waiter) => self.woken.push(waiter),
            Action::Stop => {
                self.stopped = true;
                for id in self.conn.end_of_input() {
                    self.conn.stream(id).unwrap().borrow_mut().close_remote();
                }
            }
            Action::Ignore => {}
        }
    }

    fn reply(&mut self, handle: &Handle, headers: HeaderMap, fin: bool) {
        let frame = handle.borrow().send_reply(headers, fin);
        self.send(&frame);
        handle.borrow_mut().reply_sent(fin, true).unwrap();
        self.settle(handle);
    }

    fn settle(&mut self, handle: &Handle) {
        let stream = handle.borrow();
        if stream.step() == WorkerStep::Forget {
            self.conn.forget(stream.stream_id);
        }
    }

    fn write(&mut self, handle: &Handle, data: &'static [u8], fin: bool) {
        let step = handle.borrow().write_data(Bytes::from_static(data), fin).unwrap();
        match step {
            WriteStep::Send(frame) => self.send(&frame),
            WriteStep::AwaitReply(_) => panic!("no reply has been sent"),
        }
        handle.borrow_mut().data_sent(fin, true).unwrap();
        self.settle(handle);
    }
}

struct Client {
    framer: Framer,
    seen: usize,
}

impl Client {
    fn new() -> Client {
        Client { framer: Framer::new(), seen: 0 }
    }

    fn write(&mut self, frame: &Frame) -> Vec<u8> {
        self.framer.write_frame(frame).unwrap()
    }

    fn read(&mut self, host: &Host) -> Frame {
        let rest = &host.sent[self.seen..];
        let header = parse_frame_header(&rest[..8]).unwrap();
        let end = 8 + header.length() as usize;
        self.seen += end;
        self.framer.parse_frame(header, rest[8..end].to_vec()).unwrap()
    }

    fn drained(&self, host: &Host) -> bool {
        self.seen == host.sent.len()
    }
}

fn make_test_connection() -> (Host, Client) {
    (Host::new(), Client::new())
}

fn syn_stream(stream_id: u32) -> Frame {
    Frame::SynStream(SynStreamFrame {
        stream_id,
        associated_stream_id: 0,
        priority: 0,
        headers: HeaderMap::new(),
        flags: 0,
    })
}

fn data(stream_id: u32, flags: u8, octets: &'static [u8]) -> Frame {
    Frame::Data(DataFrame { stream_id, flags, data: Bytes::from_static(octets) })
}

#[test]
fn test_stream_id_validation() {
    let (mut host, mut client) = make_test_connection();
    assert!(matches!(client.read(&host), Frame::Settings(_)));

    let first = client.write(&syn_stream(5));
    host.feed(&first);
    let second = client.write(&syn_stream(3));
    host.feed(&second);

    match client.read(&host) {
        Frame::RstStream(rst) => {
            assert_eq!(rst.stream_id, 3, "RST should be for stream 3");
            assert_eq!(rst.status, RstStatus::ProtocolError);
        }
        other => panic!("expected RstStream, got {other:?}"),
    }
}

#[test]
fn test_duplicate_stream_id() {
    let (mut host, mut client) = make_test_connection();
    assert!(matches!(client.read(&host), Frame::Settings(_)));

    let first = client.write(&syn_stream(1));
    host.feed(&first);
    let second = client.write(&syn_stream(1));
    host.feed(&second);

    match client.read(&host) {
        Frame::RstStream(rst) => {
            assert_eq!(rst.stream_id, 1);
            assert_eq!(rst.status, RstStatus::ProtocolError);
        }
        other => panic!("expected RstStream, got {other:?}"),
    }
}

#[test]
fn test_stream_handler_called() {
    let (mut host, mut client) = make_test_connection();
    let octets = client.write(&syn_stream(1));
    host.feed(&octets);

    assert_eq!(host.started.len(), 1);
    assert_eq!(host.started[0].borrow().stream_id, 1);
    assert_eq!(host.conn.stream_count(), 1);
}

#[test]
fn test_connection_closes_on_goaway() {
    let (mut host, mut client) = make_test_connection();
    let octets = client.write(&Frame::GoAway(GoAwayFrame {
        last_good_stream_id: 0,
        status: GoAwayStatus::Okay,
    }));
    host.feed(&octets);

    assert!(host.conn.wait_closed());
    assert!(host.conn.is_gone_away());
    assert!(host.stopped);
}

#[test]
fn test_ping_echo() {
    let (mut host, mut client) = make_test_connection();
    assert!(matches!(client.read(&host), Frame::Settings(_)));

    let octets = client.write(&Frame::Ping(PingFrame { id: 1 }));
    host.feed(&octets);

    match client.read(&host) {
        Frame::Ping(p) => assert_eq!(p.id, 1),
        other => panic!("expected Ping, got {other:?}"),
    }
}

#[test]
fn test_send_receive_data() {
    let (mut host, mut client) = make_test_connection();
    assert!(matches!(client.read(&host), Frame::Settings(_)));
    let octets = client.write(&syn_stream(1));
    host.feed(&octets);
    let stream = host.started[0].clone();
    host.reply(&stream, HeaderMap::new(), false);
    host.write(&stream, b"hello", false);
    host.write(&stream, b"world", true);

    let frame = client.read(&host);
    assert!(matches!(frame, Frame::SynReply(_)), "expected SynReply, got {frame:?}");
    match client.read(&host) {
        Frame::Data(df) => {
            assert_eq!(&df.data[..], b"hello");
            assert_eq!(df.flags & DATA_FLAG_FIN, 0, "first frame should not have FIN");
        }
        other => panic!("expected Data, got {other:?}"),
    }
    match client.read(&host) {
        Frame::Data(df) => {
            assert_eq!(&df.data[..], b"world");
            assert_ne!(df.flags & DATA_FLAG_FIN, 0, "second frame must have FIN");
        }
        other => panic!("expected Data, got {other:?}"),
    }
}

#[test]
fn test_fin_propagation() {
    let (mut host, mut client) = make_test_connection();
    assert!(matches!(client.read(&host), Frame::Settings(_)));
    let octets = client.write(&syn_stream(1));
    host.feed(&octets);
    let stream = host.started[0].clone();
    host.reply(&stream, HeaderMap::new(), false);
    host.write(&stream, b"bye", true);

    assert!(matches!(client.read(&host), Frame::SynReply(_)));
    match client.read(&host) {
        Frame::Data(df) => {
            assert_ne!(df.flags & DATA_FLAG_FIN, 0, "FIN flag must be set");
            assert_eq!(&df.data[..], b"bye");
        }
        other => panic!("expected Data with FIN, got {other:?}"),
    }
    assert!(stream.borrow().is_local_fin_sent());
}

#[test]
fn test_rst_cancels_stream() {
    let (mut host, mut client) = make_test_connection();
    assert!(matches!(client.read(&host), Frame::Settings(_)));
    let octets = client.write(&syn_stream(1));
    host.feed(&octets);
    let frame = host.started[0].borrow().reset(RstStatus::Cancel);
    host.send(&frame);

    match client.read(&host) {
        Frame::RstStream(rst) => {
            assert_eq!(rst.stream_id, 1);
            assert_eq!(rst.status, RstStatus::Cancel);
        }
        other => panic!("expected RstStream, got {other:?}"),
    }
}

#[test]
fn test_write_blocked_before_reply() {
    let (mut host, mut client) = make_test_connection();
    let octets = client.write(&syn_stream(1));
    host.feed(&octets);
    let stream = host.started[0].clone();

    let early = Bytes::from_static(b"early");
    let step = stream.borrow().write_data(early.clone(), false).unwrap();
    assert_eq!(step, WriteStep::AwaitReply(early.clone()), "write_data returned before send_reply");

    host.reply(&stream, HeaderMap::new(), false);
    let step = stream.borrow().write_data(early.clone(), false).unwrap();
    assert_eq!(step, WriteStep::Send(data(1, 0, b"early")));
}

#[test]
fn test_concurrent_streams() {
    let (mut host, mut client) = make_test_connection();
    assert!(matches!(client.read(&host), Frame::Settings(_)));
    for i in 0..10u32 {
        let octets = client.write(&syn_stream(i * 2 + 1));
        host.feed(&octets);
    }
    assert_eq!(host.conn.stream_count(), 10);
    for handle in host.started.clone() {
        let mut headers = HeaderMap::new();
        let id = handle.borrow().stream_id.to_string();
        headers.insert(
            http::header::HeaderName::from_static("x-stream-id"),
            http::header::HeaderValue::from_str(&id).unwrap(),
        );
        host.reply(&handle, headers, true);
    }

    let mut seen_ids = std::collections::HashSet::new();
    for _ in 0..10 {
        match client.read(&host) {
            Frame::SynReply(sr) => {
                assert_eq!(sr.headers["x-stream-id"], sr.stream_id.to_string().as_str());
                assert_eq!(sr.flags, FLAG_FIN);
                seen_ids.insert(sr.stream_id);
            }
            other => panic!("expected SynReply, got {other:?}"),
        }
    }
    for i in 0..10u32 {
        let sid = i * 2 + 1;
        assert!(seen_ids.contains(&sid), "missing reply for stream {sid}");
    }
}

#[test]
fn test_settings_on_connect() {
    let (host, mut client) = make_test_connection();
    match client.read(&host) {
        Frame::Settings(s) => {
            let has_max_concurrent =
                s.settings.iter().any(|setting| setting.id == SETTINGS_MAX_CONCURRENT_STREAMS);
            assert!(
                has_max_concurrent,
                "Settings frame must hold SETTINGS_MAX_CONCURRENT_STREAMS"
            );
            assert_eq!(s.settings, vec![Setting { id: 4, flags: 0, value: 100 }]);
        }
        other => panic!("expected Settings, got {other:?}"),
    }
    assert!(client.drained(&host));
}

#[test]
fn test_ping_roundtrip() {
    let (mut host, mut client) = make_test_connection();
    assert!(matches!(client.read(&host), Frame::Settings(_)));

    let ping = host.conn.ping(77);
    host.send(&ping);
    let frame = client.read(&host);
    let ping_id = match &frame {
        Frame::Ping(p) => {
            assert_eq!(p.id % 2, 0, "server-initiated ping must have even ID");
            p.id
        }
        other => panic!("expected Ping, got {other:?}"),
    };
    assert_eq!(ping_id, 2);

    let echo = client.write(&frame);
    host.feed(&echo);
    assert_eq!(host.woken, vec![77]);
    assert!(ping_finished(PingOutcome::Echoed).is_ok());

    host.feed(&echo);
    assert_eq!(host.woken, vec![77], "an echo wakes its waiter once");
    assert_eq!(host.conn.ping(78), Frame::Ping(PingFrame { id: 4 }));
}

#[test]
fn test_goaway_sent() {
    let (mut host, mut client) = make_test_connection();
    let frame = host.conn.close().unwrap();
    host.send(&frame);
    host.conn.announce_closed();

    let goaway = loop {
        match client.read(&host) {
            Frame::GoAway(g) => break g,
            Frame::Settings(_) => continue,
            other => panic!("unexpected frame: {other:?}"),
        }
    };
    assert_eq!(goaway.status, GoAwayStatus::Okay);
    assert_eq!(goaway.last_good_stream_id, 0, "no streams were accepted");
    assert!(host.conn.wait_closed());
    assert!(host.conn.is_drained());
    assert!(host.conn.close().is_none(), "a second close has nothing to send");
}

#[test]
fn even_and_zero_identifiers_are_refused() {
    for id in [0u32, 2, 4, 100] {
        let (mut host, mut client) = make_test_connection();
        client.read(&host);
        let octets = client.write(&syn_stream(id));
        host.feed(&octets);
        assert_eq!(
            client.read(&host),
            Frame::RstStream(RstStreamFrame { stream_id: id, status: RstStatus::ProtocolError })
        );
        assert_eq!(host.conn.stream_count(), 0);
    }
}

#[test]
fn streams_are_refused_after_goaway() {
    let (mut host, mut client) = make_test_connection();
    client.read(&host);
    let octets = client.write(&syn_stream(7));
    host.feed(&octets);
    assert_eq!(
        host.conn.close(),
        Some(Frame::GoAway(GoAwayFrame { last_good_stream_id: 7, status: GoAwayStatus::Okay }))
    );
    assert!(!host.conn.wait_closed());
    assert!(!host.conn.is_drained());

    let octets = client.write(&syn_stream(9));
    host.feed(&octets);
    assert_eq!(
        client.read(&host),
        Frame::RstStream(RstStreamFrame { stream_id: 9, status: RstStatus::RefusedStream })
    );
    let octets = client.write(&syn_stream(5));
    host.feed(&octets);
    assert_eq!(
        client.read(&host),
        Frame::RstStream(RstStreamFrame { stream_id: 5, status: RstStatus::ProtocolError })
    );
}

#[test]
fn payload_for_an_unknown_stream_is_answered_with_a_reset() {
    let (mut host, mut client) = make_test_connection();
    client.read(&host);
    let octets = client.write(&data(3, 0, b"lost"));
    host.feed(&octets);
    assert_eq!(
        client.read(&host),
        Frame::RstStream(RstStreamFrame { stream_id: 3, status: RstStatus::InvalidStream })
    );
}

#[test]
fn other_frames_for_an_unknown_stream_are_ignored() {
    let (mut host, mut client) = make_test_connection();
    client.read(&host);
    let frames = vec![
        Frame::SynReply(SynReplyFrame { stream_id: 3, headers: HeaderMap::new(), flags: 0 }),
        Frame::RstStream(RstStreamFrame { stream_id: 3, status: RstStatus::Cancel }),
        Frame::Headers(HeadersFrame { stream_id: 3, headers: HeaderMap::new(), flags: 0 }),
        Frame::WindowUpdate(WindowUpdateFrame { stream_id: 3, delta: 9 }),
        Frame::Ping(PingFrame { id: 8 }),
    ];
    for frame in frames {
        let octets = client.write(&frame);
        host.feed(&octets);
    }
    assert!(client.drained(&host));
    assert!(host.woken.is_empty());
}

#[test]
fn a_reset_stream_is_forgotten_and_stays_refused() {
    let (mut host, mut client) = make_test_connection();
    client.read(&host);
    let octets = client.write(&syn_stream(1));
    host.feed(&octets);
    let stream = host.started[0].clone();
    let octets =
        client.write(&Frame::RstStream(RstStreamFrame { stream_id: 1, status: RstStatus::Cancel }));
    host.feed(&octets);
    assert!(stream.borrow().is_remote_closed());
    assert_eq!(stream.borrow_mut().read_data(), ReadStep::Eof);
    assert_eq!(host.conn.stream_count(), 0);
    assert!(host.conn.stream(1).is_none());

    let octets = client.write(&data(1, 0, b"late"));
    host.feed(&octets);
    assert_eq!(
        client.read(&host),
        Frame::RstStream(RstStreamFrame { stream_id: 1, status: RstStatus::InvalidStream })
    );
    let octets = client.write(&syn_stream(1));
    host.feed(&octets);
    assert_eq!(
        client.read(&host),
        Frame::RstStream(RstStreamFrame { stream_id: 1, status: RstStatus::ProtocolError })
    );
}

#[test]
fn received_payload_is_read_in_order_and_then_the_end() {
    let (mut host, mut client) = make_test_connection();
    let mut octets = client.write(&syn_stream(1));
    octets.extend(client.write(&data(1, 0, b"one")));
    octets.extend(client.write(&data(1, DATA_FLAG_FIN, b"two")));
    host.feed(&octets);
    let stream = host.started[0].clone();
    assert!(stream.borrow().is_remote_closed());
    assert_eq!(stream.borrow_mut().read_data(), ReadStep::Data(Bytes::from_static(b"one")));
    assert_eq!(stream.borrow_mut().read_data(), ReadStep::Data(Bytes::from_static(b"two")));
    assert_eq!(stream.borrow_mut().read_data(), ReadStep::Eof);
}

#[test]
fn the_peer_window_size_is_kept() {
    let (mut host, mut client) = make_test_connection();
    assert_eq!(host.conn.initial_window_size(), 65536);
    let octets = client.write(&Frame::Settings(SettingsFrame {
        settings: vec![
            Setting { id: SETTINGS_INITIAL_WINDOW_SIZE, flags: 0, value: 1 },
            Setting { id: SETTINGS_INITIAL_WINDOW_SIZE, flags: 0, value: 1000 },
            Setting { id: 5, flags: 0, value: 7 },
        ],
        flags: 0,
    }));
    host.feed(&octets);
    assert_eq!(host.conn.initial_window_size(), 1000);
    let octets = client.write(&Frame::Settings(SettingsFrame { settings: vec![], flags: 0 }));
    host.feed(&octets);
    assert_eq!(host.conn.initial_window_size(), 1000);
}

#[test]
fn the_end_of_input_closes_every_stream() {
    let (mut host, mut client) = make_test_connection();
    for id in [1u32, 3, 9] {
        let octets = client.write(&syn_stream(id));
        host.feed(&octets);
    }
    assert_eq!(host.started[0].borrow_mut().read_data(), ReadStep::Await);
    let mut ids = host.conn.end_of_input();
    ids.sort();
    assert_eq!(ids, vec![1, 3, 9]);
    assert!(host.conn.wait_closed());
    assert!(!host.conn.is_gone_away());

    let (mut host, mut client) = make_test_connection();
    let octets = client.write(&syn_stream(1));
    host.feed(&octets);
    let octets = client.write(&Frame::GoAway(GoAwayFrame {
        last_good_stream_id: 1,
        status: GoAwayStatus::InternalError,
    }));
    host.feed(&octets);
    assert_eq!(host.started[0].borrow_mut().read_data(), ReadStep::Eof);
}

#[test]
fn pings_end_in_four_ways() {
    assert_eq!(ping_finished(PingOutcome::Echoed), Ok(()));
    assert_eq!(ping_finished(PingOutcome::NotSent), Err(Error::ConnectionClosed));
    assert_eq!(ping_finished(PingOutcome::Abandoned), Err(Error::ConnectionClosed));
    assert_eq!(
        ping_finished(PingOutcome::TimedOut),
        Err(Error::Protocol("ping timeout".to_string()))
    );
}

#[test]
fn streams_are_spread_over_the_workers() {
    assert_eq!(worker_index(1), 1);
    assert_eq!(worker_index(5), 0);
    assert_eq!(worker_index(7), 2);
    assert_eq!(worker_index(0x7fff_ffff), 2);
}

#[test]
fn a_new_connection_is_empty() {
    let conn: Connection<Handle, u32> = Connection::new();
    assert_eq!(conn.stream_count(), 0);
    assert!(conn.is_drained());
    assert!(!conn.is_gone_away());
    assert!(!conn.wait_closed());
}

#[test]
fn an_opened_stream_carries_its_headers_and_priority() {
    let (mut host, mut client) = make_test_connection();
    let mut headers = HeaderMap::new();
    headers.insert(http::header::HOST, "example.com".parse().unwrap());
    let octets = client.write(&Frame::SynStream(SynStreamFrame {
        stream_id: 11,
        associated_stream_id: 0,
        priority: 6,
        headers: headers.clone(),
        flags: 0,
    }));
    host.feed(&octets);
    let stream = host.started[0].borrow();
    assert_eq!(stream.stream_id, 11);
    assert_eq!(stream.priority, 6);
    assert_eq!(stream.headers, headers);
}

#[test]
fn a_finished_stream_has_drained() {
    let (mut host, mut client) = make_test_connection();
    let mut octets = client.write(&syn_stream(1));
    octets.extend(client.write(&data(1, DATA_FLAG_FIN, b"last")));
    host.feed(&octets);
    let stream = host.started[0].clone();
    host.reply(&stream, HeaderMap::new(), false);
    assert_eq!(host.conn.stream_count(), 1);
    host.write(&stream, b"bye", true);
    assert_eq!(host.conn.stream_count(), 0);
    assert!(host.conn.close().is_some());
    assert!(host.conn.is_drained());
    assert_eq!(stream.borrow_mut().read_data(), ReadStep::Data(Bytes::from_static(b"last")));
    assert_eq!(stream.borrow_mut().read_data(), ReadStep::Eof);
}

#[test]
fn the_remote_fin_may_come_last() {
    let (mut host, mut client) = make_test_connection();
    let octets = client.write(&syn_stream(1));
    host.feed(&octets);
    let stream = host.started[0].clone();
    host.reply(&stream, HeaderMap::new(), true);
    assert_eq!(host.conn.stream_count(), 1);
    let octets = client.write(&data(1, DATA_FLAG_FIN, b""));
    host.feed(&octets);
    assert_eq!(host.conn.stream_count(), 0);
    assert!(host.conn.is_drained());
}

#[test]
fn a_fin_on_the_opening_frame_closes_the_remote_side() {
    let (mut host, mut client) = make_test_connection();
    let octets = client.write(&Frame::SynStream(SynStreamFrame {
        stream_id: 1,
        associated_stream_id: 0,
        priority: 0,
        headers: HeaderMap::new(),
        flags: FLAG_FIN,
    }));
    host.feed(&octets);
    let stream = host.started[0].clone();
    assert!(stream.borrow().is_remote_closed());
    assert_eq!(stream.borrow_mut().read_data(), ReadStep::Eof);
    assert_eq!(host.conn.stream_count(), 1);
    host.reply(&stream, HeaderMap::new(), true);
    assert_eq!(host.conn.stream_count(), 0);
}

#[test]
fn a_reply_of_the_peer_does_not_unblock_writes() {
    let (mut host, mut client) = make_test_connection();
    let mut octets = client.write(&syn_stream(1));
    octets.extend(client.write(&Frame::SynReply(SynReplyFrame {
        stream_id: 1,
        headers: HeaderMap::new(),
        flags: 0,
    })));
    host.feed(&octets);
    let early = Bytes::from_static(b"early");
    assert_eq!(
        host.started[0].borrow().write_data(early.clone(), false),
        Ok(WriteStep::AwaitReply(early))
    );
}

#[test]
fn a_failed_write_closes_the_connection() {
    let (mut host, _client) = make_test_connection();
    assert!(!host.conn.wait_closed());
    host.conn.write_failed();
    assert!(host.conn.wait_closed());
    assert!(!host.conn.is_gone_away());
}
