use bytes::Bytes;
use http::HeaderMap;
use spdystream::error::{IoError, IoErrorKind};
use spdystream::frame::{
    DataFrame, HeadersFrame, PingFrame, RstStreamFrame, SynReplyFrame, DATA_FLAG_FIN, FLAG_FIN,
};
use spdystream::stream::{
    frame_sent, write_polled, Progress, ReadStep, SendOutcome, ShutdownStep, WorkerStep, WriteStep,
    RECEIVE_CAPACITY,
};
use spdystream::{Error, Frame, RstStatus, Stream};

fn stream() -> Stream {
    Stream::new(1, HeaderMap::new(), 0)
}

fn replied() -> Stream {
    let mut s = stream();
    s.reply_sent(false, true).unwrap();
    s
}

fn data(flags: u8, octets: &'static [u8]) -> Frame {
    Frame::Data(DataFrame { stream_id: 1, flags, data: Bytes::from_static(octets) })
}

fn broken_pipe() -> Error {
    Error::Io(IoError {
        kind: IoErrorKind::BrokenPipe,
        message: "connection closed".to_string(),
    })
}

#[test]
fn test_partial_read() {
    let mut s = stream();
    s.push_data(Bytes::from(vec![0xABu8; 1000]));
    s.close_remote();
    let mut collected = Vec::new();
    loop {
        match s.read_data() {
            ReadStep::Data(chunk) => collected.extend_from_slice(&chunk),
            _ => break,
        }
    }
    assert_eq!(collected.len(), 1000, "expected 1000 bytes, got {}", collected.len());
    assert!(collected.iter().all(|&b| b == 0xAB));
}

#[test]
fn chunks_of_one_hundred_octets_reassemble_a_payload() {
    let mut s = stream();
    let octets: Vec<u8> = (0..1000u32).map(|i| (i % 251) as u8).collect();
    s.push_data(Bytes::from(octets.clone()));
    s.close_remote();
    let mut collected = Vec::new();
    for _ in 0..10 {
        match s.poll_read(100) {
            Progress::Ready(chunk) => {
                assert_eq!(chunk.len(), 100);
                collected.extend_from_slice(&chunk);
            }
            Progress::Pending => panic!("there is more to read"),
        }
    }
    assert_eq!(collected, octets);
    assert_eq!(s.poll_read(100), Progress::Ready(Bytes::new()));
}

#[test]
fn octet_reads_take_what_is_left_over_first() {
    let mut s = stream();
    assert_eq!(s.poll_read(4), Progress::Pending);
    s.push_data(Bytes::from_static(b"abcdef"));
    s.push_data(Bytes::new());
    s.push_data(Bytes::from_static(b"gh"));
    assert_eq!(s.poll_read(4), Progress::Ready(Bytes::from_static(b"abcd")));
    assert_eq!(s.poll_read(0), Progress::Ready(Bytes::new()));
    assert_eq!(s.poll_read(4), Progress::Ready(Bytes::from_static(b"ef")));
    assert_eq!(s.poll_read(4), Progress::Ready(Bytes::new()));
    assert_eq!(s.poll_read(0), Progress::Ready(Bytes::new()));
    assert_eq!(s.poll_read(9), Progress::Ready(Bytes::from_static(b"gh")));
    assert_eq!(s.poll_read(9), Progress::Pending);
    s.close_remote();
    assert_eq!(s.poll_read(9), Progress::Ready(Bytes::new()));
}

#[test]
fn payload_reads_leave_the_left_over_alone() {
    let mut s = stream();
    s.push_data(Bytes::from_static(b"abc"));
    s.push_data(Bytes::from_static(b"def"));
    assert_eq!(s.poll_read(1), Progress::Ready(Bytes::from_static(b"a")));
    assert_eq!(s.read_data(), ReadStep::Data(Bytes::from_static(b"def")));
    assert_eq!(s.read_data(), ReadStep::Await);
    assert_eq!(s.poll_read(5), Progress::Ready(Bytes::from_static(b"bc")));
}

#[test]
fn a_full_stream_drops_payload() {
    let mut s = stream();
    for i in 0..RECEIVE_CAPACITY + 3 {
        s.push_data(Bytes::from(vec![i as u8]));
    }
    for i in 0..RECEIVE_CAPACITY {
        assert_eq!(s.read_data(), ReadStep::Data(Bytes::from(vec![i as u8])));
    }
    assert_eq!(s.read_data(), ReadStep::Await);
    assert_eq!(RECEIVE_CAPACITY, 64);
}

#[test]
fn payload_comes_before_the_end() {
    let mut s = stream();
    s.close_remote();
    s.push_data(Bytes::from_static(b"late"));
    assert!(s.is_remote_closed());
    assert_eq!(s.read_data(), ReadStep::Data(Bytes::from_static(b"late")));
    assert_eq!(s.read_data(), ReadStep::Eof);
}

#[test]
fn replies_carry_headers_and_fin() {
    let mut headers = HeaderMap::new();
    headers.insert(http::header::HOST, "h".parse().unwrap());
    let s = stream();
    assert_eq!(
        s.send_reply(headers.clone(), true),
        Frame::SynReply(SynReplyFrame { stream_id: 1, headers, flags: FLAG_FIN })
    );
    assert_eq!(
        s.send_reply(HeaderMap::new(), false),
        Frame::SynReply(SynReplyFrame { stream_id: 1, headers: HeaderMap::new(), flags: 0 })
    );
}

#[test]
fn a_reply_that_was_not_sent_changes_nothing() {
    let mut s = stream();
    assert_eq!(s.reply_sent(true, false), Err(Error::ConnectionClosed));
    assert!(!s.is_local_fin_sent());
    let payload = Bytes::from_static(b"x");
    assert_eq!(s.write_data(payload.clone(), false), Ok(WriteStep::AwaitReply(payload.clone())));
    assert_eq!(s.reply_sent(true, true), Ok(()));
    assert!(s.is_local_fin_sent());
    assert_eq!(s.write_data(payload, false), Err(Error::StreamClosed));
}

#[test]
fn nothing_is_written_after_a_fin() {
    let mut s = replied();
    assert_eq!(
        s.write_data(Bytes::from_static(b"a"), false),
        Ok(WriteStep::Send(data(0, b"a")))
    );
    assert_eq!(s.data_sent(false, true), Ok(()));
    assert!(!s.is_local_fin_sent());
    assert_eq!(
        s.write_data(Bytes::from_static(b"b"), true),
        Ok(WriteStep::Send(data(DATA_FLAG_FIN, b"b")))
    );
    assert_eq!(s.data_sent(true, true), Ok(()));
    assert!(s.is_local_fin_sent());
    assert_eq!(s.write_data(Bytes::new(), false), Err(Error::StreamClosed));
    assert_eq!(s.write_data(Bytes::new(), true), Err(Error::StreamClosed));
    assert_eq!(s.poll_shutdown(), ShutdownStep::Done);
}

#[test]
fn a_reset_names_the_stream() {
    assert_eq!(
        stream().reset(RstStatus::Cancel),
        Frame::RstStream(RstStreamFrame { stream_id: 1, status: RstStatus::Cancel })
    );
}

#[test]
fn octet_writes_report_what_became_of_them() {
    assert_eq!(stream().poll_write(b"abc"), data(0, b"abc"));
    assert_eq!(write_polled(3, SendOutcome::Sent), Progress::Ready(Ok(3)));
    assert_eq!(write_polled(3, SendOutcome::Full), Progress::Pending);
    assert_eq!(write_polled(3, SendOutcome::Closed), Progress::Ready(Err(broken_pipe())));
}

#[test]
fn shutting_down_sends_an_empty_fin() {
    let mut s = stream();
    assert_eq!(s.poll_shutdown(), ShutdownStep::Send(data(DATA_FLAG_FIN, b"")));
    assert_eq!(s.shutdown_polled(SendOutcome::Full), Progress::Pending);
    assert!(!s.is_local_fin_sent());
    assert_eq!(s.shutdown_polled(SendOutcome::Closed), Progress::Ready(Err(broken_pipe())));
    assert!(!s.is_local_fin_sent());
    assert_eq!(s.shutdown_polled(SendOutcome::Sent), Progress::Ready(Ok(())));
    assert!(s.is_local_fin_sent());
    assert_eq!(s.poll_shutdown(), ShutdownStep::Done);
}

#[test]
fn sending_fails_where_the_queue_is_closed() {
    assert_eq!(frame_sent(true), Ok(()));
    assert_eq!(frame_sent(false), Err(Error::ConnectionClosed));
}

#[test]
fn streams_take_frames_in() {
    let mut s = stream();
    assert_eq!(s.take_in(&data(0, b"a")), WorkerStep::Done);
    assert!(!s.is_remote_closed());
    assert_eq!(s.take_in(&data(DATA_FLAG_FIN, b"b")), WorkerStep::Done);
    assert!(s.is_remote_closed());
    assert_eq!(s.read_data(), ReadStep::Data(Bytes::from_static(b"a")));
    assert_eq!(s.read_data(), ReadStep::Data(Bytes::from_static(b"b")));

    let mut s = stream();
    let reply = |flags| {
        Frame::SynReply(SynReplyFrame { stream_id: 1, headers: HeaderMap::new(), flags })
    };
    assert_eq!(s.take_in(&reply(0)), WorkerStep::Done);
    assert!(!s.is_remote_closed());
    let x = Bytes::from_static(b"x");
    assert_eq!(s.write_data(x.clone(), false), Ok(WriteStep::AwaitReply(x)));
    assert_eq!(s.take_in(&reply(FLAG_FIN)), WorkerStep::Done);
    assert!(s.is_remote_closed());

    let mut s = stream();
    let headers = |flags| {
        Frame::Headers(HeadersFrame { stream_id: 1, headers: HeaderMap::new(), flags })
    };
    assert_eq!(s.take_in(&headers(2)), WorkerStep::Done);
    assert!(!s.is_remote_closed());
    assert_eq!(s.take_in(&headers(3)), WorkerStep::Done);
    assert!(s.is_remote_closed());

    let mut s = stream();
    assert_eq!(s.take_in(&Frame::Ping(PingFrame { id: 1 })), WorkerStep::Done);
    assert_eq!(s.take_in(&s.reset(RstStatus::Cancel)), WorkerStep::Forget);
    assert!(s.is_remote_closed());
}

#[test]
fn a_fin_that_was_not_sent_does_not_count() {
    let mut s = replied();
    let x = Bytes::from_static(b"x");
    assert_eq!(s.write_data(x.clone(), true), Ok(WriteStep::Send(data(DATA_FLAG_FIN, b"x"))));
    assert_eq!(s.data_sent(true, false), Err(Error::ConnectionClosed));
    assert!(!s.is_local_fin_sent());
    assert_eq!(s.write_data(x, true), Ok(WriteStep::Send(data(DATA_FLAG_FIN, b"x"))));
}

#[test]
fn streams_finish_when_both_sides_have_closed() {
    let mut s = replied();
    assert_eq!(s.step(), WorkerStep::Done);
    s.data_sent(true, true).unwrap();
    assert_eq!(s.step(), WorkerStep::Done);
    assert_eq!(s.take_in(&data(0, b"a")), WorkerStep::Done);
    assert_eq!(s.take_in(&data(DATA_FLAG_FIN, b"b")), WorkerStep::Forget);
    assert_eq!(s.step(), WorkerStep::Forget);

    let mut s = stream();
    s.close_remote();
    assert_eq!(s.step(), WorkerStep::Done);
    s.reply_sent(true, true).unwrap();
    assert_eq!(s.step(), WorkerStep::Forget);

    let mut s = stream();
    s.close_remote();
    assert_eq!(s.shutdown_polled(SendOutcome::Sent), Progress::Ready(Ok(())));
    assert_eq!(s.step(), WorkerStep::Forget);
}

#[test]
fn arrivals_and_reads_may_alternate() {
    let mut s = stream();
    let mut next_out: u32 = 0;
    for i in 0..500u32 {
        s.push_data(Bytes::from(i.to_be_bytes().to_vec()));
        if i % 8 != 0 {
            let expected = Bytes::from(next_out.to_be_bytes().to_vec());
            assert_eq!(s.read_data(), ReadStep::Data(expected));
            next_out += 1;
        }
    }
    while next_out < 500 {
        let expected = Bytes::from(next_out.to_be_bytes().to_vec());
        assert_eq!(s.read_data(), ReadStep::Data(expected));
        next_out += 1;
    }
    assert_eq!(s.read_data(), ReadStep::Await);
}
