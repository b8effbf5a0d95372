use bytes::Bytes;
use http::header;
use http::{HeaderMap, HeaderName, HeaderValue};
use spdystream::codec::{
    data_frame, headers_frame, parse_frame_header, parse_plain_control_frame, syn_reply_frame,
    syn_stream_frame, write_control_frame, write_data_frame, write_goaway, write_headers,
    write_ping, write_rst_stream, write_settings, write_syn_reply, write_syn_stream,
    write_window_update, FrameHeader, TYPE_GOAWAY, TYPE_HEADERS, TYPE_PING, TYPE_RST_STREAM,
    TYPE_SETTINGS, TYPE_SYN_REPLY, TYPE_SYN_STREAM, TYPE_WINDOW_UPDATE,
};
use spdystream::dictionary::SPDY_DICT;
use spdystream::error::{IoError, IoErrorKind};
use spdystream::frame::{
    DataFrame, GoAwayFrame, HeadersFrame, PingFrame, RstStreamFrame, Setting, SettingsFrame,
    SynReplyFrame, SynStreamFrame, WindowUpdateFrame, DATA_FLAG_FIN, FLAG_FIN,
};
use spdystream::framer::header_error;
use spdystream::header_block::{encode_headers, parse_header_block};
use spdystream::{Error, Frame, Framer, GoAwayStatus, RstStatus};

fn protocol_error(text: &str) -> Error {
    Error::Protocol(text.to_string())
}

fn read(framer: &mut Framer, octets: &[u8]) -> Result<Frame, Error> {
    let header = parse_frame_header(&octets[..8])?;
    assert_eq!(header.length() as usize, octets.len() - 8);
    framer.parse_frame(header, octets[8..].to_vec())
}

fn round_trip(frame: Frame) {
    let mut encoder = Framer::new();
    let mut decoder = Framer::new();
    let octets = encoder.write_frame(&frame).unwrap();
    let decoded = read(&mut decoder, &octets).unwrap();
    assert_eq!(frame, decoded);
}

#[test]
fn test_round_trip_syn_stream() {
    let mut headers = HeaderMap::new();
    headers.insert(header::HOST, "example.com".parse().unwrap());
    headers.insert(header::ACCEPT, "text/html".parse().unwrap());
    headers.insert(header::CONTENT_TYPE, "application/json".parse().unwrap());
    round_trip(Frame::SynStream(SynStreamFrame {
        stream_id: 1,
        associated_stream_id: 0,
        priority: 3,
        headers,
        flags: FLAG_FIN,
    }));
}

#[test]
fn test_round_trip_syn_reply() {
    let mut headers = HeaderMap::new();
    headers.insert(header::CONTENT_TYPE, "text/html".parse().unwrap());
    headers.insert(header::CONTENT_LENGTH, "42".parse().unwrap());
    round_trip(Frame::SynReply(SynReplyFrame { stream_id: 1, headers, flags: 0 }));
}

#[test]
fn test_round_trip_data() {
    round_trip(Frame::Data(DataFrame {
        stream_id: 1,
        flags: DATA_FLAG_FIN,
        data: Bytes::from("Hello, world!"),
    }));
}

#[test]
fn test_round_trip_goaway() {
    round_trip(Frame::GoAway(GoAwayFrame { last_good_stream_id: 42, status: GoAwayStatus::Okay }));
}

#[test]
fn test_round_trip_rst_stream() {
    round_trip(Frame::RstStream(RstStreamFrame { stream_id: 3, status: RstStatus::Cancel }));
}

#[test]
fn test_round_trip_ping() {
    round_trip(Frame::Ping(PingFrame { id: 1 }));
}

#[test]
fn test_round_trip_window_update() {
    round_trip(Frame::WindowUpdate(WindowUpdateFrame { stream_id: 5, delta: 65536 }));
}

#[test]
fn test_multi_frame_header_compression() {
    let mut encoder = Framer::new();
    let mut decoder = Framer::new();

    let mut headers1 = HeaderMap::new();
    headers1.insert(header::HOST, "example.com".parse().unwrap());
    headers1.insert(header::ACCEPT, "text/html".parse().unwrap());
    let mut headers2 = HeaderMap::new();
    headers2.insert(header::HOST, "example.com".parse().unwrap());
    headers2.insert(header::CONTENT_TYPE, "application/json".parse().unwrap());

    let frame1 = Frame::SynStream(SynStreamFrame {
        stream_id: 1,
        associated_stream_id: 0,
        priority: 0,
        headers: headers1,
        flags: 0,
    });
    let frame2 = Frame::SynStream(SynStreamFrame {
        stream_id: 3,
        associated_stream_id: 0,
        priority: 0,
        headers: headers2,
        flags: 0,
    });

    let octets1 = encoder.write_frame(&frame1).unwrap();
    let octets2 = encoder.write_frame(&frame2).unwrap();
    assert_eq!(read(&mut decoder, &octets1).unwrap(), frame1);
    assert_eq!(read(&mut decoder, &octets2).unwrap(), frame2);
}

#[test]
fn test_large_data_frame() {
    round_trip(Frame::Data(DataFrame {
        stream_id: 1,
        flags: 0,
        data: Bytes::from(vec![0xABu8; 128 * 1024]),
    }));
}

#[test]
fn headers_and_settings_round_trip() {
    let mut headers = HeaderMap::new();
    headers.append(header::SET_COOKIE, "a=1".parse().unwrap());
    headers.append(header::SET_COOKIE, "b=2".parse().unwrap());
    headers.append(header::SET_COOKIE, "".parse().unwrap());
    headers.append(header::VARY, HeaderValue::from_bytes(b"caf\xc3\xa9\t!").unwrap());
    round_trip(Frame::Headers(HeadersFrame { stream_id: 0x7fff_ffff, headers, flags: 0xff }));
    round_trip(Frame::Settings(SettingsFrame {
        settings: vec![
            Setting { id: 4, flags: 0, value: 100 },
            Setting { id: 0xff_ffff, flags: 0xfe, value: 0xffff_ffff },
        ],
        flags: 1,
    }));
    round_trip(Frame::Settings(SettingsFrame { settings: vec![], flags: 0 }));
}

#[test]
fn every_reset_status_round_trips() {
    for code in 1..=11u32 {
        let status = RstStatus::try_from(code).unwrap();
        assert_eq!(status.code(), code);
        round_trip(Frame::RstStream(RstStreamFrame { stream_id: 1, status }));
    }
    assert_eq!(RstStatus::try_from(0), Err(0));
    assert_eq!(RstStatus::try_from(12), Err(12));
}

#[test]
fn unknown_goaway_statuses_count_as_okay() {
    assert_eq!(GoAwayStatus::try_from(0), Ok(GoAwayStatus::Okay));
    assert_eq!(GoAwayStatus::try_from(1), Ok(GoAwayStatus::ProtocolError));
    assert_eq!(GoAwayStatus::try_from(2), Ok(GoAwayStatus::InternalError));
    assert_eq!(GoAwayStatus::try_from(11), Ok(GoAwayStatus::Okay));
    for status in [GoAwayStatus::Okay, GoAwayStatus::ProtocolError, GoAwayStatus::InternalError] {
        assert_eq!(GoAwayStatus::try_from(status.code()), Ok(status));
    }
}

#[test]
fn control_frames_have_these_octets() {
    assert_eq!(write_control_frame(6, 0, &[9]), vec![0x80, 3, 0, 6, 0, 0, 0, 1, 9]);
    assert_eq!(
        write_ping(&PingFrame { id: 0x0102_0304 }),
        vec![0x80, 3, 0, 6, 0, 0, 0, 4, 1, 2, 3, 4]
    );
    assert_eq!(
        write_rst_stream(&RstStreamFrame { stream_id: 0x8000_0003, status: RstStatus::Cancel }),
        vec![0x80, 3, 0, 3, 0, 0, 0, 8, 0, 0, 0, 3, 0, 0, 0, 5]
    );
    assert_eq!(
        write_goaway(&GoAwayFrame {
            last_good_stream_id: 42,
            status: GoAwayStatus::InternalError,
        }),
        vec![0x80, 3, 0, 7, 0, 0, 0, 8, 0, 0, 0, 42, 0, 0, 0, 2]
    );
    assert_eq!(
        write_window_update(&WindowUpdateFrame { stream_id: 5, delta: 0xffff_ffff }),
        vec![0x80, 3, 0, 9, 0, 0, 0, 8, 0, 0, 0, 5, 0x7f, 0xff, 0xff, 0xff]
    );
    assert_eq!(
        write_settings(&SettingsFrame {
            settings: vec![Setting { id: 0x0a00_0004, flags: 2, value: 100 }],
            flags: 1,
        }),
        vec![0x80, 3, 0, 4, 1, 0, 0, 12, 0, 0, 0, 1, 2, 0, 0, 4, 0, 0, 0, 100]
    );
    let headers = HeaderMap::new();
    assert_eq!(
        write_syn_stream(
            &SynStreamFrame {
                stream_id: 1,
                associated_stream_id: 2,
                priority: 11,
                headers: headers.clone(),
                flags: 1,
            },
            b"zz",
        ),
        vec![0x80, 3, 0, 1, 1, 0, 0, 12, 0, 0, 0, 1, 0, 0, 0, 2, 0x60, 0, b'z', b'z']
    );
    assert_eq!(
        write_syn_reply(
            &SynReplyFrame { stream_id: 1, headers: headers.clone(), flags: 1 },
            b"z"
        ),
        vec![0x80, 3, 0, 2, 1, 0, 0, 5, 0, 0, 0, 1, b'z']
    );
    assert_eq!(
        write_headers(&HeadersFrame { stream_id: 1, headers, flags: 0 }, b"z"),
        vec![0x80, 3, 0, 8, 0, 0, 0, 5, 0, 0, 0, 1, b'z']
    );
}

#[test]
fn data_frames_have_these_octets() {
    assert_eq!(
        write_data_frame(&DataFrame {
            stream_id: 0x8000_0102,
            flags: 1,
            data: Bytes::from_static(b"ab"),
        }),
        vec![0, 0, 1, 2, 1, 0, 0, 2, b'a', b'b']
    );
    assert_eq!(
        data_frame(7, 1, vec![1, 2]),
        Frame::Data(DataFrame { stream_id: 7, flags: 1, data: Bytes::from_static(&[1, 2]) })
    );
}

#[test]
fn frame_headers_are_read() {
    assert_eq!(
        parse_frame_header(&[0x80, 3, 0, 9, 5, 1, 2, 3]),
        Ok(FrameHeader::Control { frame_type: 9, flags: 5, length: 0x1_0203 })
    );
    assert_eq!(
        parse_frame_header(&[0x7f, 0xff, 0xff, 0xff, 1, 0, 0, 4]),
        Ok(FrameHeader::Data { stream_id: 0x7fff_ffff, flags: 1, length: 4 })
    );
    assert_eq!(
        parse_frame_header(&[0x80, 2, 0, 9, 5, 1, 2, 3]),
        Err(protocol_error("unsupported SPDY version: 2"))
    );
    assert_eq!(
        parse_frame_header(&[0xff, 0xff, 0, 9, 5, 1, 2, 3]),
        Err(protocol_error("unsupported SPDY version: 32767"))
    );
}

#[test]
fn short_frames_are_refused() {
    let mut framer = Framer::new();
    let cases: Vec<(u16, usize, &str)> = vec![
        (TYPE_SYN_STREAM, 10, "SynStream too short"),
        (TYPE_SYN_REPLY, 4, "SynReply too short"),
        (TYPE_RST_STREAM, 8, "RstStream too short"),
        (TYPE_SETTINGS, 4, "Settings too short"),
        (TYPE_PING, 4, "Ping too short"),
        (TYPE_GOAWAY, 8, "GoAway too short"),
        (TYPE_HEADERS, 4, "Headers frame too short"),
        (TYPE_WINDOW_UPDATE, 8, "WindowUpdate too short"),
    ];
    for (frame_type, least, text) in cases {
        let payload = vec![0u8; least - 1];
        assert_eq!(
            framer.parse_control_frame(frame_type, 0, &payload),
            Err(protocol_error(text))
        );
    }
}

#[test]
fn faulty_control_frames_are_refused() {
    assert_eq!(
        parse_plain_control_frame(TYPE_SETTINGS, 0, &[0, 0, 0, 1, 0, 0, 0]),
        Err(protocol_error("Settings payload truncated"))
    );
    assert_eq!(
        parse_plain_control_frame(TYPE_SETTINGS, 0, &[0xff, 0xff, 0xff, 0xff]),
        Err(protocol_error("Settings payload truncated"))
    );
    assert_eq!(
        parse_plain_control_frame(TYPE_RST_STREAM, 0, &[0, 0, 0, 1, 0, 0, 0, 12]),
        Err(protocol_error("unknown RST_STREAM status: 12"))
    );
    assert_eq!(parse_plain_control_frame(5, 0, &[]), Err(Error::UnknownFrameType(5)));
    let mut framer = Framer::new();
    assert_eq!(framer.parse_control_frame(999, 0, &[]), Err(Error::UnknownFrameType(999)));
}

#[test]
fn frames_are_assembled_from_payload_and_fields() {
    let mut headers = HeaderMap::new();
    headers.insert(header::HOST, "h".parse().unwrap());
    assert_eq!(
        syn_stream_frame(1, &[0x80, 0, 0, 1, 0x80, 0, 0, 2, 0xff, 9], headers.clone()),
        Frame::SynStream(SynStreamFrame {
            stream_id: 1,
            associated_stream_id: 2,
            priority: 7,
            headers: headers.clone(),
            flags: 1,
        })
    );
    assert_eq!(
        syn_reply_frame(1, &[0x80, 0, 0, 1], headers.clone()),
        Frame::SynReply(SynReplyFrame { stream_id: 1, headers: headers.clone(), flags: 1 })
    );
    assert_eq!(
        headers_frame(0, &[0x80, 0, 0, 1], headers.clone()),
        Frame::Headers(HeadersFrame { stream_id: 1, headers, flags: 0 })
    );
}

#[test]
fn blocks_list_names_in_order_and_join_values() {
    let mut headers = HeaderMap::new();
    headers.append(HeaderName::from_static("b"), "2".parse().unwrap());
    headers.append(HeaderName::from_static("ab"), "x".parse().unwrap());
    headers.append(HeaderName::from_static("a"), "1".parse().unwrap());
    headers.append(HeaderName::from_static("b"), "3".parse().unwrap());
    let raw = encode_headers(&headers);
    let mut expected: Vec<u8> = vec![0, 0, 0, 3];
    expected.extend_from_slice(b"\0\0\0\x01a\0\0\0\x011");
    expected.extend_from_slice(b"\0\0\0\x02ab\0\0\0\x01x");
    expected.extend_from_slice(b"\0\0\0\x01b\0\0\0\x032\x003");
    assert_eq!(raw, expected);
    assert_eq!(parse_header_block(&raw).unwrap(), headers);
    assert_eq!(encode_headers(&HeaderMap::new()), vec![0, 0, 0, 0]);
}

#[test]
fn faulty_blocks_are_refused() {
    let cases: Vec<(&[u8], &str)> = vec![
        (b"\0\0\0", "header block too short"),
        (b"\0\0\0\x01\0\0\0", "header name length truncated"),
        (b"\0\0\0\x01\0\0\0\x02a", "header name truncated"),
        (b"\0\0\0\x01\xff\xff\xff\xffa", "header name truncated"),
        (b"\0\0\0\x01\0\0\0\x01a\0\0\0", "header value length truncated"),
        (b"\0\0\0\x01\0\0\0\x01a\0\0\0\x02b", "header value truncated"),
        (
            b"\0\0\0\x01\0\0\0\x01 \0\0\0\x01b",
            "invalid header name: invalid HTTP header name",
        ),
        (b"\0\0\0\x01\0\0\0\0\0\0\0\x01b", "invalid header name: invalid HTTP header name"),
        (
            b"\0\0\0\x01\0\0\0\x01a\0\0\0\x03b\0\x07",
            "invalid header value: failed to parse header value",
        ),
    ];
    for (raw, text) in cases {
        assert_eq!(parse_header_block(raw).unwrap_err(), protocol_error(text));
    }
}

#[test]
fn blocks_may_repeat_names_and_trail_octets() {
    let headers = parse_header_block(
        b"\0\0\0\x02\0\0\0\x01A\0\0\0\x03x\0y\0\0\0\x01a\0\0\0\x01ztrailing",
    )
    .unwrap();
    let values: Vec<&[u8]> = headers.get_all("a").iter().map(|v| v.as_bytes()).collect();
    assert_eq!(values, vec![b"x" as &[u8], b"y", b"z"]);
    assert_eq!(headers.keys_len(), 1);
}

#[test]
fn headers_survive_many_frames() {
    let mut encoder = Framer::new();
    let mut decoder = Framer::new();
    for i in 0..200u32 {
        let mut headers = HeaderMap::new();
        for j in 0..(i % 7) {
            let name = HeaderName::from_bytes(format!("x-{j}-{i}").as_bytes()).unwrap();
            headers.append(name, HeaderValue::from_str(&format!("value {}", i * j)).unwrap());
        }
        let compressed = encoder.compress_headers(&headers).unwrap();
        assert_ne!(compressed, encode_headers(&headers));
        assert_eq!(decoder.decompress_headers(&compressed).unwrap(), headers);
    }
}

#[test]
fn compressed_streams_start_with_the_dictionary_id() {
    let mut encoder = Framer::new();
    let compressed = encoder.compress_headers(&HeaderMap::new()).unwrap();
    assert_eq!(&compressed[2..6], &[0xe3, 0xc6, 0xa7, 0xc2]);
    assert_eq!(SPDY_DICT.len(), 1423);
    assert_eq!(&SPDY_DICT[..11], b"\0\0\0\x07options");
}

#[test]
fn corrupt_blocks_are_compression_errors() {
    let mut decoder = Framer::new();
    let r = decoder.decompress_headers(b"this is no zlib stream");
    assert!(matches!(r, Err(Error::Compression(_))), "{r:?}");

    let mut encoder = Framer::new();
    let mut compressed = encoder.compress_headers(&HeaderMap::new()).unwrap();
    compressed[3] = 0;
    let mut decoder = Framer::new();
    let r = decoder.decompress_headers(&compressed);
    assert!(matches!(r, Err(Error::Compression(_))), "{r:?}");
}

#[test]
fn an_empty_block_is_too_short() {
    let mut decoder = Framer::new();
    assert_eq!(
        decoder.decompress_headers(&[]).unwrap_err(),
        protocol_error("header block too short")
    );
}

#[test]
fn blocks_that_expand_too_far_are_cut_off() {
    let mut headers = HeaderMap::new();
    headers.insert(header::COOKIE, HeaderValue::from_str(&"a".repeat(100_000)).unwrap());
    let mut encoder = Framer::new();
    let compressed = encoder.compress_headers(&headers).unwrap();
    assert!(compressed.len() < 1000);
    let mut decoder = Framer::new();
    assert_eq!(
        decoder.decompress_headers(&compressed).unwrap_err(),
        protocol_error("header value truncated")
    );
}

#[test]
fn the_end_of_the_transport_closes_the_connection() {
    let eof = IoError { kind: IoErrorKind::UnexpectedEof, message: "early eof".to_string() };
    assert_eq!(header_error(eof), Error::ConnectionClosed);
    let other = IoError { kind: IoErrorKind::Other, message: "oops".to_string() };
    assert_eq!(
        header_error(other),
        Error::Io(IoError { kind: IoErrorKind::Other, message: "oops".to_string() })
    );
}

#[test]
fn errors_describe_themselves() {
    let io = IoError { kind: IoErrorKind::Other, message: "oops".to_string() };
    assert_eq!(Error::Io(io).message(), "I/O error: oops");
    assert_eq!(protocol_error("p").message(), "protocol error: p");
    assert_eq!(Error::Compression("c".to_string()).message(), "compression error: c");
    assert_eq!(Error::UnknownFrameType(65535).message(), "unknown frame type: 65535");
    assert_eq!(Error::UnknownFrameType(0).message(), "unknown frame type: 0");
    assert_eq!(Error::StreamClosed.message(), "stream closed");
    assert_eq!(Error::ConnectionClosed.message(), "connection closed");
}

#[test]
fn clones_hold_the_same_values() {
    let mut headers = HeaderMap::new();
    headers.append(header::SET_COOKIE, "a=1".parse().unwrap());
    headers.append(header::SET_COOKIE, "b=2".parse().unwrap());
    let frames = vec![
        Frame::SynStream(SynStreamFrame {
            stream_id: 1,
            associated_stream_id: 2,
            priority: 3,
            headers: headers.clone(),
            flags: 4,
        }),
        Frame::SynReply(SynReplyFrame { stream_id: 1, headers: headers.clone(), flags: 4 }),
        Frame::RstStream(RstStreamFrame { stream_id: 1, status: RstStatus::FrameTooLarge }),
        Frame::Settings(SettingsFrame {
            settings: vec![Setting { id: 1, flags: 2, value: 3 }],
            flags: 4,
        }),
        Frame::Ping(PingFrame { id: 1 }),
        Frame::GoAway(GoAwayFrame {
            last_good_stream_id: 1,
            status: GoAwayStatus::ProtocolError,
        }),
        Frame::Headers(HeadersFrame { stream_id: 1, headers, flags: 4 }),
        Frame::WindowUpdate(WindowUpdateFrame { stream_id: 1, delta: 2 }),
        Frame::Data(DataFrame { stream_id: 1, flags: 2, data: Bytes::from_static(b"x") }),
    ];
    for frame in frames {
        assert_eq!(frame.clone(), frame);
    }
}

fn block_of_names(count: u32) -> Vec<u8> {
    let mut raw = count.to_be_bytes().to_vec();
    for i in 0..count {
        let name = format!("n{i}");
        raw.extend_from_slice(&(name.len() as u32).to_be_bytes());
        raw.extend_from_slice(name.as_bytes());
        raw.extend_from_slice(b"\0\0\0\x01v");
    }
    raw
}

#[test]
fn blocks_hold_only_so_many_names() {
    assert_eq!(parse_header_block(&block_of_names(6554)).unwrap().keys_len(), 6554);
    assert_eq!(
        parse_header_block(&block_of_names(30_000)).unwrap_err(),
        protocol_error("too many header names")
    );
    let mut announced = block_of_names(3);
    announced[..4].copy_from_slice(&30_000u32.to_be_bytes());
    assert_eq!(
        parse_header_block(&announced).unwrap_err(),
        protocol_error("header name length truncated")
    );
}

#[test]
fn a_name_with_a_quotation_mark_is_written_but_not_read() {
    let mut headers = HeaderMap::new();
    headers.insert(HeaderName::from_static("a\"b"), "1".parse().unwrap());
    let raw = encode_headers(&headers);
    assert_eq!(raw, b"\0\0\0\x01\0\0\0\x03a\"b\0\0\0\x011");
    assert_eq!(
        parse_header_block(&raw).unwrap_err(),
        protocol_error("invalid header name: invalid HTTP header name")
    );
}

#[test]
fn a_stream_that_breaks_off_into_nonsense_is_refused() {
    let mut encoder = Framer::new();
    let mut decoder = Framer::new();
    let headers = HeaderMap::new();
    let first = encoder.compress_headers(&headers).unwrap();
    assert_eq!(decoder.decompress_headers(&first).unwrap(), headers);
    let r = decoder.decompress_headers(&[0xff; 40]);
    assert!(matches!(r, Err(Error::Compression(_))), "{r:?}");
    let second = encoder.compress_headers(&headers).unwrap();
    let r = decoder.decompress_headers(&second);
    assert!(matches!(r, Err(Error::Compression(_))), "{r:?}");
}

/// A zlib stream that calls for no dictionary, with `raw` in a stored block.
fn plain_stream(raw: &[u8]) -> Vec<u8> {
    let n = raw.len() as u16;
    let mut z = vec![0x78, 0x01, 0x00];
    z.extend_from_slice(&n.to_le_bytes());
    z.extend_from_slice(&(!n).to_le_bytes());
    z.extend_from_slice(raw);
    z
}

#[test]
fn streams_without_a_dictionary_are_expanded() {
    let mut headers = HeaderMap::new();
    headers.insert(header::HOST, "example.com".parse().unwrap());
    let mut decoder = Framer::new();
    let z = plain_stream(&encode_headers(&headers));
    assert_eq!(decoder.decompress_headers(&z).unwrap(), headers);
    assert_eq!(decoder.decompress_headers(&z[2..]).unwrap(), headers);
}

#[test]
fn streams_that_call_for_another_dictionary_are_refused() {
    let mut decoder = Framer::new();
    let r = decoder.decompress_headers(&[0x78, 0x20, 0, 0, 0, 1]);
    assert!(matches!(r, Err(Error::Compression(_))), "{r:?}");
    let r = decoder.decompress_headers(&[0, 0, 0, 0xff, 0xff]);
    assert!(matches!(r, Err(Error::Compression(_))), "{r:?}");
}
