//! Tests for the wire-frame codec: frame delimiting, strict parsing, and
//! byte-exact round trips.

use pixelflut::codec::{
    check, encode, encode_request, parse, parse_line, FrameError, Request, Response,
    StateEncodingAlgorithm, MAX_FRAME_LEN,
};
use pixelflut::color::Color;

#[test]
fn check_reports_incomplete_without_newline() {
    assert_eq!(check(b"PX 10 1"), Err(FrameError::Incomplete));
    assert_eq!(check(b""), Err(FrameError::Incomplete));
}

#[test]
fn check_reports_exact_frame_length() {
    assert_eq!(check(b"SIZE\n"), Ok(5));
    assert_eq!(check(b"SIZE\nPX 1 2\n"), Ok(5));
    assert_eq!(check(b"\nrest"), Ok(1));
}

#[test]
fn check_rejects_overlong_frames() {
    let long = vec![b'A'; MAX_FRAME_LEN];
    assert_eq!(check(&long), Err(FrameError::Malformed));
    let mut delimited_late = vec![b'A'; MAX_FRAME_LEN + 4];
    delimited_late.push(b'\n');
    assert_eq!(check(&delimited_late), Err(FrameError::Malformed));
}

#[test]
fn parse_decodes_every_command() {
    assert_eq!(parse(b"SIZE\n"), Ok(Request::Size));
    assert_eq!(parse(b"HELP\n"), Ok(Request::Help(Vec::new())));
    assert_eq!(parse(b"HELP topic\n"), Ok(Request::Help(b"topic".to_vec())));
    assert_eq!(parse(b"PX 10 10\n"), Ok(Request::PxGet(10, 10)));
    assert_eq!(
        parse(b"PX 10 10 FF0000\n"),
        Ok(Request::PxSet(10, 10, Color(255, 0, 0), None))
    );
    assert_eq!(
        parse(b"PX 3 4 C0FFEE80\n"),
        Ok(Request::PxSet(3, 4, Color(0xC0, 0xFF, 0xEE), Some(0x80)))
    );
    assert_eq!(parse(b"STATE RGB64\n"), Ok(Request::State(StateEncodingAlgorithm::Rgb64)));
    assert_eq!(parse(b"STATE RGBA64\n"), Ok(Request::State(StateEncodingAlgorithm::Rgba64)));
    assert_eq!(parse(b"SUBSCRIBE\n"), Ok(Request::Subscribe));
    assert_eq!(parse(b"UNSUBSCRIBE\n"), Ok(Request::Unsubscribe));
}

#[test]
fn parse_only_reads_the_first_frame() {
    assert_eq!(parse(b"SIZE\nPX 1 2\n"), Ok(Request::Size));
}

#[test]
fn parse_rejects_unknown_and_ill_formed_commands() {
    assert_eq!(parse(b"FOOBAR\n"), Err(FrameError::Malformed));
    assert_eq!(parse(b"\n"), Err(FrameError::Malformed));
    assert_eq!(parse(b"PX\n"), Err(FrameError::Malformed));
    assert_eq!(parse(b"PX 1\n"), Err(FrameError::Malformed));
    assert_eq!(parse(b"PX 1 2 3\n"), Err(FrameError::Malformed));
    assert_eq!(parse(b"PX 010 10 FF0000\n"), Err(FrameError::Malformed));
    assert_eq!(parse(b"PX 1 2 ff0000\n"), Err(FrameError::Malformed));
    assert_eq!(parse(b"PX 1 2 FF000\n"), Err(FrameError::Malformed));
    assert_eq!(parse(b"PX  1 2\n"), Err(FrameError::Malformed));
    assert_eq!(parse(b"PX 1 2 FF0000 X\n"), Err(FrameError::Malformed));
    assert_eq!(parse(b"STATE JPEG\n"), Err(FrameError::Malformed));
    assert_eq!(parse(b"SIZE \n"), Err(FrameError::Malformed));
    assert_eq!(parse(b"size\n"), Err(FrameError::Malformed));
    assert_eq!(parse(b"HELP \n"), Err(FrameError::Malformed));
    assert_eq!(parse(b"PX 99999999999999999999 1\n"), Err(FrameError::Malformed));
}

#[test]
fn encode_produces_the_wire_grammar() {
    assert_eq!(encode(&Response::Size(800, 600)), b"SIZE 800 600\n");
    assert_eq!(encode(&Response::Px(10, 10, Color(255, 0, 0))), b"PX 10 10 FF0000\n");
    assert_eq!(encode(&Response::Px(0, 0, Color(0, 0, 0))), b"PX 0 0 000000\n");
    assert_eq!(encode(&Response::Help(b"topics: px".to_vec())), b"HELP topics: px\n");
    assert_eq!(
        encode(&Response::State(StateEncodingAlgorithm::Rgb64, b"abc123".to_vec())),
        b"STATE RGB64 abc123\n"
    );
    assert_eq!(encode(&Response::Error(b"unknown command".to_vec())), b"ERROR unknown command\n");
}

#[test]
fn encode_request_produces_canonical_lines() {
    assert_eq!(encode_request(&Request::Size), b"SIZE\n");
    assert_eq!(encode_request(&Request::Help(Vec::new())), b"HELP\n");
    assert_eq!(encode_request(&Request::Help(b"px".to_vec())), b"HELP px\n");
    assert_eq!(encode_request(&Request::PxGet(0, 599)), b"PX 0 599\n");
    assert_eq!(
        encode_request(&Request::PxSet(10, 10, Color(255, 0, 0), None)),
        b"PX 10 10 FF0000\n"
    );
    assert_eq!(
        encode_request(&Request::PxSet(1, 2, Color(0xC0, 0xFF, 0xEE), Some(0x80))),
        b"PX 1 2 C0FFEE80\n"
    );
    assert_eq!(
        encode_request(&Request::State(StateEncodingAlgorithm::Rgba64)),
        b"STATE RGBA64\n"
    );
    assert_eq!(encode_request(&Request::Subscribe), b"SUBSCRIBE\n");
    assert_eq!(encode_request(&Request::Unsubscribe), b"UNSUBSCRIBE\n");
}

#[test]
fn round_trip_reproduces_wire_bytes() {
    let frames: Vec<&[u8]> = vec![
        b"SIZE\n",
        b"HELP\n",
        b"HELP px set\n",
        b"PX 0 0\n",
        b"PX 799 599\n",
        b"PX 10 10 FF0000\n",
        b"PX 1 2 C0FFEE80\n",
        b"STATE RGB64\n",
        b"STATE RGBA64\n",
        b"SUBSCRIBE\n",
        b"UNSUBSCRIBE\n",
    ];
    for frame in frames {
        let req = parse(frame).expect("well-formed frame must parse");
        assert_eq!(encode_request(&req), frame, "re-encoding must reproduce the bytes");
    }
}

#[test]
fn round_trip_reproduces_requests() {
    let reqs = vec![
        Request::Size,
        Request::Help(b"x y".to_vec()),
        Request::PxGet(123, 456),
        Request::PxSet(0, 0, Color(1, 2, 3), Some(4)),
        Request::State(StateEncodingAlgorithm::Rgb64),
        Request::Subscribe,
        Request::Unsubscribe,
    ];
    for req in reqs {
        let bytes = encode_request(&req);
        assert_eq!(parse(&bytes), Ok(req));
    }
}

#[test]
fn parse_line_works_without_delimiter() {
    assert_eq!(parse_line(b"SIZE"), Some(Request::Size));
    assert_eq!(parse_line(b"SIZE "), None);
    assert_eq!(parse_line(b"PX 5 6"), Some(Request::PxGet(5, 6)));
}
