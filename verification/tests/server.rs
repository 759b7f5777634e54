//! End-to-end scenarios on an 800 by 600 canvas with 10 shards, driven
//! through the stream session and the datagram handler exactly as a
//! transport loop would drive them.

use pixelflut::codec::StateEncodingAlgorithm;
use pixelflut::color::Color;
use pixelflut::conn::{handle_datagram, CloseKind, DatagramOutcome, StreamSession, StreamStep};
use pixelflut::pixmap::Pixmap;
use pixelflut::proto::{state_reply, ConnectionPreferences};

fn canvas() -> Pixmap {
    Pixmap::new(800, 600, 10).unwrap()
}

fn expect_respond(step: StreamStep) -> Vec<u8> {
    match step {
        StreamStep::Respond(bytes) => bytes,
        _ => panic!("expected a response"),
    }
}

#[test]
fn scenario_size() {
    let mut pixmap = canvas();
    let mut session = StreamSession::new();
    session.feed(b"SIZE\n");
    let out = expect_respond(session.step(&mut pixmap));
    assert_eq!(out, b"SIZE 800 600\n");
    assert!(matches!(session.step(&mut pixmap), StreamStep::NeedMore));
}

#[test]
fn scenario_px_set_then_get() {
    let mut pixmap = canvas();
    let mut session = StreamSession::new();
    session.feed(b"PX 10 10 FF0000\n");
    assert!(matches!(session.step(&mut pixmap), StreamStep::Continue));
    session.feed(b"PX 10 10\n");
    let out = expect_respond(session.step(&mut pixmap));
    assert_eq!(out, b"PX 10 10 FF0000\n");
}

#[test]
fn scenario_out_of_range_write_is_harmless() {
    let mut pixmap = canvas();
    let mut session = StreamSession::new();
    session.feed(b"PX 10 10 FF0000\n");
    assert!(matches!(session.step(&mut pixmap), StreamStep::Continue));
    session.feed(b"PX 900 10 00FF00\n");
    assert!(matches!(session.step(&mut pixmap), StreamStep::Continue));
    session.feed(b"PX 10 10\n");
    let out = expect_respond(session.step(&mut pixmap));
    assert_eq!(out, b"PX 10 10 FF0000\n");
}

#[test]
fn scenario_out_of_range_read_answers_default_color() {
    let mut pixmap = canvas();
    let mut session = StreamSession::new();
    session.feed(b"PX 900 10\n");
    let out = expect_respond(session.step(&mut pixmap));
    assert_eq!(out, b"PX 900 10 000000\n");
}

#[test]
fn scenario_unknown_command_keeps_connection_usable() {
    let mut pixmap = canvas();
    let mut session = StreamSession::new();
    session.feed(b"FOOBAR\n");
    let out = expect_respond(session.step(&mut pixmap));
    assert_eq!(out, b"ERROR unknown command\n");
    session.feed(b"SIZE\n");
    let out = expect_respond(session.step(&mut pixmap));
    assert_eq!(out, b"SIZE 800 600\n");
}

#[test]
fn scenario_garbled_datagram_is_dropped_silently() {
    let mut pixmap = canvas();
    let mut prefs = ConnectionPreferences::default();
    let before = pixmap.get_pixel(10, 10);
    assert!(matches!(
        handle_datagram(b"PX 10 10 FF00", &mut pixmap, &mut prefs),
        DatagramOutcome::Silent
    ));
    assert!(matches!(
        handle_datagram(b"\x00\xffgarbage", &mut pixmap, &mut prefs),
        DatagramOutcome::Silent
    ));
    assert_eq!(pixmap.get_pixel(10, 10), before);
    match handle_datagram(b"SIZE\n", &mut pixmap, &mut prefs) {
        DatagramOutcome::Respond(out) => assert_eq!(out, b"SIZE 800 600\n"),
        _ => panic!("the server must keep serving well-formed datagrams"),
    }
}

#[test]
fn scenario_subscribe_unsubscribe_are_silent() {
    let mut pixmap = canvas();
    let mut session = StreamSession::new();
    session.feed(b"SUBSCRIBE\n");
    assert!(matches!(session.step(&mut pixmap), StreamStep::Continue));
    assert!(session.prefs.subscribed);
    session.feed(b"UNSUBSCRIBE\n");
    assert!(matches!(session.step(&mut pixmap), StreamStep::Continue));
    assert!(!session.prefs.subscribed);
    session.feed(b"SIZE\n");
    let out = expect_respond(session.step(&mut pixmap));
    assert_eq!(out, b"SIZE 800 600\n");
}

#[test]
fn fragmented_stream_input_is_reassembled() {
    let mut pixmap = canvas();
    let mut session = StreamSession::new();
    session.feed(b"PX 10 1");
    assert!(matches!(session.step(&mut pixmap), StreamStep::NeedMore));
    session.feed(b"0 FF0000\nPX 10 10\n");
    assert!(matches!(session.step(&mut pixmap), StreamStep::Continue));
    let out = expect_respond(session.step(&mut pixmap));
    assert_eq!(out, b"PX 10 10 FF0000\n");
    assert!(matches!(session.step(&mut pixmap), StreamStep::NeedMore));
}

#[test]
fn datagram_writes_share_the_canvas_state() {
    let mut pixmap = canvas();
    let mut prefs = ConnectionPreferences::default();
    assert!(matches!(
        handle_datagram(b"PX 5 6 C0FFEE\n", &mut pixmap, &mut prefs),
        DatagramOutcome::Silent
    ));
    assert_eq!(pixmap.get_pixel(5, 6), Some(Color(0xC0, 0xFF, 0xEE)));
    match handle_datagram(b"PX 5 6\n", &mut pixmap, &mut prefs) {
        DatagramOutcome::Respond(out) => assert_eq!(out, b"PX 5 6 C0FFEE\n"),
        _ => panic!("a datagram read must be answered"),
    }
}

#[test]
fn state_request_defers_to_the_encoder_collaborator() {
    let mut pixmap = canvas();
    let mut session = StreamSession::new();
    session.feed(b"STATE RGB64\n");
    match session.step(&mut pixmap) {
        StreamStep::FetchState(alg) => {
            assert!(matches!(alg, StateEncodingAlgorithm::Rgb64));
            let out = state_reply(alg, b"snapshot-bytes".to_vec());
            assert_eq!(out, b"STATE RGB64 snapshot-bytes\n");
        },
        _ => panic!("STATE must ask for a snapshot fetch"),
    }
}

#[test]
fn eof_is_clean_only_with_an_empty_buffer() {
    let mut pixmap = canvas();
    let mut session = StreamSession::new();
    assert_eq!(session.on_eof(), CloseKind::Clean);
    session.feed(b"PX 1");
    assert_eq!(session.on_eof(), CloseKind::Reset);
    session.feed(b" 2\n");
    let _ = expect_respond(session.step(&mut pixmap));
    assert_eq!(session.on_eof(), CloseKind::Clean);
}

#[test]
fn overlong_line_aborts_the_stream() {
    let mut pixmap = canvas();
    let mut session = StreamSession::new();
    let flood = vec![b'A'; 2000];
    session.feed(&flood);
    assert!(matches!(session.step(&mut pixmap), StreamStep::Abort));
}

#[test]
fn alpha_channel_is_accepted_but_not_stored() {
    let mut pixmap = canvas();
    let mut prefs = ConnectionPreferences::default();
    assert!(matches!(
        handle_datagram(b"PX 1 1 FF000080\n", &mut pixmap, &mut prefs),
        DatagramOutcome::Silent
    ));
    assert_eq!(pixmap.get_pixel(1, 1), Some(Color(255, 0, 0)));
}
