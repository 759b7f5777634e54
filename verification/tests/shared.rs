//! Tests for the concurrent, lock-sharded canvas store and the handlers
//! that serve it.

use pixelflut::codec::{Request, StateEncodingAlgorithm};
use pixelflut::color::Color;
use pixelflut::conn::{handle_datagram_shared, DatagramOutcome};
use pixelflut::pixmap::PixmapError;
use pixelflut::proto::{handle_request_shared, ConnectionPreferences, RequestOutcome};
use pixelflut::shared::SharedPixmap;

#[test]
fn shared_construction_rejects_the_same_configurations() {
    assert!(matches!(SharedPixmap::new(0, 600, 10), Err(PixmapError::ZeroWidth)));
    assert!(matches!(SharedPixmap::new(800, 0, 10), Err(PixmapError::ZeroHeight)));
    assert!(matches!(SharedPixmap::new(800, 600, 0), Err(PixmapError::ZeroShards)));
    assert!(matches!(SharedPixmap::new(4, 2, 9), Err(PixmapError::TooManyShards)));
    assert!(matches!(SharedPixmap::new(800, 600, 7), Err(PixmapError::UnevenShards)));
    assert!(SharedPixmap::new(800, 600, 10).is_ok());
}

#[test]
fn shared_set_then_get_returns_written_color() {
    let pixmap = SharedPixmap::new(800, 600, 10).unwrap();
    assert_eq!(pixmap.size(), (800, 600));
    assert_eq!(pixmap.get_pixel(10, 10), Some(Color(0, 0, 0)));
    assert!(pixmap.set_pixel(10, 10, Color(255, 0, 0)));
    assert_eq!(pixmap.get_pixel(10, 10), Some(Color(255, 0, 0)));
}

#[test]
fn shared_writes_to_different_shards_are_independent() {
    // On an 800 by 600 canvas with 10 shards, rows 0 and 599 live in the
    // first and last shard; writing one never disturbs the other.
    let pixmap = SharedPixmap::new(800, 600, 10).unwrap();
    assert!(pixmap.set_pixel(0, 0, Color(1, 1, 1)));
    assert!(pixmap.set_pixel(799, 599, Color(2, 2, 2)));
    assert_eq!(pixmap.get_pixel(0, 0), Some(Color(1, 1, 1)));
    assert_eq!(pixmap.get_pixel(799, 599), Some(Color(2, 2, 2)));
}

#[test]
fn shared_out_of_range_access_is_harmless() {
    let pixmap = SharedPixmap::new(8, 4, 2).unwrap();
    assert_eq!(pixmap.get_pixel(8, 0), None);
    assert!(!pixmap.set_pixel(0, 4, Color(9, 9, 9)));
    assert_eq!(pixmap.get_pixel(0, 0), Some(Color(0, 0, 0)));
}

#[test]
fn shared_interpreter_serves_the_same_protocol() {
    let pixmap = SharedPixmap::new(800, 600, 10).unwrap();
    let mut prefs = ConnectionPreferences::default();
    match handle_request_shared(Request::Size, &pixmap, &mut prefs) {
        RequestOutcome::Reply(resp) => {
            assert_eq!(pixelflut::codec::encode(&resp), b"SIZE 800 600\n")
        }
        _ => panic!("SIZE must be answered"),
    }
    assert!(matches!(
        handle_request_shared(
            Request::PxSet(10, 10, Color(255, 0, 0), None),
            &pixmap,
            &mut prefs
        ),
        RequestOutcome::NoReply
    ));
    match handle_request_shared(Request::PxGet(10, 10), &pixmap, &mut prefs) {
        RequestOutcome::Reply(resp) => {
            assert_eq!(pixelflut::codec::encode(&resp), b"PX 10 10 FF0000\n")
        }
        _ => panic!("PX reads must be answered"),
    }
    assert!(matches!(
        handle_request_shared(Request::Subscribe, &pixmap, &mut prefs),
        RequestOutcome::NoReply
    ));
    assert!(prefs.subscribed);
    assert!(matches!(
        handle_request_shared(Request::State(StateEncodingAlgorithm::Rgba64), &pixmap, &mut prefs),
        RequestOutcome::FetchState(StateEncodingAlgorithm::Rgba64)
    ));
}

#[test]
fn shared_datagrams_drop_garbage_and_serve_commands() {
    let pixmap = SharedPixmap::new(800, 600, 10).unwrap();
    let mut prefs = ConnectionPreferences::default();
    assert!(matches!(
        handle_datagram_shared(b"PX 10 10 FF00", &pixmap, &mut prefs),
        DatagramOutcome::Silent
    ));
    assert!(matches!(
        handle_datagram_shared(b"PX 10 10 FF0000\n", &pixmap, &mut prefs),
        DatagramOutcome::Silent
    ));
    match handle_datagram_shared(b"PX 10 10\n", &pixmap, &mut prefs) {
        DatagramOutcome::Respond(out) => assert_eq!(out, b"PX 10 10 FF0000\n"),
        _ => panic!("a datagram read must be answered"),
    }
}
