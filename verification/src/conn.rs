//! Transport-independent connection handling.
//!
//! The I/O loops live outside the library; they hand received bytes in
//! and carry the returned actions out.  A [`StreamSession`] buffers
//! fragmented stream input and turns it into responses frame by frame; a
//! datagram is handled in one shot with no cross-datagram state.

use vstd::prelude::*;

use crate::buffer::{FrameBuffer, FrameStep};
use crate::codec;
use crate::codec::{FrameError, RespView, ReqView, StateEncodingAlgorithm};
use crate::color::Color;
use crate::pixmap::Pixmap;
use crate::proto;
use crate::proto::{ConnectionPreferences, RequestOutcome};

verus! {

/// How a stream connection ends when the peer stops sending.
#[derive(Debug, Clone, Copy, PartialEq, Eq, Structural)]
pub enum CloseKind {
    /// End of input with an empty buffer: the peer closed cleanly.
    Clean,
    /// End of input mid-frame: the peer vanished while sending.
    Reset,
}

/// What the stream loop must do after one processing step.
pub enum StreamStep {
    /// No complete frame is buffered: read more bytes from the peer.
    NeedMore,
    /// Write these bytes back to the peer, then step again.
    Respond(Vec<u8>),
    /// The frame needed no response: step again.
    Continue,
    /// Fetch the snapshot in this encoding from the encoder collaborator,
    /// send [`proto::state_reply`] of it, then step again.
    FetchState(StateEncodingAlgorithm),
    /// The peer overran the frame length limit: abandon the connection.
    Abort,
}

/// The per-connection state of one stream peer: the receive buffer and
/// the connection preferences.
pub struct StreamSession {
    buffer: FrameBuffer,
    /// The peer's chosen connection preferences.
    pub prefs: ConnectionPreferences,
}

impl StreamSession {
    /// The bytes received from the peer and not yet consumed as frames.
    pub closed spec fn buffered(self) -> Seq<u8> {
        self.buffer@
    }

    /// The session's connection preferences, for contracts.
    pub closed spec fn spec_prefs(self) -> ConnectionPreferences {
        self.prefs
    }

    /// A fresh session: empty buffer, default preferences.
    pub fn new() -> (r: Self)
        ensures
            r.buffered() == Seq::<u8>::empty(),
            !r.spec_prefs().subscribed,
    {
        StreamSession { buffer: FrameBuffer::new(), prefs: ConnectionPreferences::default() }
    }

    /// Appends bytes just read from the peer.
    pub fn feed(&mut self, data: &[u8])
        ensures
            final(self).buffered() == old(self).buffered() + data@,
            final(self).spec_prefs() == old(self).spec_prefs(),
    {
        self.buffer.feed(data);
    }

    /// How to treat the peer's end of input: clean only if no partial
    /// frame is left behind.
    pub fn on_eof(&self) -> (r: CloseKind)
        ensures
            r == CloseKind::Clean <==> self.buffered().len() == 0,
    {
        if self.buffer.is_empty() {
            CloseKind::Clean
        } else {
            CloseKind::Reset
        }
    }

    /// Processes at most one buffered frame: consumes exactly the bytes
    /// `check` reports for it, interprets the request against the canvas
    /// and this session's preferences, and says what the loop does next.
    /// A malformed frame is answered with a one-line error and the
    /// connection stays usable.
    pub fn step(&mut self, pixmap: &mut Pixmap) -> (r: StreamStep)
        requires
            old(pixmap).wf(),
        ensures
            old(pixmap).same_shape(*final(pixmap)),
            match codec::spec_check(old(self).buffered()) {
                Err(FrameError::Incomplete) => {
                    &&& r is NeedMore
                    &&& final(self).buffered() == old(self).buffered()
                    &&& final(self).spec_prefs() == old(self).spec_prefs()
                    &&& *final(pixmap) == *old(pixmap)
                },
                Err(FrameError::Malformed) => {
                    &&& r is Abort
                    &&& final(self).buffered() == old(self).buffered()
                    &&& final(self).spec_prefs() == old(self).spec_prefs()
                    &&& *final(pixmap) == *old(pixmap)
                },
                Ok(n) => {
                    &&& final(self).buffered() == old(self).buffered().skip(n as int)
                    &&& match codec::parse_line_spec(old(self).buffered().take(n - 1)) {
                        None => {
                            &&& r matches StreamStep::Respond(out) && out@ == codec::response_line(
                                RespView::Error(proto::bad_command_text()),
                            ).push(10u8)
                            &&& *final(pixmap) == *old(pixmap)
                            &&& final(self).spec_prefs() == old(self).spec_prefs()
                        },
                        Some(rv) => {
                            &&& final(pixmap).pixels() == proto::pixels_after(*old(pixmap), rv)
                            &&& final(self).spec_prefs().subscribed == proto::subscribed_after(
                                old(self).spec_prefs(),
                                rv,
                            )
                            &&& match rv {
                                ReqView::Size => r matches StreamStep::Respond(out) && out@
                                    == codec::response_line(
                                    RespView::Size(
                                        old(pixmap).spec_width(),
                                        old(pixmap).spec_height(),
                                    ),
                                ).push(10u8),
                                ReqView::Help(t) => r matches StreamStep::Respond(out) && out@
                                    == codec::response_line(RespView::Help(t)).push(10u8),
                                ReqView::PxGet(x, y) => r matches StreamStep::Respond(out) && out@
                                    == codec::response_line(
                                    RespView::Px(x, y, proto::px_read(*old(pixmap), x, y)),
                                ).push(10u8),
                                ReqView::PxSet(..) => r is Continue,
                                ReqView::State(alg) => r matches StreamStep::FetchState(a) && a
                                    == alg,
                                ReqView::Subscribe => r is Continue,
                                ReqView::Unsubscribe => r is Continue,
                            }
                        },
                    }
                },
            },
    {
        match self.buffer.take_frame() {
            FrameStep::NeedMore => StreamStep::NeedMore,
            FrameStep::Overlong => StreamStep::Abort,
            FrameStep::Bad => StreamStep::Respond(proto::error_reply()),
            FrameStep::Frame(req) => {
                match proto::handle_request(req, pixmap, &mut self.prefs) {
                    RequestOutcome::Reply(resp) => StreamStep::Respond(codec::encode(&resp)),
                    RequestOutcome::FetchState(alg) => StreamStep::FetchState(alg),
                    RequestOutcome::NoReply => StreamStep::Continue,
                }
            },
        }
    }
}

/// What the datagram loop does with one received datagram.
pub enum DatagramOutcome {
    /// Nothing goes back: the datagram was dropped as unusable, or its
    /// command is fire-and-forget.
    Silent,
    /// Send these bytes back to the originating address.
    Respond(Vec<u8>),
    /// Fetch the snapshot in this encoding, then send
    /// [`proto::state_reply`] of it to the originating address.
    FetchState(StateEncodingAlgorithm),
}

/// Handles one datagram in isolation: at most one command, no buffering
/// across datagrams, and no error reply — a truncated or garbled datagram
/// is dropped silently, since no reliable channel exists to report it.
pub fn handle_datagram(
    data: &[u8],
    pixmap: &mut Pixmap,
    prefs: &mut ConnectionPreferences,
) -> (r: DatagramOutcome)
    requires
        old(pixmap).wf(),
    ensures
        old(pixmap).same_shape(*final(pixmap)),
        match codec::spec_check(data@) {
            Err(_) => {
                &&& r is Silent
                &&& *final(pixmap) == *old(pixmap)
                &&& *final(prefs) == *old(prefs)
            },
            Ok(n) => match codec::parse_line_spec(data@.take(n - 1)) {
                None => {
                    &&& r is Silent
                    &&& *final(pixmap) == *old(pixmap)
                    &&& *final(prefs) == *old(prefs)
                },
                Some(rv) => {
                    &&& final(pixmap).pixels() == proto::pixels_after(*old(pixmap), rv)
                    &&& final(prefs).subscribed == proto::subscribed_after(*old(prefs), rv)
                    &&& match rv {
                        ReqView::Size => r matches DatagramOutcome::Respond(out) && out@
                            == codec::response_line(
                            RespView::Size(old(pixmap).spec_width(), old(pixmap).spec_height()),
                        ).push(10u8),
                        ReqView::Help(t) => r matches DatagramOutcome::Respond(out) && out@
                            == codec::response_line(RespView::Help(t)).push(10u8),
                        ReqView::PxGet(x, y) => r matches DatagramOutcome::Respond(out) && out@
                            == codec::response_line(
                            RespView::Px(x, y, proto::px_read(*old(pixmap), x, y)),
                        ).push(10u8),
                        ReqView::PxSet(..) => r is Silent,
                        ReqView::State(alg) => r matches DatagramOutcome::FetchState(a) && a
                            == alg,
                        ReqView::Subscribe => r is Silent,
                        ReqView::Unsubscribe => r is Silent,
                    }
                },
            },
        },
{
    let frame = match codec::check(data) {
        Err(_) => {
            return DatagramOutcome::Silent;
        },
        Ok(_) => match codec::parse(data) {
            Err(_) => {
                return DatagramOutcome::Silent;
            },
            Ok(req) => req,
        },
    };
    match proto::handle_request(frame, pixmap, prefs) {
        RequestOutcome::Reply(resp) => DatagramOutcome::Respond(codec::encode(&resp)),
        RequestOutcome::FetchState(alg) => DatagramOutcome::FetchState(alg),
        RequestOutcome::NoReply => DatagramOutcome::Silent,
    }
}

/// Handles one datagram against the concurrent canvas, with the same
/// drop-silently policy as [`handle_datagram`]; this is what the
/// datagram transport's per-datagram tasks call.
pub fn handle_datagram_shared(
    data: &[u8],
    pixmap: &crate::shared::SharedPixmap,
    prefs: &mut ConnectionPreferences,
) -> (r: DatagramOutcome)
    requires
        pixmap.wf(),
    ensures
        match codec::spec_check(data@) {
            Err(_) => r is Silent && *final(prefs) == *old(prefs),
            Ok(n) => match codec::parse_line_spec(data@.take(n - 1)) {
                None => r is Silent && *final(prefs) == *old(prefs),
                Some(rv) => {
                    &&& final(prefs).subscribed == proto::subscribed_after(*old(prefs), rv)
                    &&& match rv {
                        ReqView::Size => r matches DatagramOutcome::Respond(out) && out@
                            == codec::response_line(
                            RespView::Size(pixmap.spec_width(), pixmap.spec_height()),
                        ).push(10u8),
                        ReqView::Help(t) => r matches DatagramOutcome::Respond(out) && out@
                            == codec::response_line(RespView::Help(t)).push(10u8),
                        ReqView::PxGet(x, y) => r matches DatagramOutcome::Respond(out) && exists|
                            c: Color,
                        |
                            out@ == #[trigger] codec::response_line(RespView::Px(x, y, c)).push(
                                10u8,
                            ) && (!pixmap.in_range(x, y) ==> c == Color(0, 0, 0)),
                        ReqView::PxSet(..) => r is Silent,
                        ReqView::State(alg) => r matches DatagramOutcome::FetchState(a) && a
                            == alg,
                        ReqView::Subscribe => r is Silent,
                        ReqView::Unsubscribe => r is Silent,
                    }
                },
            },
        },
{
    let frame = match codec::check(data) {
        Err(_) => {
            return DatagramOutcome::Silent;
        },
        Ok(_) => match codec::parse(data) {
            Err(_) => {
                return DatagramOutcome::Silent;
            },
            Ok(req) => req,
        },
    };
    match proto::handle_request_shared(frame, pixmap, prefs) {
        RequestOutcome::Reply(resp) => DatagramOutcome::Respond(codec::encode(&resp)),
        RequestOutcome::FetchState(alg) => DatagramOutcome::FetchState(alg),
        RequestOutcome::NoReply => DatagramOutcome::Silent,
    }
}

} // verus!

