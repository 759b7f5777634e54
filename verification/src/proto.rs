//! The protocol interpreter: maps one decoded request to an action
//! against the canvas store and the per-connection preferences, producing
//! an optional response.
//!
//! The bulk snapshot encoder is an external collaborator: a `STATE`
//! request is answered by handing the caller a fetch instruction, and the
//! fetched bytes come back through [`state_reply`].

use vstd::prelude::*;

use crate::codec::{RespView, ReqView, Request, Response, StateEncodingAlgorithm};
use crate::codec::{encode, response_line};
use crate::color::Color;
use crate::pixmap::Pixmap;

verus! {

/// Preferences which the client has chosen for its connection.
#[derive(Debug, Clone, Copy, PartialEq, Eq, Structural)]
pub struct ConnectionPreferences {
    /// Whether the client wishes to be subscribed to canvas updates;
    /// delivery itself is an external collaborator's responsibility.
    pub subscribed: bool,
}

impl Default for ConnectionPreferences {
    /// A fresh connection starts out unsubscribed.
    fn default() -> (r: Self)
        ensures
            !r.subscribed,
    {
        ConnectionPreferences { subscribed: false }
    }
}

/// What the interpreter decided for one request.
pub enum RequestOutcome {
    /// Send this response back.
    Reply(Response),
    /// Fetch the latest snapshot in this encoding from the external
    /// encoder collaborator, then answer with [`state_reply`].
    FetchState(StateEncodingAlgorithm),
    /// The request is fire-and-forget: send nothing.
    NoReply,
}

/// What a `PX <x> <y>` read answers: the stored color in range, the
/// default color out of range — out-of-range reads never fail.
pub open spec fn px_read(p: Pixmap, x: int, y: int) -> Color {
    if p.in_range(x, y) {
        p.pixels()[p.global_index(x, y)]
    } else {
        Color(0, 0, 0)
    }
}

/// The canvas contents after a request: only an in-range `PX` write
/// changes anything.
pub open spec fn pixels_after(p: Pixmap, rv: ReqView) -> Seq<Color> {
    match rv {
        ReqView::PxSet(x, y, c, _a) => if p.in_range(x, y) {
            p.pixels().update(p.global_index(x, y), c)
        } else {
            p.pixels()
        },
        _ => p.pixels(),
    }
}

/// The subscription flag after a request.
pub open spec fn subscribed_after(prefs: ConnectionPreferences, rv: ReqView) -> bool {
    match rv {
        ReqView::Subscribe => true,
        ReqView::Unsubscribe => false,
        _ => prefs.subscribed,
    }
}

impl Pixmap {
    /// What stays fixed across request handling: well-formedness and the
    /// immutable dimensions.
    pub open spec fn same_shape(self, other: Pixmap) -> bool {
        &&& other.wf()
        &&& other.spec_width() == self.spec_width()
        &&& other.spec_height() == self.spec_height()
        &&& other.num_shards() == self.num_shards()
    }
}

/// Handles one request: reads or writes the canvas, flips the
/// subscription flag, and decides what (if anything) goes back on the
/// wire.  Out-of-range reads answer the default color and out-of-range
/// writes are silent no-ops; neither ends the connection.
pub fn handle_request(
    req: Request,
    pixmap: &mut Pixmap,
    prefs: &mut ConnectionPreferences,
) -> (r: RequestOutcome)
    requires
        old(pixmap).wf(),
    ensures
        old(pixmap).same_shape(*final(pixmap)),
        final(pixmap).pixels() == pixels_after(*old(pixmap), req@),
        final(prefs).subscribed == subscribed_after(*old(prefs), req@),
        match req@ {
            ReqView::Size => r matches RequestOutcome::Reply(resp) && resp@ == RespView::Size(
                old(pixmap).spec_width(),
                old(pixmap).spec_height(),
            ),
            ReqView::Help(t) => r matches RequestOutcome::Reply(resp) && resp@ == RespView::Help(t),
            ReqView::PxGet(x, y) => r matches RequestOutcome::Reply(resp) && resp@ == RespView::Px(
                x,
                y,
                px_read(*old(pixmap), x, y),
            ),
            ReqView::PxSet(..) => r is NoReply,
            ReqView::State(alg) => r matches RequestOutcome::FetchState(a) && a == alg,
            ReqView::Subscribe => r is NoReply,
            ReqView::Unsubscribe => r is NoReply,
        },
{
    match req {
        Request::Size => {
            let (w, h) = pixmap.size();
            RequestOutcome::Reply(Response::Size(w, h))
        },
        Request::Help(topic) => RequestOutcome::Reply(Response::Help(topic)),
        Request::PxGet(x, y) => {
            let c = match pixmap.get_pixel(x, y) {
                Some(c) => c,
                None => Color(0, 0, 0),
            };
            RequestOutcome::Reply(Response::Px(x, y, c))
        },
        Request::PxSet(x, y, color, _alpha) => {
            let _ = pixmap.set_pixel(x, y, color);
            RequestOutcome::NoReply
        },
        Request::State(alg) => RequestOutcome::FetchState(alg),
        Request::Subscribe => {
            prefs.subscribed = true;
            RequestOutcome::NoReply
        },
        Request::Unsubscribe => {
            prefs.subscribed = false;
            RequestOutcome::NoReply
        },
    }
}

/// Handles one request against the concurrent, lock-sharded canvas; this
/// is what connection handlers running in parallel call.  The color a
/// read answers depends on the interleaving with other writers, so only
/// the out-of-range default is pinned; everything else is as exact as for
/// [`handle_request`].
pub fn handle_request_shared(
    req: Request,
    pixmap: &crate::shared::SharedPixmap,
    prefs: &mut ConnectionPreferences,
) -> (r: RequestOutcome)
    requires
        pixmap.wf(),
    ensures
        final(prefs).subscribed == subscribed_after(*old(prefs), req@),
        match req@ {
            ReqView::Size => r matches RequestOutcome::Reply(resp) && resp@ == RespView::Size(
                pixmap.spec_width(),
                pixmap.spec_height(),
            ),
            ReqView::Help(t) => r matches RequestOutcome::Reply(resp) && resp@ == RespView::Help(t),
            ReqView::PxGet(x, y) => r matches RequestOutcome::Reply(resp) && resp@ matches
                RespView::Px(px, py, c) && px == x && py == y && (!pixmap.in_range(x, y) ==> c
                == Color(0, 0, 0)),
            ReqView::PxSet(..) => r is NoReply,
            ReqView::State(alg) => r matches RequestOutcome::FetchState(a) && a == alg,
            ReqView::Subscribe => r is NoReply,
            ReqView::Unsubscribe => r is NoReply,
        },
{
    match req {
        Request::Size => {
            let (w, h) = pixmap.size();
            RequestOutcome::Reply(Response::Size(w, h))
        },
        Request::Help(topic) => RequestOutcome::Reply(Response::Help(topic)),
        Request::PxGet(x, y) => {
            let c = match pixmap.get_pixel(x, y) {
                Some(c) => c,
                None => Color(0, 0, 0),
            };
            RequestOutcome::Reply(Response::Px(x, y, c))
        },
        Request::PxSet(x, y, color, _alpha) => {
            let _ = pixmap.set_pixel(x, y, color);
            RequestOutcome::NoReply
        },
        Request::State(alg) => RequestOutcome::FetchState(alg),
        Request::Subscribe => {
            prefs.subscribed = true;
            RequestOutcome::NoReply
        },
        Request::Unsubscribe => {
            prefs.subscribed = false;
            RequestOutcome::NoReply
        },
    }
}

/// Encodes the answer to a `STATE` request once the external encoder
/// collaborator has produced the snapshot bytes.
pub fn state_reply(alg: StateEncodingAlgorithm, data: Vec<u8>) -> (r: Vec<u8>)
    ensures
        r@ == response_line(RespView::State(alg, data@)).push(10u8),
{
    encode(&Response::State(alg, data))
}

/// The description sent with the error response for an unrecognized or
/// ill-formed command: the bytes of `unknown command`.
pub open spec fn bad_command_text() -> Seq<u8> {
    seq![117u8, 110, 107, 110, 111, 119, 110, 32, 99, 111, 109, 109, 97, 110, 100]
}

/// Builds the one-line error response a stream connection sends back for
/// a malformed command.
pub fn error_reply() -> (r: Vec<u8>)
    ensures
        r@ == response_line(RespView::Error(bad_command_text())).push(10u8),
{
    let mut msg: Vec<u8> = Vec::new();
    msg.push(117);
    msg.push(110);
    msg.push(107);
    msg.push(110);
    msg.push(111);
    msg.push(119);
    msg.push(110);
    msg.push(32);
    msg.push(99);
    msg.push(111);
    msg.push(109);
    msg.push(109);
    msg.push(97);
    msg.push(110);
    msg.push(100);
    proof {
        assert(msg@ =~= bad_command_text());
    }
    encode(&Response::Error(msg))
}

} // verus!
