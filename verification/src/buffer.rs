//! The receive buffer for one stream connection.
//!
//! Stream sockets deliver commands in arbitrary fragments, so the bytes
//! are accumulated in a growable buffer; [`FrameBuffer::take_frame`] asks
//! cheaply whether one complete frame is present and, once it is, decodes
//! it and advances past exactly the bytes [`crate::codec::check`]
//! reported.
//!
//! The storage is `bytes::BytesMut`; the handful of methods used are
//! trusted declarations over `buf_bytes`, the buffer's contents.

use vstd::prelude::*;

use crate::codec;
use crate::codec::{FrameError, Request};

verus! {

#[verifier::external_type_specification]
#[verifier::external_body]
pub struct ExBytesMut(bytes::BytesMut);

/// What a byte buffer holds, oldest byte first.
pub uninterp spec fn buf_bytes(b: bytes::BytesMut) -> Seq<u8>;

/// Relies on bytes::BytesMut::new: a fresh buffer is empty.
#[verifier::external_body]
fn bytes_new() -> (r: bytes::BytesMut)
    ensures
        buf_bytes(r) == Seq::<u8>::empty(),
{
    bytes::BytesMut::new()
}

/// Relies on bytes::BytesMut::extend_from_slice: appends the given bytes
/// after the current contents.
#[verifier::external_body]
fn bytes_extend(b: &mut bytes::BytesMut, data: &[u8])
    ensures
        buf_bytes(*final(b)) == buf_bytes(*old(b)) + data@,
{
    b.extend_from_slice(data);
}

/// Relies on bytes::Buf::advance for BytesMut: discards the first `n`
/// bytes and keeps the rest; it panics when `n` exceeds the length.
#[verifier::external_body]
fn bytes_advance(b: &mut bytes::BytesMut, n: usize)
    requires
        n <= buf_bytes(*old(b)).len(),
    ensures
        buf_bytes(*final(b)) == buf_bytes(*old(b)).skip(n as int),
{
    bytes::Buf::advance(b, n);
}

/// Relies on bytes::BytesMut's Deref to `[u8]`: a view of the whole
/// contents as a slice.
#[verifier::external_body]
fn bytes_slice(b: &bytes::BytesMut) -> (r: &[u8])
    ensures
        r@ == buf_bytes(*b),
{
    &b[..]
}

/// One step of frame extraction from the buffer.
pub enum FrameStep {
    /// No complete frame is buffered yet: read more bytes first.
    NeedMore,
    /// One frame was consumed and decoded into a request.
    Frame(Request),
    /// One frame was consumed but is not a recognized command.
    Bad,
    /// The peer exceeded the frame length limit with no delimiter; the
    /// stream cannot recover.
    Overlong,
}

/// A growable receive buffer holding the not-yet-consumed bytes of one
/// stream connection.
pub struct FrameBuffer {
    buf: bytes::BytesMut,
}

impl View for FrameBuffer {
    type V = Seq<u8>;

    closed spec fn view(&self) -> Seq<u8> {
        buf_bytes(self.buf)
    }
}

impl FrameBuffer {
    /// An empty buffer for a fresh connection.
    pub fn new() -> (r: Self)
        ensures
            r@ == Seq::<u8>::empty(),
    {
        FrameBuffer { buf: bytes_new() }
    }

    /// Appends freshly received bytes after the buffered ones.
    pub fn feed(&mut self, data: &[u8])
        ensures
            final(self)@ == old(self)@ + data@,
    {
        bytes_extend(&mut self.buf, data);
    }

    /// Whether nothing is buffered: an end-of-input in this state is a
    /// clean close, otherwise the peer vanished mid-frame.
    pub fn is_empty(&self) -> (r: bool)
        ensures
            r == (self@.len() == 0),
    {
        let s = bytes_slice(&self.buf);
        s.len() == 0
    }

    /// Extracts the leading frame if a complete one is buffered,
    /// consuming exactly the bytes `check` reports for it; an incomplete
    /// buffer is left untouched.
    pub fn take_frame(&mut self) -> (r: FrameStep)
        ensures
            match codec::spec_check(old(self)@) {
                Ok(n) => {
                    &&& final(self)@ == old(self)@.skip(n as int)
                    &&& match r {
                        FrameStep::Frame(req) => codec::parse_line_spec(
                            old(self)@.take(n - 1),
                        ) == Some(req@),
                        FrameStep::Bad => codec::parse_line_spec(old(self)@.take(n - 1)) is None,
                        _ => false,
                    }
                },
                Err(FrameError::Incomplete) => r is NeedMore && final(self)@ == old(self)@,
                Err(FrameError::Malformed) => r is Overlong && final(self)@ == old(self)@,
            },
    {
        let step: FrameStep;
        let mut consumed: usize = 0;
        {
            let s = bytes_slice(&self.buf);
            match codec::check(s) {
                Err(FrameError::Incomplete) => {
                    step = FrameStep::NeedMore;
                },
                Err(FrameError::Malformed) => {
                    step = FrameStep::Overlong;
                },
                Ok(n) => {
                    consumed = n;
                    match codec::parse(s) {
                        Ok(req) => {
                            step = FrameStep::Frame(req);
                        },
                        Err(_) => {
                            step = FrameStep::Bad;
                        },
                    }
                },
            }
        }
        if consumed > 0 {
            bytes_advance(&mut self.buf, consumed);
        }
        step
    }
}

} // verus!
