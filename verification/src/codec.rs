//! The wire-frame codec for the line-oriented protocol.
//!
//! A frame is one line of bytes terminated by a newline.  `check` reports,
//! without consuming anything, how many leading bytes of a buffer form one
//! complete frame; `parse` decodes exactly that many bytes into a
//! [`Request`]; `encode` serializes a [`Response`] back into wire bytes.
//!
//! The grammar is strict and canonical: fields are separated by single
//! spaces, coordinates are decimal without leading zeros, and colors are
//! six or eight uppercase hexadecimal digits.  Every well-formed frame is
//! therefore reproduced byte for byte by re-encoding its parse.

use vstd::prelude::*;
use vstd::arithmetic::div_mod::{
    lemma_div_pos_is_pos, lemma_fundamental_div_mod, lemma_fundamental_div_mod_converse_div,
    lemma_fundamental_div_mod_converse_mod, lemma_mod_bound, lemma_multiply_divide_lt,
};

use crate::color::Color;

verus! {

/// The longest frame `check` accepts before declaring the input malformed.
pub const MAX_FRAME_LEN: usize = 1024;

/// Which precomputed snapshot encoding a `STATE` request selects.
#[derive(Debug, Clone, Copy, PartialEq, Eq, Structural)]
pub enum StateEncodingAlgorithm {
    /// The RGB snapshot encoding.
    Rgb64,
    /// The RGBA snapshot encoding.
    Rgba64,
}

/// One decoded protocol request.
#[derive(Debug, Clone, PartialEq, Eq)]
pub enum Request {
    /// `SIZE`: ask for the canvas dimensions.
    Size,
    /// `HELP` or `HELP <topic>`: ask for help text; an empty topic stands
    /// for the bare `HELP`.
    Help(Vec<u8>),
    /// `PX <x> <y>`: read one pixel.
    PxGet(usize, usize),
    /// `PX <x> <y> <RRGGBB|RRGGBBAA>`: write one pixel; a present alpha
    /// channel is carried through the codec but never stored.
    PxSet(usize, usize, Color, Option<u8>),
    /// `STATE <algorithm>`: ask for the latest encoded snapshot.
    State(StateEncodingAlgorithm),
    /// `SUBSCRIBE`: turn the connection's subscription flag on.
    Subscribe,
    /// `UNSUBSCRIBE`: turn the connection's subscription flag off.
    Unsubscribe,
}

/// One outgoing protocol response, ready for encoding.
#[derive(Debug, Clone, PartialEq, Eq)]
pub enum Response {
    /// `SIZE <width> <height>`.
    Size(usize, usize),
    /// `PX <x> <y> <RRGGBB>`.
    Px(usize, usize, Color),
    /// `HELP <text>`.
    Help(Vec<u8>),
    /// `STATE <algorithm> <bytes>`.
    State(StateEncodingAlgorithm, Vec<u8>),
    /// `ERROR <description>`.
    Error(Vec<u8>),
}

/// Why a buffer does not hold one complete frame.
#[derive(Debug, Clone, Copy, PartialEq, Eq, Structural)]
pub enum FrameError {
    /// More bytes are needed before a frame can be complete.
    Incomplete,
    /// The content is structurally invalid and no further bytes can mend it.
    Malformed,
}

/// The first index at or after `from` holding byte `b`.
pub open spec fn find_byte(s: Seq<u8>, b: u8, from: int) -> Option<int>
    decreases s.len() - from,
{
    if from < 0 || from >= s.len() {
        None
    } else if s[from] == b {
        Some(from)
    } else {
        find_byte(s, b, from + 1)
    }
}

/// What `find_byte` says: the found index is the first occurrence.
pub proof fn lemma_find_byte_spec(s: Seq<u8>, b: u8, from: int)
    requires
        0 <= from <= s.len(),
    ensures
        match find_byte(s, b, from) {
            Some(k) => from <= k < s.len() && s[k] == b && forall|m: int|
                from <= m < k ==> s[m] != b,
            None => forall|m: int| from <= m < s.len() ==> s[m] != b,
        },
    decreases s.len() - from,
{
    if from < s.len() && s[from] != b {
        lemma_find_byte_spec(s, b, from + 1);
    }
}

/// The converse: an occurrence at `k` preceded by none is what
/// `find_byte` finds.
pub proof fn lemma_find_byte_at(s: Seq<u8>, b: u8, from: int, k: int)
    requires
        0 <= from <= k < s.len(),
        s[k] == b,
        forall|m: int| from <= m < k ==> s[m] != b,
    ensures
        find_byte(s, b, from) == Some(k),
    decreases k - from,
{
    if from < k {
        lemma_find_byte_at(s, b, from + 1, k);
    }
}

/// How `check` judges a buffer, as a function of its bytes.
pub open spec fn spec_check(s: Seq<u8>) -> Result<usize, FrameError> {
    match find_byte(s, 10u8, 0) {
        Some(i) => if i < MAX_FRAME_LEN {
            Ok((i + 1) as usize)
        } else {
            Err(FrameError::Malformed)
        },
        None => if s.len() >= MAX_FRAME_LEN {
            Err(FrameError::Malformed)
        } else {
            Err(FrameError::Incomplete)
        },
    }
}

/// Scans a buffer without consuming it: reports how many leading bytes
/// form one complete frame, that more bytes are needed, or that no frame
/// delimiter arrives within the accepted frame length.
pub fn check(buf: &[u8]) -> (r: Result<usize, FrameError>)
    ensures
        r == spec_check(buf@),
        r matches Ok(n) ==> 0 < n <= buf@.len(),
{
    let len = buf.len();
    let mut i: usize = 0;
    while i < len
        invariant
            0 <= i <= len,
            len == buf@.len(),
            find_byte(buf@, 10u8, 0) == find_byte(buf@, 10u8, i as int),
            forall|m: int| 0 <= m < i ==> buf@[m] != 10u8,
        decreases len - i,
    {
        if buf[i] == 10u8 {
            proof {
                lemma_find_byte_at(buf@, 10u8, i as int, i as int);
            }
            if i < MAX_FRAME_LEN {
                return Ok(i + 1);
            } else {
                return Err(FrameError::Malformed);
            }
        }
        i = i + 1;
    }
    if len >= MAX_FRAME_LEN {
        Err(FrameError::Malformed)
    } else {
        Err(FrameError::Incomplete)
    }
}

/// Whether `b` is an ASCII decimal digit.
pub open spec fn is_digit(b: u8) -> bool {
    48 <= b <= 57
}

/// Whether `b` is an uppercase ASCII hexadecimal digit.
pub open spec fn is_hex_digit(b: u8) -> bool {
    is_digit(b) || 65 <= b <= 70
}

/// The numeric value of a hexadecimal digit.
pub open spec fn hex_val(b: u8) -> int {
    if is_digit(b) {
        b - 48
    } else {
        b - 55
    }
}

/// The uppercase hexadecimal digit for a value below sixteen.
pub open spec fn hex_digit_of(v: int) -> u8 {
    if v < 10 {
        (48 + v) as u8
    } else {
        (55 + v) as u8
    }
}

/// The two-digit uppercase hexadecimal rendering of one byte.
pub open spec fn hex2_of(b: u8) -> Seq<u8> {
    seq![hex_digit_of(b as int / 16), hex_digit_of(b as int % 16)]
}

/// The canonical decimal rendering of a number: no leading zeros.
pub open spec fn dec_of(n: int) -> Seq<u8>
    decreases n,
{
    if n < 10 {
        seq![(48 + if n >= 0 { n } else { 0 }) as u8]
    } else {
        dec_of(n / 10).push((48 + n % 10) as u8)
    }
}

/// The numeric value of a digit string.
pub open spec fn dec_val(s: Seq<u8>) -> int
    decreases s.len(),
{
    if s.len() == 0 {
        0
    } else {
        dec_val(s.drop_last()) * 10 + (s.last() - 48)
    }
}

/// Whether a token is a canonical decimal numeral: nonempty, all digits,
/// and without a leading zero unless it is exactly `0`.
pub open spec fn is_canon_dec(s: Seq<u8>) -> bool {
    &&& s.len() > 0
    &&& forall|i: int| 0 <= i < s.len() ==> is_digit(#[trigger] s[i])
    &&& (s.len() == 1 || s[0] != 48)
}

/// `dec_of` yields a canonical numeral whose value is the number itself.
pub proof fn lemma_dec_of_canon(n: int)
    requires
        n >= 0,
    ensures
        is_canon_dec(dec_of(n)),
        dec_val(dec_of(n)) == n,
        dec_of(n).len() >= 1,
        n >= 10 ==> dec_of(n)[0] != 48 && dec_of(n).len() >= 2,
    decreases n,
{
    if n < 10 {
        let s = dec_of(n);
        assert(s == seq![(48 + n) as u8]);
        assert(s.drop_last() =~= Seq::<u8>::empty());
        assert(dec_val(s.drop_last()) == 0);
        assert(dec_val(s) == s.last() - 48);
    } else {
        lemma_dec_of_canon(n / 10);
        let s = dec_of(n);
        let p = dec_of(n / 10);
        assert(n / 10 >= 1) by (nonlinear_arith)
            requires n >= 10;
        assert(p[0] != 48);
        assert(s == p.push((48 + n % 10) as u8));
        assert(s.drop_last() == p);
        assert(0 <= n % 10 < 10);
        assert(dec_val(s) == dec_val(p) * 10 + n % 10);
        assert(dec_val(p) * 10 + n % 10 == n) by {
            vstd::arithmetic::div_mod::lemma_fundamental_div_mod(n, 10);
        }
        assert(forall|i: int| 0 <= i < s.len() ==> is_digit(#[trigger] s[i]));
    }
}

/// A canonical numeral is reproduced exactly by rendering its value:
/// the canonical decimal representation is unique.
pub proof fn lemma_canon_dec_unique(s: Seq<u8>)
    requires
        is_canon_dec(s),
    ensures
        dec_val(s) >= 0,
        dec_of(dec_val(s)) == s,
    decreases s.len(),
{
    if s.len() == 1 {
        assert(s.drop_last() =~= Seq::<u8>::empty());
        assert(dec_val(s.drop_last()) == 0);
        assert(dec_val(s) == s[0] - 48);
        assert(dec_of(dec_val(s)) =~= s);
    } else {
        let p = s.drop_last();
        assert(is_canon_dec(p)) by {
            assert(forall|i: int| 0 <= i < p.len() ==> p[i] == s[i]);
        }
        lemma_canon_dec_unique(p);
        let d = s.last() - 48;
        let v = dec_val(s);
        assert(v == dec_val(p) * 10 + d);
        assert(dec_val(p) >= 1) by {
            if dec_val(p) == 0 {
                assert(dec_of(0) == seq![48u8]);
                assert(p == seq![48u8]);
                assert(s[0] == 48);
            }
        }
        assert(v >= 10 && v / 10 == dec_val(p) && v % 10 == d) by {
            vstd::arithmetic::div_mod::lemma_fundamental_div_mod_converse_div(
                v, 10, dec_val(p), d);
            vstd::arithmetic::div_mod::lemma_fundamental_div_mod_converse_mod(
                v, 10, dec_val(p), d);
        }
        assert(dec_of(v) == dec_of(dec_val(p)).push((48 + d) as u8));
        assert(dec_of(v) =~= s);
    }
}

/// The value of a digit string only grows as digits are appended.
pub proof fn lemma_dec_prefix_le(s: Seq<u8>, k: int)
    requires
        0 <= k <= s.len(),
        forall|i: int| 0 <= i < s.len() ==> is_digit(#[trigger] s[i]),
    ensures
        dec_val(s.take(k)) <= dec_val(s),
        dec_val(s) >= 0,
    decreases s.len() - k,
{
    if k == s.len() {
        assert(s.take(k) == s);
        lemma_dec_val_nonneg(s);
    } else {
        lemma_dec_prefix_le(s, k + 1);
        let a = s.take(k);
        let b = s.take(k + 1);
        assert(b.drop_last() =~= a);
        assert(dec_val(b) == dec_val(a) * 10 + (s[k] - 48));
        lemma_dec_val_nonneg(a);
    }
}

/// The ghost shape of a [`Request`]: the same variants over mathematical
/// values, which contracts and laws quantify over.
pub enum ReqView {
    /// `SIZE`.
    Size,
    /// `HELP` with its (possibly empty) topic bytes.
    Help(Seq<u8>),
    /// `PX <x> <y>`.
    PxGet(int, int),
    /// `PX <x> <y> <color>` with the optional ignored alpha channel.
    PxSet(int, int, Color, Option<u8>),
    /// `STATE <algorithm>`.
    State(StateEncodingAlgorithm),
    /// `SUBSCRIBE`.
    Subscribe,
    /// `UNSUBSCRIBE`.
    Unsubscribe,
}

impl View for Request {
    type V = ReqView;

    open spec fn view(&self) -> ReqView {
        match self {
            Request::Size => ReqView::Size,
            Request::Help(t) => ReqView::Help(t@),
            Request::PxGet(x, y) => ReqView::PxGet(*x as int, *y as int),
            Request::PxSet(x, y, c, a) => ReqView::PxSet(*x as int, *y as int, *c, *a),
            Request::State(alg) => ReqView::State(*alg),
            Request::Subscribe => ReqView::Subscribe,
            Request::Unsubscribe => ReqView::Unsubscribe,
        }
    }
}

/// The ghost shape of a [`Response`].
pub enum RespView {
    /// `SIZE <width> <height>`.
    Size(int, int),
    /// `PX <x> <y> <RRGGBB>`.
    Px(int, int, Color),
    /// `HELP <text>`.
    Help(Seq<u8>),
    /// `STATE <algorithm> <bytes>`.
    State(StateEncodingAlgorithm, Seq<u8>),
    /// `ERROR <description>`.
    Error(Seq<u8>),
}

impl View for Response {
    type V = RespView;

    open spec fn view(&self) -> RespView {
        match self {
            Response::Size(w, h) => RespView::Size(*w as int, *h as int),
            Response::Px(x, y, c) => RespView::Px(*x as int, *y as int, *c),
            Response::Help(t) => RespView::Help(t@),
            Response::State(alg, d) => RespView::State(*alg, d@),
            Response::Error(m) => RespView::Error(m@),
        }
    }
}

/// The bytes of the `SIZE` keyword.
pub open spec fn kw_size() -> Seq<u8> {
    seq![83u8, 73u8, 90u8, 69u8]
}

/// The bytes of the `HELP` keyword.
pub open spec fn kw_help() -> Seq<u8> {
    seq![72u8, 69u8, 76u8, 80u8]
}

/// `HELP` followed by the field separator.
pub open spec fn kw_help_sp() -> Seq<u8> {
    kw_help().push(32u8)
}

/// `PX` followed by the field separator.
pub open spec fn kw_px_sp() -> Seq<u8> {
    seq![80u8, 88u8, 32u8]
}

/// The bytes of the `SUBSCRIBE` keyword.
pub open spec fn kw_subscribe() -> Seq<u8> {
    seq![83u8, 85u8, 66u8, 83u8, 67u8, 82u8, 73u8, 66u8, 69u8]
}

/// The bytes of the `UNSUBSCRIBE` keyword.
pub open spec fn kw_unsubscribe() -> Seq<u8> {
    seq![85u8, 78u8] + kw_subscribe()
}

/// `STATE` followed by the field separator.
pub open spec fn kw_state_sp() -> Seq<u8> {
    seq![83u8, 84u8, 65u8, 84u8, 69u8, 32u8]
}

/// `ERROR` followed by the field separator.
pub open spec fn kw_error_sp() -> Seq<u8> {
    seq![69u8, 82u8, 82u8, 79u8, 82u8, 32u8]
}

/// The wire name of a snapshot encoding.
pub open spec fn alg_name(a: StateEncodingAlgorithm) -> Seq<u8> {
    match a {
        StateEncodingAlgorithm::Rgb64 => seq![82u8, 71u8, 66u8, 54u8, 52u8],
        StateEncodingAlgorithm::Rgba64 => seq![82u8, 71u8, 66u8, 65u8, 54u8, 52u8],
    }
}

/// The hexadecimal rendering of a color, with its alpha channel when one
/// was present on the wire.
pub open spec fn color_hex(c: Color, alpha: Option<u8>) -> Seq<u8> {
    match alpha {
        None => hex2_of(c.0) + hex2_of(c.1) + hex2_of(c.2),
        Some(a) => hex2_of(c.0) + hex2_of(c.1) + hex2_of(c.2) + hex2_of(a),
    }
}

/// The canonical line (without its newline) for a request: the exact bytes
/// a well-formed sender puts on the wire.
pub open spec fn request_line(rv: ReqView) -> Seq<u8> {
    match rv {
        ReqView::Size => kw_size(),
        ReqView::Help(t) => if t.len() == 0 {
            kw_help()
        } else {
            kw_help_sp() + t
        },
        ReqView::PxGet(x, y) => kw_px_sp() + dec_of(x) + seq![32u8] + dec_of(y),
        ReqView::PxSet(x, y, c, a) => kw_px_sp() + dec_of(x) + seq![32u8] + dec_of(y)
            + seq![32u8] + color_hex(c, a),
        ReqView::State(alg) => kw_state_sp() + alg_name(alg),
        ReqView::Subscribe => kw_subscribe(),
        ReqView::Unsubscribe => kw_unsubscribe(),
    }
}

/// Whether a request can be framed at all: coordinates fit the machine and
/// a help topic cannot smuggle a frame delimiter.
pub open spec fn request_valid(rv: ReqView) -> bool {
    match rv {
        ReqView::Help(t) => forall|i: int| 0 <= i < t.len() ==> t[i] != 10u8,
        ReqView::PxGet(x, y) => 0 <= x <= usize::MAX && 0 <= y <= usize::MAX,
        ReqView::PxSet(x, y, _c, _a) => 0 <= x <= usize::MAX && 0 <= y <= usize::MAX,
        _ => true,
    }
}

/// The line for a response, with every payload byte taken verbatim.
pub open spec fn response_line(rv: RespView) -> Seq<u8> {
    match rv {
        RespView::Size(w, h) => kw_size().push(32u8) + dec_of(w) + seq![32u8] + dec_of(h),
        RespView::Px(x, y, c) => kw_px_sp() + dec_of(x) + seq![32u8] + dec_of(y) + seq![32u8]
            + color_hex(c, None),
        RespView::Help(t) => kw_help_sp() + t,
        RespView::State(alg, d) => kw_state_sp() + alg_name(alg) + seq![32u8] + d,
        RespView::Error(m) => kw_error_sp() + m,
    }
}

/// Whether a token is an acceptable coordinate numeral.
pub open spec fn dec_token_ok(t: Seq<u8>) -> bool {
    is_canon_dec(t) && dec_val(t) <= usize::MAX
}

/// Whether a token is an acceptable color: six or eight uppercase
/// hexadecimal digits.
pub open spec fn hex_token_ok(t: Seq<u8>) -> bool {
    &&& (t.len() == 6 || t.len() == 8)
    &&& forall|i: int| 0 <= i < t.len() ==> is_hex_digit(#[trigger] t[i])
}

/// The byte encoded by the hexadecimal digit pair at `k`.
pub open spec fn hex_byte_at(t: Seq<u8>, k: int) -> u8 {
    (hex_val(t[k]) * 16 + hex_val(t[k + 1])) as u8
}

/// The color a hexadecimal token denotes.
pub open spec fn color_of_token(t: Seq<u8>) -> Color {
    Color(hex_byte_at(t, 0), hex_byte_at(t, 2), hex_byte_at(t, 4))
}

/// The alpha channel a hexadecimal token carries, if it has eight digits.
pub open spec fn alpha_of_token(t: Seq<u8>) -> Option<u8> {
    if t.len() == 8 {
        Some(hex_byte_at(t, 6))
    } else {
        None
    }
}

/// Decoding the arguments of a `PX` line (which starts with `PX `).
pub open spec fn parse_px(line: Seq<u8>) -> Option<ReqView> {
    match find_byte(line, 32u8, 3) {
        None => None,
        Some(i) => {
            let t1 = line.subrange(3, i);
            match find_byte(line, 32u8, i + 1) {
                None => {
                    let t2 = line.subrange(i + 1, line.len() as int);
                    if dec_token_ok(t1) && dec_token_ok(t2) {
                        Some(ReqView::PxGet(dec_val(t1), dec_val(t2)))
                    } else {
                        None
                    }
                },
                Some(j) => {
                    let t2 = line.subrange(i + 1, j);
                    let t3 = line.subrange(j + 1, line.len() as int);
                    if dec_token_ok(t1) && dec_token_ok(t2) && hex_token_ok(t3) {
                        Some(
                            ReqView::PxSet(
                                dec_val(t1),
                                dec_val(t2),
                                color_of_token(t3),
                                alpha_of_token(t3),
                            ),
                        )
                    } else {
                        None
                    }
                },
            }
        },
    }
}

/// How one complete line (without its newline) decodes, as a function of
/// its bytes; `None` is a malformed line.
pub open spec fn parse_line_spec(line: Seq<u8>) -> Option<ReqView> {
    if line == kw_size() {
        Some(ReqView::Size)
    } else if line == kw_help() {
        Some(ReqView::Help(Seq::empty()))
    } else if line.len() > 5 && line.subrange(0, 5) == kw_help_sp() {
        Some(ReqView::Help(line.skip(5)))
    } else if line == kw_subscribe() {
        Some(ReqView::Subscribe)
    } else if line == kw_unsubscribe() {
        Some(ReqView::Unsubscribe)
    } else if line == kw_state_sp() + alg_name(StateEncodingAlgorithm::Rgb64) {
        Some(ReqView::State(StateEncodingAlgorithm::Rgb64))
    } else if line == kw_state_sp() + alg_name(StateEncodingAlgorithm::Rgba64) {
        Some(ReqView::State(StateEncodingAlgorithm::Rgba64))
    } else if line.len() >= 3 && line.subrange(0, 3) == kw_px_sp() {
        parse_px(line)
    } else {
        None
    }
}

/// A digit string's value is nonnegative.
pub proof fn lemma_dec_val_nonneg(s: Seq<u8>)
    requires
        forall|i: int| 0 <= i < s.len() ==> is_digit(#[trigger] s[i]),
    ensures
        dec_val(s) >= 0,
    decreases s.len(),
{
    if s.len() > 0 {
        let p = s.drop_last();
        assert(forall|i: int| 0 <= i < p.len() ==> is_digit(#[trigger] p[i])) by {
            assert(forall|i: int| 0 <= i < p.len() ==> p[i] == s[i]);
        }
        lemma_dec_val_nonneg(p);
    }
}

/// The first occurrence of `b` in `s` at or after `from`.
fn find_byte_from(s: &[u8], b: u8, from: usize) -> (r: Option<usize>)
    requires
        from <= s@.len(),
    ensures
        match r {
            Some(i) => from <= i < s@.len() && find_byte(s@, b, from as int) == Some(i as int),
            None => find_byte(s@, b, from as int) is None,
        },
{
    let len = s.len();
    let mut i: usize = from;
    while i < len
        invariant
            from <= i <= len,
            len == s@.len(),
            find_byte(s@, b, from as int) == find_byte(s@, b, i as int),
        decreases len - i,
    {
        if s[i] == b {
            return Some(i);
        }
        i = i + 1;
    }
    None
}

/// Decodes the token `line[lo..hi]` as a canonical decimal coordinate.
fn parse_dec(line: &[u8], lo: usize, hi: usize) -> (r: Option<usize>)
    requires
        lo <= hi <= line@.len(),
    ensures
        ({
            let t = line@.subrange(lo as int, hi as int);
            match r {
                Some(v) => dec_token_ok(t) && v == dec_val(t),
                None => !dec_token_ok(t),
            }
        }),
{
    let ghost t = line@.subrange(lo as int, hi as int);
    if lo == hi {
        return None;
    }
    if line[lo] == 48 && hi - lo > 1 {
        return None;
    }
    let mut acc: usize = 0;
    let mut i: usize = lo;
    while i < hi
        invariant
            lo <= i <= hi <= line@.len(),
            t == line@.subrange(lo as int, hi as int),
            forall|m: int| lo <= m < i ==> is_digit(#[trigger] line@[m]),
            acc == dec_val(line@.subrange(lo as int, i as int)),
        decreases hi - i,
    {
        let b = line[i];
        if b < 48 || b > 57 {
            proof {
                assert(!is_digit(t[i - lo]));
            }
            return None;
        }
        let d = (b - 48) as usize;
        proof {
            let a = line@.subrange(lo as int, i as int);
            let bb = line@.subrange(lo as int, i as int + 1);
            assert(bb.drop_last() =~= a);
            assert(bb.last() == line@[i as int]);
            assert(dec_val(bb) == acc * 10 + d);
        }
        if acc > (usize::MAX - d) / 10 {
            proof {
                let m = (usize::MAX - d) as int;
                vstd::arithmetic::div_mod::lemma_fundamental_div_mod(m, 10);
                assert(acc * 10 > m) by (nonlinear_arith)
                    requires acc >= m / 10 + 1, m == 10 * (m / 10) + m % 10, 0 <= m % 10 < 10;
                if is_canon_dec(t) {
                    lemma_dec_prefix_le(t, i - lo + 1);
                    assert(t.take(i - lo + 1) =~= line@.subrange(lo as int, i as int + 1));
                }
            }
            return None;
        }
        proof {
            let m = (usize::MAX - d) as int;
            vstd::arithmetic::div_mod::lemma_fundamental_div_mod(m, 10);
            assert(acc * 10 <= m) by (nonlinear_arith)
                requires acc <= m / 10, m == 10 * (m / 10) + m % 10, 0 <= m % 10;
        }
        acc = acc * 10 + d;
        i = i + 1;
    }
    proof {
        assert(t =~= line@.subrange(lo as int, i as int));
        assert(is_canon_dec(t)) by {
            assert(forall|m: int| 0 <= m < t.len() ==> t[m] == line@[lo + m]);
        }
    }
    Some(acc)
}

/// The value of the hexadecimal digit pair at `k`.
fn hex_pair(line: &[u8], k: usize) -> (r: u8)
    requires
        k + 2 <= line@.len(),
        is_hex_digit(line@[k as int]),
        is_hex_digit(line@[k as int + 1]),
    ensures
        r == hex_byte_at(line@, k as int),
{
    let a = line[k];
    let b = line[k + 1];
    let va: u8 = if a <= 57 { a - 48 } else { a - 55 };
    let vb: u8 = if b <= 57 { b - 48 } else { b - 55 };
    va * 16 + vb
}

/// Decodes the token `line[lo..hi]` as a wire color with optional alpha.
fn parse_hex(line: &[u8], lo: usize, hi: usize) -> (r: Option<(Color, Option<u8>)>)
    requires
        lo <= hi <= line@.len(),
    ensures
        ({
            let t = line@.subrange(lo as int, hi as int);
            match r {
                Some(p) => hex_token_ok(t) && p.0 == color_of_token(t) && p.1 == alpha_of_token(t),
                None => !hex_token_ok(t),
            }
        }),
{
    let ghost t = line@.subrange(lo as int, hi as int);
    let len = hi - lo;
    if len != 6 && len != 8 {
        return None;
    }
    let mut i: usize = lo;
    while i < hi
        invariant
            lo <= i <= hi <= line@.len(),
            t == line@.subrange(lo as int, hi as int),
            t.len() == 6 || t.len() == 8,
            forall|m: int| lo <= m < i ==> is_hex_digit(#[trigger] line@[m]),
        decreases hi - i,
    {
        let b = line[i];
        if !((b >= 48 && b <= 57) || (b >= 65 && b <= 70)) {
            proof {
                assert(!is_hex_digit(t[i - lo]));
            }
            return None;
        }
        i = i + 1;
    }
    let c0 = hex_pair(line, lo);
    let c1 = hex_pair(line, lo + 2);
    let c2 = hex_pair(line, lo + 4);
    proof {
        assert(forall|m: int| 0 <= m < t.len() ==> t[m] == line@[lo + m]);
    }
    if len == 8 {
        let a = hex_pair(line, lo + 6);
        Some((Color(c0, c1, c2), Some(a)))
    } else {
        Some((Color(c0, c1, c2), None))
    }
}

/// A byte's hexadecimal rendering is two uppercase digits that decode
/// back to the byte.
pub proof fn lemma_hex2_of_byte(b: u8)
    ensures
        hex2_of(b).len() == 2,
        is_hex_digit(hex2_of(b)[0]),
        is_hex_digit(hex2_of(b)[1]),
        hex_val(hex2_of(b)[0]) * 16 + hex_val(hex2_of(b)[1]) == b,
{
    let v = b as int;
    lemma_multiply_divide_lt(v, 16, 16);
    lemma_div_pos_is_pos(v, 16);
    lemma_mod_bound(v, 16);
    lemma_fundamental_div_mod(v, 16);
}

/// Two hexadecimal digits are reproduced exactly by re-rendering the byte
/// they denote: the uppercase two-digit representation is unique.
pub proof fn lemma_hex_digits_unique(a: u8, b: u8)
    requires
        is_hex_digit(a),
        is_hex_digit(b),
    ensures
        hex2_of((hex_val(a) * 16 + hex_val(b)) as u8) == seq![a, b],
{
    let v = hex_val(a) * 16 + hex_val(b);
    assert(0 <= v < 256);
    lemma_fundamental_div_mod_converse_div(v, 16, hex_val(a), hex_val(b));
    lemma_fundamental_div_mod_converse_mod(v, 16, hex_val(a), hex_val(b));
    assert(hex2_of(v as u8) =~= seq![a, b]);
}

/// The keyword sequences spelled out byte by byte, for the parser's
/// branch-by-branch correspondence with the grammar.
proof fn lemma_kw_bytes()
    ensures
        kw_size().len() == 4,
        kw_size()[0] == 83 && kw_size()[1] == 73 && kw_size()[2] == 90 && kw_size()[3] == 69,
        kw_help().len() == 4,
        kw_help()[0] == 72 && kw_help()[1] == 69 && kw_help()[2] == 76 && kw_help()[3] == 80,
        kw_help_sp().len() == 5,
        kw_help_sp()[0] == 72 && kw_help_sp()[1] == 69 && kw_help_sp()[2] == 76 && kw_help_sp()[3]
            == 80 && kw_help_sp()[4] == 32,
        kw_px_sp().len() == 3,
        kw_px_sp()[0] == 80 && kw_px_sp()[1] == 88 && kw_px_sp()[2] == 32,
        kw_subscribe().len() == 9,
        kw_subscribe()[0] == 83 && kw_subscribe()[1] == 85 && kw_subscribe()[2] == 66
            && kw_subscribe()[3] == 83 && kw_subscribe()[4] == 67 && kw_subscribe()[5] == 82
            && kw_subscribe()[6] == 73 && kw_subscribe()[7] == 66 && kw_subscribe()[8] == 69,
        kw_unsubscribe().len() == 11,
        kw_unsubscribe()[0] == 85 && kw_unsubscribe()[1] == 78 && kw_unsubscribe()[2] == 83
            && kw_unsubscribe()[3] == 85 && kw_unsubscribe()[4] == 66 && kw_unsubscribe()[5] == 83
            && kw_unsubscribe()[6] == 67 && kw_unsubscribe()[7] == 82 && kw_unsubscribe()[8] == 73
            && kw_unsubscribe()[9] == 66 && kw_unsubscribe()[10] == 69,
        kw_state_sp().len() == 6,
        kw_state_sp()[0] == 83 && kw_state_sp()[1] == 84 && kw_state_sp()[2] == 65
            && kw_state_sp()[3] == 84 && kw_state_sp()[4] == 69 && kw_state_sp()[5] == 32,
        kw_error_sp().len() == 6,
        kw_error_sp()[0] == 69 && kw_error_sp()[1] == 82 && kw_error_sp()[2] == 82
            && kw_error_sp()[3] == 79 && kw_error_sp()[4] == 82 && kw_error_sp()[5] == 32,
        alg_name(StateEncodingAlgorithm::Rgb64).len() == 5,
        alg_name(StateEncodingAlgorithm::Rgb64) == seq![82u8, 71, 66, 54, 52],
        alg_name(StateEncodingAlgorithm::Rgba64).len() == 6,
        alg_name(StateEncodingAlgorithm::Rgba64) == seq![82u8, 71, 66, 65, 54, 52],
{
}

/// Decodes one complete line (without its newline) into a request.
pub fn parse_line(line: &[u8]) -> (r: Option<Request>)
    ensures
        match r {
            Some(req) => parse_line_spec(line@) == Some(req@),
            None => parse_line_spec(line@) is None,
        },
{
    proof {
        lemma_kw_bytes();
    }
    let n = line.len();
    if n == 4 && line[0] == 83 && line[1] == 73 && line[2] == 90 && line[3] == 69 {
        proof {
            assert(line@ =~= kw_size());
        }
        return Some(Request::Size);
    }
    if n == 4 && line[0] == 72 && line[1] == 69 && line[2] == 76 && line[3] == 80 {
        proof {
            assert(line@ =~= kw_help());
        }
        let topic: Vec<u8> = Vec::new();
        proof {
            assert(topic@ =~= Seq::<u8>::empty());
        }
        return Some(Request::Help(topic));
    }
    if n > 5 && line[0] == 72 && line[1] == 69 && line[2] == 76 && line[3] == 80 && line[4] == 32 {
        proof {
            assert(line@.subrange(0, 5) =~= kw_help_sp());
        }
        let topic = vstd::slice::slice_to_vec(vstd::slice::slice_subrange(line, 5, n));
        proof {
            assert(topic@ =~= line@.skip(5));
        }
        return Some(Request::Help(topic));
    }
    if n == 9 && line[0] == 83 && line[1] == 85 && line[2] == 66 && line[3] == 83 && line[4] == 67
        && line[5] == 82 && line[6] == 73 && line[7] == 66 && line[8] == 69 {
        proof {
            assert(line@ =~= kw_subscribe());
        }
        return Some(Request::Subscribe);
    }
    if n == 11 && line[0] == 85 && line[1] == 78 && line[2] == 83 && line[3] == 85 && line[4] == 66
        && line[5] == 83 && line[6] == 67 && line[7] == 82 && line[8] == 73 && line[9] == 66
        && line[10] == 69 {
        proof {
            assert(line@ =~= kw_unsubscribe());
        }
        return Some(Request::Unsubscribe);
    }
    if n == 11 && line[0] == 83 && line[1] == 84 && line[2] == 65 && line[3] == 84 && line[4] == 69
        && line[5] == 32 && line[6] == 82 && line[7] == 71 && line[8] == 66 && line[9] == 54
        && line[10] == 52 {
        proof {
            assert(line@ =~= kw_state_sp() + alg_name(StateEncodingAlgorithm::Rgb64));
        }
        return Some(Request::State(StateEncodingAlgorithm::Rgb64));
    }
    if n == 12 && line[0] == 83 && line[1] == 84 && line[2] == 65 && line[3] == 84 && line[4] == 69
        && line[5] == 32 && line[6] == 82 && line[7] == 71 && line[8] == 66 && line[9] == 65
        && line[10] == 54 && line[11] == 52 {
        proof {
            assert(line@ =~= kw_state_sp() + alg_name(StateEncodingAlgorithm::Rgba64));
        }
        return Some(Request::State(StateEncodingAlgorithm::Rgba64));
    }
    if n >= 3 && line[0] == 80 && line[1] == 88 && line[2] == 32 {
        proof {
            assert(line@.subrange(0, 3) =~= kw_px_sp());
        }
        match find_byte_from(line, 32, 3) {
            None => {
                return None;
            },
            Some(i) => {
                let x = parse_dec(line, 3, i);
                match find_byte_from(line, 32, i + 1) {
                    None => {
                        let y = parse_dec(line, i + 1, n);
                        proof {
                            assert(line@.subrange(i + 1, n as int) =~= line@.subrange(
                                i + 1,
                                line@.len() as int,
                            ));
                        }
                        match (x, y) {
                            (Some(xv), Some(yv)) => {
                                return Some(Request::PxGet(xv, yv));
                            },
                            _ => {
                                return None;
                            },
                        }
                    },
                    Some(j) => {
                        let y = parse_dec(line, i + 1, j);
                        let col = parse_hex(line, j + 1, n);
                        proof {
                            assert(line@.subrange(j + 1, n as int) =~= line@.subrange(
                                j + 1,
                                line@.len() as int,
                            ));
                        }
                        match (x, y, col) {
                            (Some(xv), Some(yv), Some(cv)) => {
                                return Some(Request::PxSet(xv, yv, cv.0, cv.1));
                            },
                            _ => {
                                return None;
                            },
                        }
                    },
                }
            },
        }
    }
    None
}

/// Decodes the leading complete frame of a buffer for which [`check`] has
/// confirmed completeness; the result depends on exactly the bytes `check`
/// reported, so the caller advances its buffer by that same count.
pub fn parse(buf: &[u8]) -> (r: Result<Request, FrameError>)
    requires
        spec_check(buf@) is Ok,
    ensures
        ({
            let n = spec_check(buf@).unwrap() as int;
            match r {
                Ok(req) => parse_line_spec(buf@.take(n - 1)) == Some(req@),
                Err(e) => e == FrameError::Malformed && parse_line_spec(buf@.take(n - 1)) is None,
            }
        }),
{
    let n = match check(buf) {
        Ok(n) => n,
        Err(_) => vstd::pervasive::unreached(),
    };
    let line = vstd::slice::slice_subrange(buf, 0, n - 1);
    proof {
        assert(line@ =~= buf@.take(n - 1));
    }
    match parse_line(line) {
        Some(req) => Ok(req),
        None => Err(FrameError::Malformed),
    }
}

/// Round trip, decode first: any line the parser accepts is a valid
/// request reproduced byte for byte by re-encoding it.
pub proof fn lemma_parse_then_encode(line: Seq<u8>, rv: ReqView)
    requires
        parse_line_spec(line) == Some(rv),
        forall|i: int| 0 <= i < line.len() ==> line[i] != 10u8,
    ensures
        request_valid(rv),
        request_line(rv) == line,
{
    lemma_kw_bytes();
    if line == kw_size() || line == kw_help() || line == kw_subscribe() || line
        == kw_unsubscribe() || line == kw_state_sp() + alg_name(StateEncodingAlgorithm::Rgb64)
        || line == kw_state_sp() + alg_name(StateEncodingAlgorithm::Rgba64) {
        assert(request_line(rv) == line);
    } else if line.len() > 5 && line.subrange(0, 5) == kw_help_sp() {
        let t = line.skip(5);
        assert(rv == ReqView::Help(t));
        assert(forall|i: int| 0 <= i < t.len() ==> t[i] == line[5 + i]);
        assert(kw_help_sp() + t =~= line);
    } else {
        let i = find_byte(line, 32u8, 3)->0;
        lemma_find_byte_spec(line, 32u8, 3);
        let t1 = line.subrange(3, i);
        lemma_canon_dec_unique(t1);
        lemma_find_byte_spec(line, 32u8, i + 1);
        match find_byte(line, 32u8, i + 1) {
            None => {
                let t2 = line.subrange(i + 1, line.len() as int);
                lemma_canon_dec_unique(t2);
                assert(kw_px_sp() + t1 + seq![32u8] + t2 =~= line);
            },
            Some(j) => {
                let t2 = line.subrange(i + 1, j);
                let t3 = line.subrange(j + 1, line.len() as int);
                lemma_canon_dec_unique(t2);
                lemma_hex_digits_unique(t3[0], t3[1]);
                lemma_hex_digits_unique(t3[2], t3[3]);
                lemma_hex_digits_unique(t3[4], t3[5]);
                if t3.len() == 8 {
                    lemma_hex_digits_unique(t3[6], t3[7]);
                    assert(color_hex(color_of_token(t3), alpha_of_token(t3)) =~= t3);
                } else {
                    assert(color_hex(color_of_token(t3), alpha_of_token(t3)) =~= t3);
                }
                assert(kw_px_sp() + t1 + seq![32u8] + t2 + seq![32u8] + color_hex(
                    color_of_token(t3),
                    alpha_of_token(t3),
                ) =~= line);
            },
        }
    }
}

/// Round trip, encode first: every valid request's canonical line parses
/// back to exactly that request.
/// The `PX <x> <y>` case of the encode-then-parse round trip.
#[verifier::rlimit(60)]
#[verifier::spinoff_prover]
proof fn lemma_etp_px_get(x: int, y: int)
    requires
        0 <= x <= usize::MAX,
        0 <= y <= usize::MAX,
    ensures
        parse_line_spec(request_line(ReqView::PxGet(x, y))) == Some(ReqView::PxGet(x, y)),
{
    lemma_kw_bytes();
    let rv = ReqView::PxGet(x, y);
    let line = request_line(rv);

            lemma_dec_of_canon(x);
            lemma_dec_of_canon(y);
            let dx = dec_of(x);
            let dy = dec_of(y);
            let i = 3 + dx.len() as int;
            assert(line.subrange(0, 3) =~= kw_px_sp());
            assert(line[i] == 32);
            assert(forall|m: int| 3 <= m < i ==> is_digit(#[trigger] line[m]) && line[m] != 32)
                by {
                assert(forall|m: int| 3 <= m < i ==> line[m] == dx[m - 3]);
            }
            lemma_find_byte_at(line, 32u8, 3, i);
            assert(forall|m: int|
                i + 1 <= m < line.len() ==> is_digit(#[trigger] line[m]) && line[m] != 32) by {
                assert(forall|m: int| i + 1 <= m < line.len() ==> line[m] == dy[m - i - 1]);
            }
            lemma_find_byte_spec(line, 32u8, i + 1);
            assert(find_byte(line, 32u8, i + 1) is None);
            assert(line.subrange(3, i) =~= dx);
            assert(line.subrange(i + 1, line.len() as int) =~= dy);
            assert(parse_px(line) == Some(rv));
            assert(line[0] == 80 && line.len() > 5);
            assert(line.subrange(0, 5)[0] == 80 && kw_help_sp()[0] == 72);
            assert(parse_line_spec(line) == Some(rv));
        }

/// The `PX <x> <y> <color>` case of the encode-then-parse round trip.
#[verifier::rlimit(60)]
#[verifier::spinoff_prover]
proof fn lemma_etp_px_set(x: int, y: int, c: Color, a: Option<u8>)
    requires
        0 <= x <= usize::MAX,
        0 <= y <= usize::MAX,
    ensures
        parse_line_spec(request_line(ReqView::PxSet(x, y, c, a))) == Some(
            ReqView::PxSet(x, y, c, a),
        ),
{
    lemma_kw_bytes();
    let rv = ReqView::PxSet(x, y, c, a);
    let line = request_line(rv);

            lemma_dec_of_canon(x);
            lemma_dec_of_canon(y);
            lemma_hex2_of_byte(c.0);
            lemma_hex2_of_byte(c.1);
            lemma_hex2_of_byte(c.2);
            let dx = dec_of(x);
            let dy = dec_of(y);
            let t3 = color_hex(c, a);
            let i = 3 + dx.len() as int;
            let j = i + 1 + dy.len() as int;
            assert(line.subrange(0, 3) =~= kw_px_sp());
            assert(t3.len() == if a is Some { 8int } else { 6int });
            assert(forall|m: int| 0 <= m < t3.len() ==> is_hex_digit(#[trigger] t3[m])) by {
                if a is Some {
                    lemma_hex2_of_byte(a->0);
                }
                assert forall|m: int| 0 <= m < t3.len() implies is_hex_digit(#[trigger] t3[m]) by {
                    if m < 2 {
                        assert(t3[m] == hex2_of(c.0)[m]);
                    } else if m < 4 {
                        assert(t3[m] == hex2_of(c.1)[m - 2]);
                    } else if m < 6 {
                        assert(t3[m] == hex2_of(c.2)[m - 4]);
                    } else {
                        assert(t3[m] == hex2_of(a->0)[m - 6]);
                    }
                }
            }
            assert(line[i] == 32);
            assert(line[j] == 32);
            assert(forall|m: int| 3 <= m < i ==> is_digit(#[trigger] line[m]) && line[m] != 32)
                by {
                assert(forall|m: int| 3 <= m < i ==> line[m] == dx[m - 3]);
            }
            lemma_find_byte_at(line, 32u8, 3, i);
            assert(forall|m: int| i + 1 <= m < j ==> is_digit(#[trigger] line[m]) && line[m] != 32)
                by {
                assert(forall|m: int| i + 1 <= m < j ==> line[m] == dy[m - i - 1]);
            }
            lemma_find_byte_at(line, 32u8, i + 1, j);
            assert(line.subrange(3, i) =~= dx);
            assert(line.subrange(i + 1, j) =~= dy);
            assert(line.subrange(j + 1, line.len() as int) =~= t3);
            lemma_canon_dec_unique(dx);
            lemma_canon_dec_unique(dy);
            assert(hex_byte_at(t3, 0) == c.0 && hex_byte_at(t3, 2) == c.1 && hex_byte_at(t3, 4)
                == c.2) by {
                assert(t3[0] == hex2_of(c.0)[0] && t3[1] == hex2_of(c.0)[1]);
                assert(t3[2] == hex2_of(c.1)[0] && t3[3] == hex2_of(c.1)[1]);
                assert(t3[4] == hex2_of(c.2)[0] && t3[5] == hex2_of(c.2)[1]);
            }
            if a is Some {
                lemma_hex2_of_byte(a->0);
                assert(t3[6] == hex2_of(a->0)[0] && t3[7] == hex2_of(a->0)[1]);
                assert(hex_byte_at(t3, 6) == a->0);
            }
            assert(color_of_token(t3) == c);
            assert(alpha_of_token(t3) == a);
            assert(parse_px(line) == Some(rv));
            assert(line[0] == 80 && line.len() > 5);
            assert(line.subrange(0, 5)[0] == 80 && kw_help_sp()[0] == 72);
            assert(parse_line_spec(line) == Some(rv));}

/// Round trip, encode first: every valid request's canonical line parses
/// back to exactly that request.
#[verifier::rlimit(60)]
#[verifier::spinoff_prover]
pub proof fn lemma_encode_then_parse(rv: ReqView)
    requires
        request_valid(rv),
    ensures
        parse_line_spec(request_line(rv)) == Some(rv),
{
    lemma_kw_bytes();
    let line = request_line(rv);
    match rv {
        ReqView::Size => {
            assert(parse_line_spec(line) == Some(rv));
        },
        ReqView::Subscribe => {
            assert(line[0] == 83 && kw_help_sp()[0] == 72);
            assert(parse_line_spec(line) == Some(rv));
        },
        ReqView::Unsubscribe => {
            assert(line[0] == 85 && kw_help_sp()[0] == 72);
            assert(parse_line_spec(line) == Some(rv));
        },
        ReqView::State(alg) => {
            match alg {
                StateEncodingAlgorithm::Rgb64 => {
                    assert(line.len() == 11);
                    assert(line[0] == 83);
                    assert(parse_line_spec(line) == Some(rv));
                },
                StateEncodingAlgorithm::Rgba64 => {
                    assert(line.len() == 12);
                    assert(line[0] == 83);
                    assert(parse_line_spec(line) == Some(rv));
                },
            }
        },
        ReqView::Help(t) => {
            if t.len() == 0 {
                assert(t =~= Seq::<u8>::empty());
                assert(parse_line_spec(line) == Some(rv));
            } else {
                assert(line.len() > 5);
                assert(line[0] == 72);
                assert(line.subrange(0, 5) =~= kw_help_sp());
                assert(line.skip(5) =~= t);
                assert(parse_line_spec(line) == Some(rv));
            }
        },
        ReqView::PxGet(x, y) => {
            lemma_etp_px_get(x, y);
        },
        ReqView::PxSet(x, y, c, a) => {
            lemma_etp_px_set(x, y, c, a);
        },
    }
}
/// Appends every byte of a slice.
fn push_all(out: &mut Vec<u8>, s: &[u8])
    ensures
        final(out)@ == old(out)@ + s@,
{
    let len = s.len();
    let mut i: usize = 0;
    while i < len
        invariant
            0 <= i <= len,
            len == s@.len(),
            out@ == old(out)@ + s@.take(i as int),
        decreases len - i,
    {
        out.push(s[i]);
        proof {
            assert(old(out)@ + s@.take(i as int) + seq![s@[i as int]] =~= old(out)@ + s@.take(
                i + 1,
            ));
        }
        i = i + 1;
    }
    proof {
        assert(s@.take(len as int) =~= s@);
    }
}

/// Appends the canonical decimal numeral of `n`.
fn push_dec(out: &mut Vec<u8>, n: usize)
    ensures
        final(out)@ == old(out)@ + dec_of(n as int),
    decreases n,
{
    if n < 10 {
        out.push(48 + n as u8);
        proof {
            assert(old(out)@.push((48 + n as int) as u8) =~= old(out)@ + dec_of(n as int));
        }
    } else {
        proof {
            assert(n / 10 < n) by (nonlinear_arith)
                requires n >= 10;
        }
        push_dec(out, n / 10);
        out.push(48 + (n % 10) as u8);
        proof {
            assert(old(out)@ + dec_of(n as int / 10) + seq![(48 + n as int % 10) as u8]
                =~= old(out)@ + dec_of(n as int));
        }
    }
}

/// Appends the two uppercase hexadecimal digits of one byte.
fn push_hex2(out: &mut Vec<u8>, b: u8)
    ensures
        final(out)@ == old(out)@ + hex2_of(b),
{
    let hi = b / 16;
    let lo = b % 16;
    let d1: u8 = if hi < 10 { 48 + hi } else { 55 + hi };
    let d2: u8 = if lo < 10 { 48 + lo } else { 55 + lo };
    out.push(d1);
    out.push(d2);
    proof {
        assert(old(out)@.push(d1).push(d2) =~= old(out)@ + hex2_of(b));
    }
}

/// Serializes a request into the exact canonical wire bytes of its line,
/// newline included.
pub fn encode_request(req: &Request) -> (r: Vec<u8>)
    ensures
        r@ == request_line(req@).push(10u8),
{
    let mut out: Vec<u8> = Vec::new();
    match req {
        Request::Size => {
            out.push(83);
            out.push(73);
            out.push(90);
            out.push(69);
            proof {
                assert(out@ =~= request_line(req@));
            }
        },
        Request::Help(t) => {
            out.push(72);
            out.push(69);
            out.push(76);
            out.push(80);
            if t.len() > 0 {
                out.push(32);
                push_all(&mut out, t.as_slice());
            }
            proof {
                assert(out@ =~= request_line(req@));
            }
        },
        Request::PxGet(x, y) => {
            out.push(80);
            out.push(88);
            out.push(32);
            push_dec(&mut out, *x);
            out.push(32);
            push_dec(&mut out, *y);
            proof {
                assert(out@ =~= request_line(req@));
            }
        },
        Request::PxSet(x, y, c, a) => {
            out.push(80);
            out.push(88);
            out.push(32);
            push_dec(&mut out, *x);
            out.push(32);
            push_dec(&mut out, *y);
            out.push(32);
            push_hex2(&mut out, c.0);
            push_hex2(&mut out, c.1);
            push_hex2(&mut out, c.2);
            match a {
                Some(av) => {
                    push_hex2(&mut out, *av);
                },
                None => {},
            }
            proof {
                assert(out@ =~= request_line(req@));
            }
        },
        Request::State(alg) => {
            out.push(83);
            out.push(84);
            out.push(65);
            out.push(84);
            out.push(69);
            out.push(32);
            out.push(82);
            out.push(71);
            out.push(66);
            match alg {
                StateEncodingAlgorithm::Rgb64 => {},
                StateEncodingAlgorithm::Rgba64 => {
                    out.push(65);
                },
            }
            out.push(54);
            out.push(52);
            proof {
                lemma_kw_bytes();
                assert(out@ =~= request_line(req@));
            }
        },
        Request::Subscribe => {
            out.push(83);
            out.push(85);
            out.push(66);
            out.push(83);
            out.push(67);
            out.push(82);
            out.push(73);
            out.push(66);
            out.push(69);
            proof {
                assert(out@ =~= request_line(req@));
            }
        },
        Request::Unsubscribe => {
            out.push(85);
            out.push(78);
            out.push(83);
            out.push(85);
            out.push(66);
            out.push(83);
            out.push(67);
            out.push(82);
            out.push(73);
            out.push(66);
            out.push(69);
            proof {
                assert(out@ =~= request_line(req@));
            }
        },
    }
    out.push(10);
    out
}

/// Serializes a response into its wire bytes, newline included; payload
/// bytes are taken verbatim.
pub fn encode(resp: &Response) -> (r: Vec<u8>)
    ensures
        r@ == response_line(resp@).push(10u8),
{
    let mut out: Vec<u8> = Vec::new();
    match resp {
        Response::Size(w, h) => {
            out.push(83);
            out.push(73);
            out.push(90);
            out.push(69);
            out.push(32);
            push_dec(&mut out, *w);
            out.push(32);
            push_dec(&mut out, *h);
            proof {
                assert(out@ =~= response_line(resp@));
            }
        },
        Response::Px(x, y, c) => {
            out.push(80);
            out.push(88);
            out.push(32);
            push_dec(&mut out, *x);
            out.push(32);
            push_dec(&mut out, *y);
            out.push(32);
            push_hex2(&mut out, c.0);
            push_hex2(&mut out, c.1);
            push_hex2(&mut out, c.2);
            proof {
                assert(out@ =~= response_line(resp@));
            }
        },
        Response::Help(t) => {
            out.push(72);
            out.push(69);
            out.push(76);
            out.push(80);
            out.push(32);
            push_all(&mut out, t.as_slice());
            proof {
                assert(out@ =~= response_line(resp@));
            }
        },
        Response::State(alg, d) => {
            out.push(83);
            out.push(84);
            out.push(65);
            out.push(84);
            out.push(69);
            out.push(32);
            out.push(82);
            out.push(71);
            out.push(66);
            match alg {
                StateEncodingAlgorithm::Rgb64 => {},
                StateEncodingAlgorithm::Rgba64 => {
                    out.push(65);
                },
            }
            out.push(54);
            out.push(52);
            out.push(32);
            push_all(&mut out, d.as_slice());
            proof {
                lemma_kw_bytes();
                assert(out@ =~= response_line(resp@));
            }
        },
        Response::Error(m) => {
            out.push(69);
            out.push(82);
            out.push(82);
            out.push(79);
            out.push(82);
            out.push(32);
            push_all(&mut out, m.as_slice());
            proof {
                assert(out@ =~= response_line(resp@));
            }
        },
    }
    out.push(10);
    out
}

} // verus!
