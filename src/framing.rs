//! Content-Length framing of JSON-RPC messages on a byte stream.
//!
//! A frame is a header block of CRLF-separated lines ended by an empty line,
//! then exactly as many body bytes as its `Content-Length` header declares.
//! The decoder is described by `scan`, which splits a byte stream into the
//! items it holds and what is left over; `FrameReader` computes it
//! incrementally over chunks as they arrive.

use vstd::prelude::*;
use crate::bytes::{copy_range, push_all};
use crate::decimal::{decimal, lemma_decimal_digits, lemma_decimal_len, push_decimal};
use crate::header::{
    ascii_lower, content_length_key, key_byte, lower,
    colon_from, declared_length, declared_length_of, is_blank,
    is_content_length_key, line_end_from, trim_end, trim_start,
};

verus! {

/// How many bytes the reader searches for the end of a header block before
/// it declares the stream unrecoverable.
pub const MAX_HEADER_BYTES: usize = 2097152;

/// What the decoder takes out of the stream, as a mathematical value.
pub enum FrameItem {
    /// A complete body.
    Message(Seq<u8>),
    /// A header block without a usable `Content-Length`; it is skipped.
    FramingError,
}

/// One decoding step at the start of a stream.
pub enum Step {
    /// More bytes are needed.
    Incomplete,
    /// An item, and how many bytes it took.
    Item(FrameItem, int),
    /// No header block ends within `MAX_HEADER_BYTES`.
    Unrecoverable,
}

/// Whether CR LF CR LF starts at `i`.
pub open spec fn blank_line_at(s: Seq<u8>, i: int) -> bool {
    0 <= i && i + 4 <= s.len() && s[i] == 13 && s[i + 1] == 10 && s[i + 2] == 13 && s[i + 3]
        == 10
}

/// The first `CRLFCRLF` at or after `i` that ends within the header budget.
pub open spec fn header_end_from(s: Seq<u8>, i: int) -> Option<int>
    decreases s.len() - i,
{
    if i < 0 || i + 4 > s.len() || i + 4 > MAX_HEADER_BYTES {
        None
    } else if blank_line_at(s, i) {
        Some(i)
    } else {
        header_end_from(s, i + 1)
    }
}

/// Whether a header line `Content-Length:` (in any mix of cases) starts
/// at `i`.
pub open spec fn marker_at(s: Seq<u8>, i: int) -> bool {
    0 <= i && i + 15 <= s.len() && is_content_length_key(s.subrange(i, i + 14)) && s[i + 14] == 58
}

/// The first `Content-Length:` line that starts at or after `i` and before
/// `limit`.
pub open spec fn marker_from(s: Seq<u8>, i: int, limit: int) -> Option<int>
    decreases s.len() - i,
{
    if i < 0 || i + 15 > s.len() || i >= limit {
        None
    } else if marker_at(s, i) {
        Some(i)
    } else {
        marker_from(s, i + 1, limit)
    }
}

/// After a header block without a usable length that ends at `from`: the
/// reader skips to the next `Content-Length:` line within the header
/// budget, and gives up when there is none.
pub open spec fn resync(s: Seq<u8>, from: int) -> Step {
    match marker_from(s, from, from + MAX_HEADER_BYTES) {
        Some(m) => Step::Item(FrameItem::FramingError, m),
        None => if s.len() >= from + MAX_HEADER_BYTES + 14 {
            Step::Unrecoverable
        } else {
            Step::Incomplete
        },
    }
}

/// The decoding step at the start of `s`.
pub open spec fn step(s: Seq<u8>) -> Step {
    match header_end_from(s, 0) {
        Some(h) => match declared_length(s.take(h)) {
            None => resync(s, h + 4),
            Some(n) => if h + 4 + n <= s.len() {
                Step::Item(FrameItem::Message(s.subrange(h + 4, h + 4 + n)), h + 4 + n)
            } else {
                Step::Incomplete
            },
        },
        None => if s.len() >= MAX_HEADER_BYTES {
            Step::Unrecoverable
        } else {
            Step::Incomplete
        },
    }
}

/// The items at the start of `s`, and the bytes left over for a frame not
/// yet complete; `None` in place of the rest when the stream turned out to be
/// unrecoverable.
pub open spec fn scan(s: Seq<u8>) -> (Seq<FrameItem>, Option<Seq<u8>>)
    decreases s.len(),
{
    match step(s) {
        Step::Incomplete => (Seq::empty(), Some(s)),
        Step::Unrecoverable => (Seq::empty(), None),
        Step::Item(e, n) => if 0 < n <= s.len() {
            let (es, r) = scan(s.skip(n));
            (seq![e] + es, r)
        } else {
            (Seq::empty(), None)
        },
    }
}

/// What feeding `t` does after `scan(s)`: the reader's state after `s` is
/// the left-over bytes, or dead.
pub open spec fn continue_scan(prev: (Seq<FrameItem>, Option<Seq<u8>>), t: Seq<u8>) -> (
    Seq<FrameItem>,
    Option<Seq<u8>>,
) {
    match prev.1 {
        None => prev,
        Some(r) => (prev.0 + scan(r + t).0, scan(r + t).1),
    }
}

/// The bytes `Content-Length: ` in front of the length.
pub open spec fn header_prefix() -> Seq<u8> {
    seq![67u8, 111, 110, 116, 101, 110, 116, 45, 76, 101, 110, 103, 116, 104, 58, 32]
}

/// The frame of a payload: its header block, then the payload itself.
pub open spec fn frame_of(p: Seq<u8>) -> Seq<u8> {
    header_prefix() + decimal(p.len()) + seq![13u8, 10, 13, 10] + p
}

// ---------------------------------------------------------------------------
// Proofs

proof fn lemma_header_end_extend(s: Seq<u8>, t: Seq<u8>, i: int)
    requires
        0 <= i,
        header_end_from(s, i) is Some || s.len() >= MAX_HEADER_BYTES,
    ensures
        header_end_from(s + t, i) == header_end_from(s, i),
    decreases s.len() - i,
{
    let st = s + t;
    if i + 4 > s.len() || i + 4 > MAX_HEADER_BYTES {
    } else {
        assert(st[i] == s[i] && st[i + 1] == s[i + 1] && st[i + 2] == s[i + 2] && st[i + 3]
            == s[i + 3]);
        if !blank_line_at(s, i) {
            lemma_header_end_extend(s, t, i + 1);
        }
    }
}

/// A step that is decided on `s` stays the same whatever follows `s`.
pub proof fn lemma_step_extend(s: Seq<u8>, t: Seq<u8>)
    requires
        !(step(s) is Incomplete),
    ensures
        step(s + t) == step(s),
{
    lemma_header_end_extend(s, t, 0);
    let st = s + t;
    match header_end_from(s, 0) {
        Some(h) => {
            lemma_header_end_bounds(s, 0);
            assert(st.take(h) =~= s.take(h));
            match declared_length(s.take(h)) {
                None => {
                    lemma_marker_extend(s, t, h + 4, h + 4 + MAX_HEADER_BYTES);
                },
                Some(n) => {
                    assert(st.subrange(h + 4, h + 4 + n) =~= s.subrange(h + 4, h + 4 + n));
                },
            }
        },
        None => {},
    }
}

proof fn lemma_marker_extend(s: Seq<u8>, t: Seq<u8>, i: int, limit: int)
    requires
        0 <= i,
        marker_from(s, i, limit) is Some || s.len() >= limit + 14,
    ensures
        marker_from(s + t, i, limit) == marker_from(s, i, limit),
    decreases s.len() - i,
{
    let st = s + t;
    if i + 15 > s.len() || i >= limit {
    } else {
        assert(st.subrange(i, i + 14) =~= s.subrange(i, i + 14));
        assert(st[i + 14] == s[i + 14]);
        if !marker_at(s, i) {
            lemma_marker_extend(s, t, i + 1, limit);
        }
    }
}

proof fn lemma_marker_bounds(s: Seq<u8>, i: int, limit: int)
    requires
        0 <= i,
    ensures
        marker_from(s, i, limit) matches Some(m) ==> i <= m && m + 15 <= s.len() && m < limit,
    decreases s.len() - i,
{
    if !(i + 15 > s.len() || i >= limit) && !marker_at(s, i) {
        lemma_marker_bounds(s, i + 1, limit);
    }
}

proof fn lemma_header_end_bounds(s: Seq<u8>, i: int)
    requires
        0 <= i,
    ensures
        header_end_from(s, i) matches Some(h) ==> i <= h && h + 4 <= s.len() && h + 4
            <= MAX_HEADER_BYTES && blank_line_at(s, h),
    decreases s.len() - i,
{
    if !(i + 4 > s.len() || i + 4 > MAX_HEADER_BYTES) && !blank_line_at(s, i) {
        lemma_header_end_bounds(s, i + 1);
    }
}

proof fn lemma_step_bounds(s: Seq<u8>)
    ensures
        step(s) matches Step::Item(_, n) ==> 0 < n <= s.len(),
{
    lemma_header_end_bounds(s, 0);
    if let Some(h) = header_end_from(s, 0) {
        lemma_marker_bounds(s, h + 4, h + 4 + MAX_HEADER_BYTES);
    }
}

/// Decoding `s + t` is decoding `s`, then carrying on from what `s` left
/// over with `t`.
pub proof fn lemma_scan_split(s: Seq<u8>, t: Seq<u8>)
    ensures
        scan(s + t) == continue_scan(scan(s), t),
    decreases s.len(),
{
    lemma_header_end_bounds(s, 0);
    lemma_step_bounds(s);
    match step(s) {
        Step::Incomplete => {
            assert(scan(s) == (Seq::<FrameItem>::empty(), Some(s)));
            assert(Seq::<FrameItem>::empty() + scan(s + t).0 =~= scan(s + t).0);
            assert(scan(s + t) == continue_scan(scan(s), t));
        },
        Step::Unrecoverable => {
            lemma_step_extend(s, t);
            assert(scan(s + t) == continue_scan(scan(s), t));
        },
        Step::Item(e, n) => {
            lemma_step_extend(s, t);
            if 0 < n <= s.len() {
                assert((s + t).skip(n) =~= s.skip(n) + t);
                lemma_scan_split(s.skip(n), t);
                let (es, r) = scan(s.skip(n));
                assert(scan(s) == (seq![e] + es, r));
                assert(scan(s + t) == (seq![e] + scan(s.skip(n) + t).0, scan(s.skip(n) + t).1));
                match r {
                    None => {
                        assert(scan(s + t) == continue_scan(scan(s), t));
                    },
                    Some(rr) => {
                        assert(seq![e] + es + scan(rr + t).0 =~= seq![e] + (es + scan(
                            rr + t,
                        ).0));
                        assert(scan(s + t) == continue_scan(scan(s), t));
                    },
                }
            }
        },
    }
}

/// The outcome of feeding `chunks` one after the other to a reader that has
/// reached `state`.
pub open spec fn feed_chunks(
    state: (Seq<FrameItem>, Option<Seq<u8>>),
    chunks: Seq<Seq<u8>>,
) -> (Seq<FrameItem>, Option<Seq<u8>>)
    decreases chunks.len(),
{
    if chunks.len() == 0 {
        state
    } else {
        feed_chunks(continue_scan(state, chunks[0]), chunks.drop_first())
    }
}

proof fn lemma_feed_chunks_from(s: Seq<u8>, chunks: Seq<Seq<u8>>)
    ensures
        feed_chunks(scan(s), chunks) == scan(s + chunks.flatten()),
    decreases chunks.len(),
{
    if chunks.len() == 0 {
        assert(s + chunks.flatten() =~= s);
    } else {
        lemma_scan_split(s, chunks[0]);
        lemma_feed_chunks_from(s + chunks[0], chunks.drop_first());
        assert(s + chunks[0] + chunks.drop_first().flatten() =~= s + chunks.flatten());
    }
}

/// A stream split into chunks at any boundaries, fed to a fresh reader one
/// chunk after the other, gives the same items and the same final state as
/// the whole stream fed at once.
pub proof fn lemma_any_chunking(chunks: Seq<Seq<u8>>)
    ensures
        feed_chunks((Seq::empty(), Some(Seq::empty())), chunks) == scan(chunks.flatten()),
{
    assert(step(Seq::<u8>::empty()) is Incomplete);
    assert(scan(Seq::<u8>::empty()) == (Seq::<FrameItem>::empty(), Some(Seq::<u8>::empty())));
    lemma_feed_chunks_from(Seq::empty(), chunks);
    assert(Seq::<u8>::empty() + chunks.flatten() =~= chunks.flatten());
}

proof fn lemma_prefix_has_no_blank_line(n: nat)
    ensures
        forall|i: int|
            0 <= i && i + 4 <= header_prefix().len() + decimal(n).len() ==> !blank_line_at(
                #[trigger] (header_prefix() + decimal(n)),
                i,
            ),
{
    lemma_decimal_digits(n);
    let h = header_prefix() + decimal(n);
    assert forall|i: int| 0 <= i && i + 4 <= h.len() implies !blank_line_at(h, i) by {
        if i < 16 {
            assert(h[i] == header_prefix()[i]);
        } else {
            assert(h[i] == decimal(n)[i - 16]);
        }
    }
}

/// Decoding the frame of a payload gives back exactly that payload, and
/// leaves nothing over.
pub proof fn lemma_frame_round_trip(p: Seq<u8>)
    requires
        p.len() <= usize::MAX,
    ensures
        scan(frame_of(p)) == (seq![FrameItem::Message(p)], Some(Seq::<u8>::empty())),
{
    let n: nat = p.len();
    let d = decimal(n);
    lemma_decimal_digits(n);
    lemma_decimal_len(n);
    let f = frame_of(p);
    let hl: int = 16 + d.len() as int;
    lemma_prefix_has_no_blank_line(n);
    let h = header_prefix() + d;
    assert(f.take(hl) =~= h);
    assert forall|i: int| 0 <= i && i + 4 <= hl implies !blank_line_at(f, i) by {
        assert(!blank_line_at(h, i));
        assert(f[i] == h[i] && f[i + 1] == h[i + 1] && f[i + 2] == h[i + 2]);
        if i + 4 <= h.len() {
            assert(f[i + 3] == h[i + 3]);
        }
    }
    assert(blank_line_at(f, hl));
    lemma_header_end_scan(f, 0, hl);
    lemma_declared_length_of_frame_header(n);
    assert(f.subrange(hl + 4, hl + 4 + n as int) =~= p);
    assert(f.skip(hl + 4 + n as int) =~= Seq::<u8>::empty());
    assert(step(f) == Step::Item(FrameItem::Message(p), hl + 4 + n as int));
    assert(step(Seq::<u8>::empty()) is Incomplete);
    assert(scan(Seq::<u8>::empty()) == (Seq::<FrameItem>::empty(), Some(Seq::<u8>::empty())));
    assert(seq![FrameItem::Message(p)] + Seq::<FrameItem>::empty() =~= seq![FrameItem::Message(p)]);
}

proof fn lemma_header_end_scan(s: Seq<u8>, i: int, h: int)
    requires
        0 <= i <= h,
        h + 4 <= MAX_HEADER_BYTES,
        blank_line_at(s, h),
        forall|j: int| i <= j < h ==> !blank_line_at(s, j),
    ensures
        header_end_from(s, i) == Some(h),
    decreases h - i,
{
    if i < h {
        lemma_header_end_scan(s, i + 1, h);
    }
}

proof fn lemma_declared_length_of_frame_header(n: nat)
    requires
        n <= usize::MAX,
    ensures
        declared_length(header_prefix() + decimal(n)) == Some(n as usize),
{
    let d = decimal(n);
    lemma_decimal_digits(n);
    let h = header_prefix() + d;
    assert forall|i: int| 0 <= i < h.len() implies h[i] != 13 by {
        if i >= 16 {
            assert(h[i] == d[i - 16]);
        }
    }
    lemma_no_crlf(h, 0);
    assert(h.take(h.len() as int) =~= h);
    assert(h.take(16) =~= header_prefix());
    lemma_colon_at(h);
    assert(h.take(14) =~= seq![67u8, 111, 110, 116, 101, 110, 116, 45, 76, 101, 110, 103, 116, 104]);
    assert(is_content_length_key(h.take(14)));
    assert(h.skip(15) =~= seq![32u8] + d);
    assert((seq![32u8] + d).drop_first() =~= d);
    assert(d.len() > 0 && !is_blank(d[0]));
    assert(trim_start(d) == d);
    assert(d.len() > 0 && !is_blank(d.last()));
    assert(trim_end(d) == d);
}

proof fn lemma_no_crlf(s: Seq<u8>, i: int)
    requires
        0 <= i <= s.len(),
        forall|j: int| 0 <= j < s.len() ==> s[j] != 13,
    ensures
        line_end_from(s, i) == s.len(),
    decreases s.len() - i,
{
    if i < s.len() {
        lemma_no_crlf(s, i + 1);
    }
}

proof fn lemma_colon_at(h: Seq<u8>)
    requires
        h.len() >= 16,
        h.take(16) == header_prefix(),
    ensures
        colon_from(h, 0) == 14,
{
    assert forall|j: int| 0 <= j < 14 implies h[j] != 58 by {
        assert(h[j] == header_prefix()[j]);
    }
    assert(h[14] == header_prefix()[14]);
    lemma_colon_scan(h, 0);
}

proof fn lemma_colon_scan(h: Seq<u8>, i: int)
    requires
        0 <= i <= 14,
        h.len() > 14,
        h[14] == 58,
        forall|j: int| 0 <= j < 14 ==> h[j] != 58,
    ensures
        colon_from(h, i) == 14,
    decreases 14 - i,
{
    if i < 14 {
        lemma_colon_scan(h, i + 1);
    }
}

} // verus!

verus! {

// ---------------------------------------------------------------------------
// Executable encoder and reader

/// An item that the reader hands out.
pub enum FrameEvent {
    /// A complete message body.
    Message(Vec<u8>),
    /// A header block without a usable `Content-Length` was skipped.
    FramingError,
}

impl View for FrameEvent {
    type V = FrameItem;

    open spec fn view(&self) -> FrameItem {
        match self {
            FrameEvent::Message(b) => FrameItem::Message(b@),
            FrameEvent::FramingError => FrameItem::FramingError,
        }
    }
}

/// The items that a vector of events stands for.
pub open spec fn items_of(events: Seq<FrameEvent>) -> Seq<FrameItem> {
    events.map_values(|e: FrameEvent| e@)
}

/// Why a reader stopped.
#[derive(Clone, Copy, Debug, PartialEq, Eq, Structural)]
pub enum CloseReason {
    /// The stream ended between two frames.
    EndOfStream,
    /// The stream ended inside a frame: the peer died mid-message.
    Truncated,
    /// No header block ended within the header budget.
    Unrecoverable,
}

/// The state of a reader, as a mathematical value.
pub enum ReaderModel {
    /// Live, holding the bytes of a frame not yet complete.
    Open(Seq<u8>),
    /// Stopped on an unrecoverable stream; its close is not yet reported.
    Desynchronized,
    /// Its close has been reported.
    Closed,
}

#[derive(Clone, Copy, PartialEq, Eq, Structural)]
enum Phase {
    Open,
    Desynchronized,
    Closed,
}

/// Turns a byte stream, handed over in chunks of any size, into complete
/// message bodies.
pub struct FrameReader {
    pending: Vec<u8>,
    phase: Phase,
}

impl View for FrameReader {
    type V = ReaderModel;

    closed spec fn view(&self) -> ReaderModel {
        match self.phase {
            Phase::Open => ReaderModel::Open(self.pending@),
            Phase::Desynchronized => ReaderModel::Desynchronized,
            Phase::Closed => ReaderModel::Closed,
        }
    }
}

enum StepEvent {
    Incomplete,
    Item(FrameEvent, usize),
    Unrecoverable,
}

impl View for StepEvent {
    type V = Step;

    closed spec fn view(&self) -> Step {
        match self {
            StepEvent::Incomplete => Step::Incomplete,
            StepEvent::Item(e, n) => Step::Item(e@, *n as int),
            StepEvent::Unrecoverable => Step::Unrecoverable,
        }
    }
}

fn push_header_prefix(out: &mut Vec<u8>)
    ensures
        final(out)@ == old(out)@ + header_prefix(),
{
    let ghost start = out@;
    out.push(67);
    out.push(111);
    out.push(110);
    out.push(116);
    out.push(101);
    out.push(110);
    out.push(116);
    out.push(45);
    out.push(76);
    out.push(101);
    out.push(110);
    out.push(103);
    out.push(116);
    out.push(104);
    out.push(58);
    out.push(32);
    assert(out@ =~= start + header_prefix());
}

/// The frame of `payload`: `Content-Length: <n>\r\n\r\n` and the payload.
pub fn encode_frame(payload: &[u8]) -> (r: Vec<u8>)
    ensures
        r@ == frame_of(payload@),
{
    let mut out: Vec<u8> = Vec::new();
    push_header_prefix(&mut out);
    push_decimal(payload.len() as u64, &mut out);
    let ghost before = out@;
    out.push(13);
    out.push(10);
    out.push(13);
    out.push(10);
    assert(out@ =~= before + seq![13u8, 10, 13, 10]);
    push_all(&mut out, payload);
    assert(out@ =~= frame_of(payload@));
    out
}

fn find_header_end(s: &[u8]) -> (r: Option<usize>)
    ensures
        match r {
            Some(h) => header_end_from(s@, 0) == Some(h as int),
            None => header_end_from(s@, 0) is None,
        },
{
    let mut i: usize = 0;
    while i + 4 <= MAX_HEADER_BYTES && i + 4 <= s.len()
        invariant
            0 <= i <= MAX_HEADER_BYTES,
            header_end_from(s@, i as int) == header_end_from(s@, 0),
        decreases MAX_HEADER_BYTES - i,
    {
        if s[i] == 13 && s[i + 1] == 10 && s[i + 2] == 13 && s[i + 3] == 10 {
            return Some(i);
        }
        i = i + 1;
    }
    None
}

fn is_marker(s: &[u8], i: usize) -> (r: bool)
    requires
        i + 15 <= s@.len(),
    ensures
        r == marker_at(s@, i as int),
{
    let n = s.len();
    if s[i + 14] != 58 {
        return false;
    }
    let mut j: usize = 0;
    while j < 14
        invariant
            i + 15 <= s@.len(),
            n == s@.len(),
            0 <= j <= 14,
            forall|q: int| 0 <= q < j ==> ascii_lower(#[trigger] s@[i + q]) == content_length_key()[q],
        decreases 14 - j,
    {
        if lower(s[i + j]) != key_byte(j) {
            assert(s@.subrange(i as int, i + 14)[j as int] == s@[i + j]);
            return false;
        }
        j = j + 1;
    }
    assert forall|q: int| 0 <= q < 14 implies ascii_lower(#[trigger] s@.subrange(i as int, i + 14)[q])
        == content_length_key()[q] by {
        assert(s@.subrange(i as int, i + 14)[q] == s@[i + q]);
    }
    true
}

fn find_marker(s: &[u8], from: usize, limit: usize) -> (r: Option<usize>)
    requires
        from <= limit,
    ensures
        match r {
            Some(m) => marker_from(s@, from as int, limit as int) == Some(m as int),
            None => marker_from(s@, from as int, limit as int) is None,
        },
{
    let mut i: usize = from;
    while i < limit && i < s.len() && 15 <= s.len() - i
        invariant
            from <= i,
            marker_from(s@, i as int, limit as int) == marker_from(s@, from as int, limit as int),
        decreases s@.len() - i,
    {
        if is_marker(s, i) {
            return Some(i);
        }
        i = i + 1;
    }
    None
}

fn decode_step(s: &[u8]) -> (r: StepEvent)
    ensures
        r@ == step(s@),
        r matches StepEvent::Item(_, n) ==> 0 < n <= s@.len(),
{
    proof {
        lemma_header_end_bounds(s@, 0);
    }
    match find_header_end(s) {
        Some(h) => {
            let header = copy_range(s, 0, h);
            assert(header@ =~= s@.take(h as int));
            match declared_length_of(header.as_slice()) {
                None => {
                    proof {
                        lemma_marker_bounds(s@, h + 4, h + 4 + MAX_HEADER_BYTES);
                    }
                    match find_marker(s, h + 4, h + 4 + MAX_HEADER_BYTES) {
                        Some(m) => StepEvent::Item(FrameEvent::FramingError, m),
                        None => {
                            if s.len() >= h + 4 + MAX_HEADER_BYTES + 14 {
                                StepEvent::Unrecoverable
                            } else {
                                StepEvent::Incomplete
                            }
                        },
                    }
                },
                Some(n) => {
                    if n <= s.len() - (h + 4) {
                        let body = copy_range(s, h + 4, h + 4 + n);
                        StepEvent::Item(FrameEvent::Message(body), h + 4 + n)
                    } else {
                        StepEvent::Incomplete
                    }
                },
            }
        },
        None => {
            if s.len() >= MAX_HEADER_BYTES {
                StepEvent::Unrecoverable
            } else {
                StepEvent::Incomplete
            }
        },
    }
}

impl FrameReader {
    /// A reader at the start of a stream.
    pub fn new() -> (r: FrameReader)
        ensures
            r@ == ReaderModel::Open(Seq::empty()),
    {
        FrameReader { pending: Vec::new(), phase: Phase::Open }
    }

    /// Whether the reader still takes bytes.
    pub fn is_open(&self) -> (r: bool)
        ensures
            r == self@ is Open,
    {
        self.phase == Phase::Open
    }

    /// Takes the next chunk of the stream and hands out every item that is
    /// now complete, in stream order. A reader that is no longer open
    /// ignores the chunk.
    pub fn feed(&mut self, chunk: &[u8]) -> (events: Vec<FrameEvent>)
        ensures
            match old(self)@ {
                ReaderModel::Open(p) => {
                    let (es, rest) = scan(p + chunk@);
                    &&& items_of(events@) == es
                    &&& match rest {
                        Some(r) => final(self)@ == ReaderModel::Open(r),
                        None => final(self)@ == ReaderModel::Desynchronized,
                    }
                },
                _ => events@.len() == 0 && final(self)@ == old(self)@,
            },
    {
        let mut events: Vec<FrameEvent> = Vec::new();
        if self.phase != Phase::Open {
            return events;
        }
        let ghost start = self.pending@ + chunk@;
        let mut rest: Vec<u8> = Vec::new();
        std::mem::swap(&mut rest, &mut self.pending);
        push_all(&mut rest, chunk);
        assert(rest@ == start);
        assert(items_of(events@) =~= Seq::<FrameItem>::empty());
        loop
            invariant
                self.phase == Phase::Open,
                old(self).phase == Phase::Open,
                start == old(self).pending@ + chunk@,
                scan(start) == continue_scan((items_of(events@), Some(rest@)), Seq::empty()),
            decreases rest@.len(),
        {
            proof {
                assert(rest@ + Seq::<u8>::empty() =~= rest@);
            }
            match decode_step(rest.as_slice()) {
                StepEvent::Incomplete => {
                    assert(scan(rest@) == (Seq::<FrameItem>::empty(), Some(rest@)));
                    assert(items_of(events@) + Seq::<FrameItem>::empty() =~= items_of(events@));
                    self.pending = rest;
                    return events;
                },
                StepEvent::Unrecoverable => {
                    assert(items_of(events@) + Seq::<FrameItem>::empty() =~= items_of(events@));
                    self.phase = Phase::Desynchronized;
                    self.pending = Vec::new();
                    return events;
                },
                StepEvent::Item(e, n) => {
                    let ghost ev = e@;
                    let next = copy_range(rest.as_slice(), n, rest.len());
                    assert(next@ =~= rest@.skip(n as int));
                    let ghost before = items_of(events@);
                    events.push(e);
                    assert(items_of(events@) =~= before.push(ev));
                    assert(next@ + Seq::<u8>::empty() =~= next@);
                    assert(before + (seq![ev] + scan(next@).0) =~= before.push(ev) + scan(
                        next@,
                    ).0);
                    rest = next;
                },
            }
        }
    }

    /// Reports the end of the stream once: a stream that ends between
    /// frames closes cleanly, one that ends inside a frame is truncated.
    /// Later calls report nothing.
    pub fn finish(&mut self) -> (r: Option<CloseReason>)
        ensures
            final(self)@ == ReaderModel::Closed,
            r == match old(self)@ {
                ReaderModel::Open(p) => Some(
                    if p.len() == 0 {
                        CloseReason::EndOfStream
                    } else {
                        CloseReason::Truncated
                    },
                ),
                ReaderModel::Desynchronized => Some(CloseReason::Unrecoverable),
                ReaderModel::Closed => None,
            },
    {
        let r = match self.phase {
            Phase::Open => {
                if self.pending.len() == 0 {
                    Some(CloseReason::EndOfStream)
                } else {
                    Some(CloseReason::Truncated)
                }
            },
            Phase::Desynchronized => Some(CloseReason::Unrecoverable),
            Phase::Closed => None,
        };
        self.phase = Phase::Closed;
        self.pending = Vec::new();
        r
    }
}

} // verus!
