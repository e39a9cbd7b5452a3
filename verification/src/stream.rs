//! What a stream of bytes means: the decoder as a machine that takes one byte
//! at a time.
//!
//! A stream is a signature byte and then frames: a type byte, the length of
//! the body as a varint, and the body. A byte `0xff` in place of a type byte
//! is a reset marker. `step` says what one byte does to the machine; `advance`
//! and `run` apply it to the bytes of a sequence. Nothing here speaks of how
//! the bytes arrive, so that cutting a stream into chunks cannot change what it
//! decodes to.

use vstd::prelude::*;
use crate::data::DatasetType;
use crate::data::DatasetView;
use crate::data::NodeView;
use crate::data::RelationView;
use crate::data::WayView;
use crate::error::Context;
use crate::error::DecodeError;
use crate::data::NodeData;
use crate::format::apply_delta;
use crate::format::apply_delta_signed;
use crate::format::base_changeset;
use crate::format::base_id;
use crate::format::base_member;
use crate::format::base_place;
use crate::format::base_ref;
use crate::format::base_timestamp;
use crate::format::done;
use crate::format::lemma_node_bounded;
use crate::format::lemma_relation_bounded;
use crate::format::lemma_way_bounded;
use crate::format::node_id;
use crate::format::node_info;
use crate::format::relation_id;
use crate::format::relation_info;
use crate::format::way_id;
use crate::format::way_info;
use crate::format::wrap32;
use crate::format::spec_bbox;
use crate::format::spec_node;
use crate::format::spec_relation;
use crate::format::spec_timestamp;
use crate::format::spec_way;
use crate::format::Parsed;
use crate::strings::bounded;
use crate::strings::Pair;
use crate::varint::lemma_leading_bounds;
use crate::varint::lemma_low64_add;
use crate::varint::lemma_low64_mul;
use crate::varint::lemma_varint_push;
use crate::varint::low64;
use crate::varint::spec_unsigned;
use crate::varint::varint_value;
use crate::varint::weight;

verus! {

/// The byte that opens a stream and, between frames, marks a reset.
pub const SIGNATURE: u8 = 0xff;

/// The last node, way and relation that were decoded since the start of the
/// stream or the last reset marker.
pub struct PreviousView {
    pub node: Option<NodeView>,
    pub way: Option<WayView>,
    pub relation: Option<RelationView>,
}

/// What the machine waits for.
pub enum Phase {
    /// The signature byte at the start of the stream.
    Signature,
    /// The type byte of the next frame, or a reset marker.
    Type,
    /// The next byte of the length of a frame of kind `kind`. `value` is what
    /// the bytes of the length so far add up to, and `scale` the weight of
    /// the next byte's seven bits, both within 64 bits.
    Length { kind: Option<DatasetType>, value: u64, scale: u64 },
    /// The next byte of the body of a frame of kind `kind`, of which `body`
    /// is there and `needed` bytes are missing.
    Body { kind: Option<DatasetType>, needed: u64, body: Seq<u8> },
    /// Nothing: an error was met, and the machine takes bytes without effect.
    Failed,
}

/// The state of the machine between two bytes.
pub struct DecoderView {
    pub phase: Phase,
    pub previous: PreviousView,
    pub strings: Seq<Pair>,
}

/// What a byte makes the machine hand out: nothing, a record or an error.
pub type Output = Option<Result<DatasetView, DecodeError>>;

/// No previous record of any kind.
pub open spec fn no_previous() -> PreviousView {
    PreviousView { node: None, way: None, relation: None }
}

/// The machine at the start of a stream.
pub open spec fn initial() -> DecoderView {
    DecoderView { phase: Phase::Signature, previous: no_previous(), strings: Seq::empty() }
}

/// The kind of frame that a type byte announces; nothing for a byte that
/// stands for no kind.
pub open spec fn frame_kind(byte: u8) -> Option<DatasetType> {
    if byte == 0x10 {
        Some(DatasetType::Node())
    } else if byte == 0x11 {
        Some(DatasetType::Way())
    } else if byte == 0x12 {
        Some(DatasetType::Relation())
    } else if byte == 0xdb {
        Some(DatasetType::BBox())
    } else if byte == 0xdc {
        Some(DatasetType::Timestamp())
    } else if byte == 0xe0 {
        Some(DatasetType::Header())
    } else if byte == 0xee {
        Some(DatasetType::Sync())
    } else if byte == 0xef {
        Some(DatasetType::Jump())
    } else if byte == 0xff {
        Some(DatasetType::Reset())
    } else {
        None
    }
}

/// What the body `buf` of a frame of kind `kind` holds: a record for a node,
/// a way, a relation, a bounding box or a timestamp, and nothing for any
/// other frame, whose body is passed over.
pub open spec fn spec_body(
    kind: Option<DatasetType>,
    buf: Seq<u8>,
    previous: PreviousView,
    strings: Seq<Pair>,
) -> Parsed<Option<DatasetView>> {
    match kind {
        Some(DatasetType::Node()) => {
            let node = spec_node(buf, previous.node, strings);
            Parsed {
                strings: node.strings,
                result: match node.result {
                    Ok(node) => Ok(Some(DatasetView::Node(node))),
                    Err(e) => Err(e),
                },
            }
        },
        Some(DatasetType::Way()) => {
            let way = spec_way(buf, previous.way, strings);
            Parsed {
                strings: way.strings,
                result: match way.result {
                    Ok(way) => Ok(Some(DatasetView::Way(way))),
                    Err(e) => Err(e),
                },
            }
        },
        Some(DatasetType::Relation()) => {
            let relation = spec_relation(buf, previous.relation, strings);
            Parsed {
                strings: relation.strings,
                result: match relation.result {
                    Ok(relation) => Ok(Some(DatasetView::Relation(relation))),
                    Err(e) => Err(e),
                },
            }
        },
        Some(DatasetType::BBox()) => Parsed {
            strings,
            result: match spec_bbox(buf) {
                Ok(bbox) => Ok(Some(DatasetView::BBox(bbox))),
                Err(e) => Err(e),
            },
        },
        Some(DatasetType::Timestamp()) => Parsed {
            strings,
            result: match spec_timestamp(buf) {
                Ok(timestamp) => Ok(Some(DatasetView::Timestamp(timestamp))),
                Err(e) => Err(e),
            },
        },
        _ => done(strings, None),
    }
}

/// `previous` once `record` was decoded: a node, a way or a relation takes
/// the place of the last record of its kind.
pub open spec fn remember(previous: PreviousView, record: DatasetView) -> PreviousView {
    match record {
        DatasetView::Node(node) => PreviousView { node: Some(node), ..previous },
        DatasetView::Way(way) => PreviousView { way: Some(way), ..previous },
        DatasetView::Relation(relation) => PreviousView { relation: Some(relation), ..previous },
        _ => previous,
    }
}

/// The machine once the body `body` of a frame of kind `kind` is complete,
/// and what it hands out: the record and the type byte of the next frame
/// awaited, or the error and no more.
#[verifier::opaque]
pub open spec fn end_frame(
    previous: PreviousView,
    strings: Seq<Pair>,
    kind: Option<DatasetType>,
    body: Seq<u8>,
) -> (DecoderView, Output) {
    let parsed = spec_body(kind, body, previous, strings);
    match parsed.result {
        Err(e) => (
            DecoderView { phase: Phase::Failed, previous, strings: parsed.strings },
            Some(Err(e)),
        ),
        Ok(None) => (DecoderView { phase: Phase::Type, previous, strings: parsed.strings }, None),
        Ok(Some(record)) => (
            DecoderView {
                phase: Phase::Type,
                previous: remember(previous, record),
                strings: parsed.strings,
            },
            Some(Ok(record)),
        ),
    }
}

/// The machine after `byte`, and what it hands out.
pub open spec fn step(s: DecoderView, byte: u8) -> (DecoderView, Output) {
    match s.phase {
        Phase::Signature => if byte == SIGNATURE {
            (DecoderView { phase: Phase::Type, ..s }, None)
        } else {
            (
                DecoderView { phase: Phase::Failed, ..s },
                Some(
                    Err(
                        DecodeError::UnexpectedByte {
                            context: Context::Signature,
                            expected: SIGNATURE,
                            received: byte,
                        },
                    ),
                ),
            )
        },
        Phase::Type => if byte == SIGNATURE {
            (DecoderView { phase: Phase::Type, previous: no_previous(), strings: s.strings }, None)
        } else {
            (
                DecoderView {
                    phase: Phase::Length { kind: frame_kind(byte), value: 0, scale: 1 },
                    ..s
                },
                None,
            )
        },
        Phase::Length { kind, value, scale } => {
            let value = low64(value + (byte % 128) * scale);
            if byte >= 0x80 {
                (
                    DecoderView {
                        phase: Phase::Length { kind, value, scale: low64(scale * 128) },
                        ..s
                    },
                    None,
                )
            } else if value == 0 {
                end_frame(s.previous, s.strings, kind, Seq::empty())
            } else {
                (
                    DecoderView {
                        phase: Phase::Body { kind, needed: value, body: Seq::empty() },
                        ..s
                    },
                    None,
                )
            }
        },
        Phase::Body { kind, needed, body } => if needed <= 1 {
            end_frame(s.previous, s.strings, kind, body.push(byte))
        } else {
            (
                DecoderView {
                    phase: Phase::Body { kind, needed: (needed - 1) as u64, body: body.push(byte) },
                    ..s
                },
                None,
            )
        },
        Phase::Failed => (s, None),
    }
}

/// The machine fed with `bytes` up to and including the first byte that makes
/// it hand something out, or with all of `bytes` where none does: the bytes
/// that are left over, the machine, and what it hands out.
pub open spec fn advance(s: DecoderView, bytes: Seq<u8>) -> (Seq<u8>, DecoderView, Output)
    decreases bytes.len(),
{
    if bytes.len() == 0 {
        (bytes, s, None)
    } else {
        let (next, output) = step(s, bytes[0]);
        if output is Some {
            (bytes.drop_first(), next, output)
        } else {
            advance(next, bytes.drop_first())
        }
    }
}

/// The machine fed with all of `bytes`: the machine afterwards, and the
/// records and the error that it hands out on the way, in order.
pub open spec fn run(s: DecoderView, bytes: Seq<u8>) -> (
    DecoderView,
    Seq<Result<DatasetView, DecodeError>>,
)
    decreases bytes.len(),
{
    if bytes.len() == 0 {
        (s, Seq::empty())
    } else {
        let (next, output) = step(s, bytes[0]);
        let (last, outputs) = run(next, bytes.drop_first());
        (
            last,
            match output {
                Some(r) => seq![r] + outputs,
                None => outputs,
            },
        )
    }
}

/// Whether the stream may end where the machine stands: not within a frame.
pub open spec fn may_end(s: DecoderView) -> bool {
    !(s.phase is Length) && !(s.phase is Body)
}

/// Cutting a stream in two changes nothing: feeding `first` and then `second`
/// leaves the machine where feeding both at once leaves it, and hands out the
/// same records and the same error in the same order.
pub proof fn lemma_run_split(s: DecoderView, first: Seq<u8>, second: Seq<u8>)
    ensures
        run(s, first + second).0 == run(run(s, first).0, second).0,
        run(s, first + second).1 == run(s, first).1 + run(run(s, first).0, second).1,
    decreases first.len(),
{
    if first.len() == 0 {
        assert(first + second =~= second);
        assert(run(s, first).1 + run(s, second).1 =~= run(s, second).1);
    } else {
        let (next, output) = step(s, first[0]);
        assert((first + second).drop_first() =~= first.drop_first() + second);
        lemma_run_split(next, first.drop_first(), second);
        let head = run(next, first.drop_first());
        let tail = run(head.0, second);
        match output {
            Some(r) => {
                assert(seq![r] + (head.1 + tail.1) =~= (seq![r] + head.1) + tail.1);
            },
            None => {},
        }
    }
}

/// All of `chunks`, one after the other.
pub open spec fn concat(chunks: Seq<Seq<u8>>) -> Seq<u8>
    decreases chunks.len(),
{
    if chunks.len() == 0 {
        Seq::empty()
    } else {
        concat(chunks.drop_last()) + chunks.last()
    }
}

/// The machine fed with each of `chunks` in turn: the machine afterwards, and
/// all that it hands out on the way.
pub open spec fn run_chunks(s: DecoderView, chunks: Seq<Seq<u8>>) -> (
    DecoderView,
    Seq<Result<DatasetView, DecodeError>>,
)
    decreases chunks.len(),
{
    if chunks.len() == 0 {
        (s, Seq::empty())
    } else {
        let (before, outputs) = run_chunks(s, chunks.drop_last());
        let (last, more) = run(before, chunks.last());
        (last, outputs + more)
    }
}

/// However a stream is cut into chunks, of whatever sizes, feeding the chunks
/// in turn gives what feeding the whole stream at once gives.
pub proof fn lemma_chunks(s: DecoderView, chunks: Seq<Seq<u8>>)
    ensures
        run_chunks(s, chunks) == run(s, concat(chunks)),
    decreases chunks.len(),
{
    if chunks.len() == 0 {
    } else {
        lemma_chunks(s, chunks.drop_last());
        lemma_run_split(s, concat(chunks.drop_last()), chunks.last());
    }
}

/// `run` is `advance`, again and again: what `advance` hands out is the first
/// thing that `run` hands out, and `run` goes on with what `advance` leaves.
pub proof fn lemma_run_advances(s: DecoderView, bytes: Seq<u8>)
    ensures
        ({
            let (left, next, output) = advance(s, bytes);
            match output {
                Some(r) => run(s, bytes) == (run(next, left).0, seq![r] + run(next, left).1),
                None => run(s, bytes) == (next, Seq::<Result<DatasetView, DecodeError>>::empty())
                    && left.len() == 0,
            }
        }),
    decreases bytes.len(),
{
    if bytes.len() > 0 {
        let (next, output) = step(s, bytes[0]);
        if output is None {
            lemma_run_advances(next, bytes.drop_first());
        }
    }
}

/// A machine that has failed takes all bytes and hands out nothing.
pub proof fn lemma_failed(s: DecoderView, bytes: Seq<u8>)
    requires
        s.phase is Failed,
    ensures
        advance(s, bytes) == (
            bytes.skip(bytes.len() as int),
            s,
            None::<Result<DatasetView, DecodeError>>,
        ),
    decreases bytes.len(),
{
    if bytes.len() == 0 {
        assert(bytes.skip(bytes.len() as int) =~= bytes);
    } else {
        lemma_failed(s, bytes.drop_first());
        assert(bytes.drop_first().skip(bytes.drop_first().len() as int) =~= bytes.skip(
            bytes.len() as int,
        ));
    }
}

/// Bytes of a body that do not complete it are added to it, however many come
/// at once.
pub proof fn lemma_fill(s: DecoderView, bytes: Seq<u8>, k: int)
    requires
        s.phase is Body,
        0 <= k <= bytes.len(),
        k < s.phase->needed,
    ensures
        advance(s, bytes) == advance(
            DecoderView {
                phase: Phase::Body {
                    kind: s.phase->Body_kind,
                    needed: (s.phase->needed - k) as u64,
                    body: s.phase->body + bytes.take(k),
                },
                ..s
            },
            bytes.skip(k),
        ),
    decreases k,
{
    let kind = s.phase->Body_kind;
    let needed = s.phase->needed;
    let body = s.phase->body;
    if k == 0 {
        assert(body + bytes.take(0) =~= body);
        assert(bytes.skip(0) =~= bytes);
    } else {
        let next = step(s, bytes[0]).0;
        lemma_fill(next, bytes.drop_first(), k - 1);
        assert(body.push(bytes[0]) + bytes.drop_first().take(k - 1) =~= body + bytes.take(k));
        assert(bytes.drop_first().skip(k - 1) =~= bytes.skip(k));
    }
}

/// Bytes of a length that do not end it add up as the groups of a varint do,
/// however many come at once.
pub proof fn lemma_length(s: DecoderView, bytes: Seq<u8>, seen: Seq<u8>, m: int)
    requires
        s.phase is Length,
        s.phase->value == low64(varint_value(seen) as int),
        s.phase->scale == low64(weight(seen.len()) as int),
        0 <= m <= bytes.len(),
        forall|j: int| 0 <= j < m ==> bytes[j] >= 0x80,
    ensures
        advance(s, bytes) == advance(
            DecoderView {
                phase: Phase::Length {
                    kind: s.phase->Length_kind,
                    value: low64(varint_value(seen + bytes.take(m)) as int),
                    scale: low64(weight((seen.len() + m) as nat) as int),
                },
                ..s
            },
            bytes.skip(m),
        ),
    decreases m,
{
    if m == 0 {
        assert(seen + bytes.take(0) =~= seen);
        assert(bytes.skip(0) =~= bytes);
    } else {
        let byte = bytes[0];
        let next = step(s, byte).0;
        lemma_length_step(seen, byte);
        lemma_length(next, bytes.drop_first(), seen.push(byte), m - 1);
        assert(seen.push(byte) + bytes.drop_first().take(m - 1) =~= seen + bytes.take(m));
        assert(bytes.drop_first().skip(m - 1) =~= bytes.skip(m));
    }
}

/// One more byte of a length: the value and the scale that the machine keeps
/// are those of the bytes seen so far.
proof fn lemma_length_step(seen: Seq<u8>, byte: u8)
    ensures
        low64(low64(varint_value(seen) as int) + (byte % 128) * low64(weight(seen.len()) as int))
            == low64(varint_value(seen.push(byte)) as int),
        low64(low64(weight(seen.len()) as int) * 128) == low64(
            weight((seen.len() + 1) as nat) as int,
        ),
{
    let value = varint_value(seen) as int;
    let scale = weight(seen.len()) as int;
    let group = (byte % 128) as int;
    lemma_varint_push(seen, byte);
    lemma_low64_mul(group, scale);
    lemma_low64_add(low64(value) as int, group * low64(scale));
    lemma_low64_add(low64(value) as int, group * scale);
    lemma_low64_add(group * scale, value);
    lemma_low64_mul(128, scale);
    assert(low64(scale) * 128 == 128 * low64(scale));
}

/// A whole frame, which is a type byte, the length of the body as a varint
/// and the body, takes the machine from one frame's end to the next, and makes
/// it hand out what the body holds. What the machine keeps of a frame while
/// its bytes arrive does not show in the result.
pub proof fn lemma_frame(s: DecoderView, kind: u8, length: Seq<u8>, body: Seq<u8>, rest: Seq<u8>)
    requires
        s.phase == Phase::Type,
        kind != SIGNATURE,
        body.len() <= u64::MAX,
        spec_unsigned(length) == Ok::<(int, u64), DecodeError>(
            (length.len() as int, body.len() as u64),
        ),
    ensures
        ({
            let (next, output) = end_frame(s.previous, s.strings, frame_kind(kind), body);
            advance(s, seq![kind] + length + body + rest) == if output is Some {
                (rest, next, output)
            } else {
                advance(next, rest)
            }
        }),
{
    let bytes = seq![kind] + length + body + rest;
    let m = length.len() - 1;
    lemma_leading_bounds(length, 0x80);
    // the type byte
    let s1 = step(s, kind).0;
    let after_kind = length + body + rest;
    assert(bytes.drop_first() =~= after_kind);
    assert(advance(s, bytes) == advance(s1, after_kind));
    // the bytes of the length but the last
    assert(varint_value(Seq::<u8>::empty()) == 0);
    assert(weight(0) == 1);
    lemma_length(s1, after_kind, Seq::empty(), m);
    let digits = after_kind.take(m);
    assert(Seq::<u8>::empty() + digits =~= digits);
    let s2 = DecoderView {
        phase: Phase::Length {
            kind: frame_kind(kind),
            value: low64(varint_value(digits) as int),
            scale: low64(weight(m as nat) as int),
        },
        ..s1
    };
    // the last byte of the length
    let after_digits = after_kind.skip(m);
    let last = after_digits[0];
    assert(last == length[m]);
    lemma_length_step(digits, last);
    assert(digits.push(last) =~= length);
    assert(length.take(length.len() as int) =~= length);
    let after_length = body + rest;
    assert(after_digits.drop_first() =~= after_length);
    if body.len() == 0 {
        assert(body =~= Seq::<u8>::empty());
        assert(after_length =~= rest);
    } else {
        // the body but its last byte, and its last byte
        let s3 = step(s2, last).0;
        let k = body.len() - 1;
        lemma_fill(s3, after_length, k);
        assert(Seq::<u8>::empty() + after_length.take(k) =~= body.take(k));
        let s4 = DecoderView {
            phase: Phase::Body { kind: frame_kind(kind), needed: 1, body: body.take(k) },
            ..s3
        };
        let tail = after_length.skip(k);
        assert(tail[0] == body[k]);
        assert(body.take(k).push(body[k]) =~= body);
        assert(tail.drop_first() =~= rest);
    }
}

/// A reset marker forgets the previous records and leaves the string table
/// as it is, so that references to strings from before the marker still find
/// them.
pub proof fn lemma_reset(s: DecoderView)
    requires
        s.phase == Phase::Type,
    ensures
        step(s, SIGNATURE) == (
            DecoderView { phase: Phase::Type, previous: no_previous(), strings: s.strings },
            None::<Result<DatasetView, DecodeError>>,
        ),
{
}

/// Where there is no previous record, as at the start of a stream and behind
/// a reset marker, every delta is applied to 0, so that an identifier, a
/// timestamp, a changeset, a place or a reference is the delta itself.
pub proof fn lemma_no_previous(delta: i64)
    ensures
        base_id(node_id(no_previous().node)) == 0,
        base_id(way_id(no_previous().way)) == 0,
        base_id(relation_id(no_previous().relation)) == 0,
        base_timestamp(node_info(no_previous().node)) == 0,
        base_timestamp(way_info(no_previous().way)) == 0,
        base_timestamp(relation_info(no_previous().relation)) == 0,
        base_changeset(node_info(no_previous().node)) == 0,
        base_changeset(way_info(no_previous().way)) == 0,
        base_changeset(relation_info(no_previous().relation)) == 0,
        base_place(no_previous().node) == (NodeData { longitude: 0, latitude: 0 }),
        base_ref(no_previous().way) == 0,
        base_member(no_previous().relation) == 0,
        apply_delta_signed(0, delta) == delta,
        delta >= 0 ==> apply_delta(0, delta) == delta,
        delta < 0 ==> apply_delta(0, delta) == delta + 0x1_0000_0000_0000_0000,
        i32::MIN <= delta <= i32::MAX ==> wrap32(0 + delta) == delta,
{
}

/// The string table stays within its bounds from the start of a stream to
/// its end, whatever the stream holds: it never has more than 15,000 pairs,
/// nor a pair of more than 250 bytes.
pub proof fn lemma_table_bounded(s: DecoderView, bytes: Seq<u8>)
    requires
        bounded(s.strings),
    ensures
        bounded(run(s, bytes).0.strings),
    decreases bytes.len(),
{
    if bytes.len() > 0 {
        lemma_step_bounded(s, bytes[0]);
        lemma_table_bounded(step(s, bytes[0]).0, bytes.drop_first());
    }
}

/// One byte keeps the string table within its bounds.
pub proof fn lemma_step_bounded(s: DecoderView, byte: u8)
    requires
        bounded(s.strings),
    ensures
        bounded(step(s, byte).0.strings),
{
    reveal(end_frame);
    match s.phase {
        Phase::Length { kind, value, scale } => {
            lemma_body_bounded(kind, Seq::empty(), s.previous, s.strings);
        },
        Phase::Body { kind, needed, body } => {
            lemma_body_bounded(kind, body.push(byte), s.previous, s.strings);
        },
        _ => {},
    }
}

/// Reading a body keeps the string table within its bounds.
proof fn lemma_body_bounded(
    kind: Option<DatasetType>,
    buf: Seq<u8>,
    previous: PreviousView,
    strings: Seq<Pair>,
)
    requires
        bounded(strings),
    ensures
        bounded(spec_body(kind, buf, previous, strings).strings),
{
    lemma_node_bounded(buf, previous.node, strings);
    lemma_way_bounded(buf, previous.way, strings);
    lemma_relation_bounded(buf, previous.relation, strings);
}

} // verus!
