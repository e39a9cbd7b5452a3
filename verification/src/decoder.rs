//! The decoder: the machine of `stream`, fed with chunks of bytes.

use vstd::prelude::*;
use vstd::slice::slice_subrange;
use crate::body::bbox;
use crate::body::node;
use crate::body::relation;
use crate::body::timestamp;
use crate::body::way;
use crate::data::Dataset;
use crate::data::DatasetType;
use crate::data::DatasetView;
use crate::data::Node;
use crate::data::Relation;
use crate::data::Way;
use crate::error::Context;
use crate::error::DecodeError;
use crate::stream::advance;
use crate::stream::concat;
use crate::stream::end_frame;
use crate::stream::frame_kind;
use crate::stream::initial;
use crate::stream::lemma_chunks;
use crate::stream::lemma_failed;
use crate::stream::lemma_fill;
use crate::stream::lemma_run_advances;
use crate::stream::may_end;
use crate::stream::no_previous;
use crate::stream::run;
use crate::stream::run_chunks;
use crate::stream::step;
use crate::stream::DecoderView;
use crate::stream::Output;
use crate::stream::Phase;
use crate::stream::PreviousView;
use crate::stream::SIGNATURE;
use crate::strings::StringTable;
use crate::varint::lemma_low64_add;
use crate::varint::low64;

verus! {

/// What the decoder waits for.
#[derive(Clone, Copy, Debug, PartialEq, Eq, Structural)]
enum State {
    Begin,
    Type,
    Len,
    Data,
    Failed,
}

/// The last node, way and relation that were decoded since the start of the
/// stream or the last reset marker.
#[derive(Debug)]
pub(crate) struct Previous {
    pub(crate) node: Option<Node>,
    pub(crate) way: Option<Way>,
    pub(crate) relation: Option<Relation>,
}

impl View for Previous {
    type V = PreviousView;

    closed spec fn view(&self) -> PreviousView {
        PreviousView {
            node: self.node.deep_view(),
            way: self.way.deep_view(),
            relation: self.relation.deep_view(),
        }
    }
}

impl Previous {
    /// No previous record of any kind.
    pub(crate) fn new() -> (previous: Previous)
        ensures
            previous@ == no_previous(),
    {
        Previous { node: None, way: None, relation: None }
    }

    /// Puts a copy of `record` in the place of the last record of its kind,
    /// if it is a node, a way or a relation.
    pub(crate) fn remember(&mut self, record: &Dataset)
        ensures
            final(self)@ == crate::stream::remember(old(self)@, record@),
    {
        match record {
            Dataset::Node(node) => {
                self.node = Some(node.clone());
            },
            Dataset::Way(way) => {
                self.way = Some(way.clone());
            },
            Dataset::Relation(relation) => {
                self.relation = Some(relation.clone());
            },
            _ => {},
        }
    }
}

/// What a call of the decoder gives, as the machine's output: a record, an
/// error, or nothing yet.
pub open spec fn output(r: Result<Option<Dataset>, DecodeError>) -> Output {
    match r {
        Ok(Some(record)) => Some(Ok(record@)),
        Ok(None) => None,
        Err(e) => Some(Err(e)),
    }
}

/// The kind of frame that a type byte announces.
pub fn kind_of(byte: u8) -> (kind: Option<DatasetType>)
    ensures
        kind == frame_kind(byte),
{
    if byte == 0x10 {
        Some(DatasetType::Node())
    } else if byte == 0x11 {
        Some(DatasetType::Way())
    } else if byte == 0x12 {
        Some(DatasetType::Relation())
    } else if byte == 0xdb {
        Some(DatasetType::BBox())
    } else if byte == 0xdc {
        Some(DatasetType::Timestamp())
    } else if byte == 0xe0 {
        Some(DatasetType::Header())
    } else if byte == 0xee {
        Some(DatasetType::Sync())
    } else if byte == 0xef {
        Some(DatasetType::Jump())
    } else if byte == 0xff {
        Some(DatasetType::Reset())
    } else {
        None
    }
}

/// Adds the seven bits of `byte`, weighted by `scale`, to `value`, within 64
/// bits.
fn add_group(value: u64, scale: u64, byte: u8) -> (sum: u64)
    ensures
        sum == low64(value + (byte % 128) * scale),
{
    proof {
        lemma_low64_add(value as int, (byte % 128) * scale);
    }
    value.wrapping_add(((byte % 128) as u64).wrapping_mul(scale))
}

/// The weight of the group after one of weight `scale`, within 64 bits.
fn next_scale(scale: u64) -> (next: u64)
    ensures
        next == low64(scale * 128),
{
    scale.wrapping_mul(128)
}

/// The state of one decoding session. It holds whatever of a frame has
/// arrived, so that the stream may be cut anywhere: within a body, within a
/// length, between any two bytes.
#[derive(Debug)]
pub struct Decoder {
    state: State,
    data_type: Option<DatasetType>,
    len: u64,
    npow: u64,
    needed: u64,
    chunk: Vec<u8>,
    strings: StringTable,
    previous: Previous,
}

impl View for Decoder {
    type V = DecoderView;

    closed spec fn view(&self) -> DecoderView {
        DecoderView {
            phase: match self.state {
                State::Begin => Phase::Signature,
                State::Type => Phase::Type,
                State::Len => Phase::Length {
                    kind: self.data_type,
                    value: self.len,
                    scale: self.npow,
                },
                State::Data => Phase::Body {
                    kind: self.data_type,
                    needed: self.needed,
                    body: self.chunk@,
                },
                State::Failed => Phase::Failed,
            },
            previous: self.previous@,
            strings: self.strings@,
        }
    }
}

impl Decoder {
    /// A decoder at the start of a stream.
    pub fn new() -> (decoder: Decoder)
        ensures
            decoder@ == initial(),
    {
        Decoder {
            state: State::Begin,
            data_type: None,
            len: 0,
            npow: 1,
            needed: 0,
            chunk: Vec::new(),
            strings: StringTable::new(),
            previous: Previous::new(),
        }
    }

    /// Decodes the body in `chunk`, now that it is complete.
    fn flush(&mut self) -> (r: Result<Option<Dataset>, DecodeError>)
        ensures
            (final(self)@, output(r)) == end_frame(
                old(self)@.previous,
                old(self)@.strings,
                old(self).data_type,
                old(self).chunk@,
            ),
    {
        reveal(end_frame);
        let body = self.chunk.as_slice();
        let decoded = match self.data_type {
            Some(DatasetType::Node()) => match node(body, &self.previous.node, &mut self.strings) {
                Ok(node) => Ok(Some(Dataset::Node(node))),
                Err(e) => Err(e),
            },
            Some(DatasetType::Way()) => match way(body, &self.previous.way, &mut self.strings) {
                Ok(way) => Ok(Some(Dataset::Way(way))),
                Err(e) => Err(e),
            },
            Some(DatasetType::Relation()) => match relation(
                body,
                &self.previous.relation,
                &mut self.strings,
            ) {
                Ok(relation) => Ok(Some(Dataset::Relation(relation))),
                Err(e) => Err(e),
            },
            Some(DatasetType::BBox()) => match bbox(body) {
                Ok(bbox) => Ok(Some(Dataset::BBox(bbox))),
                Err(e) => Err(e),
            },
            Some(DatasetType::Timestamp()) => match timestamp(body) {
                Ok(timestamp) => Ok(Some(Dataset::Timestamp(timestamp))),
                Err(e) => Err(e),
            },
            _ => Ok(None),
        };
        self.chunk.clear();
        match decoded {
            Ok(Some(record)) => {
                self.previous.remember(&record);
                self.state = State::Type;
                Ok(Some(record))
            },
            Ok(None) => {
                self.state = State::Type;
                Ok(None)
            },
            Err(e) => {
                self.state = State::Failed;
                Err(e)
            },
        }
    }

    /// Takes one byte of a frame's length.
    fn take_length_byte(&mut self, byte: u8) -> (r: Result<Option<Dataset>, DecodeError>)
        requires
            old(self).state == State::Len,
        ensures
            (final(self)@, output(r)) == step(old(self)@, byte),
    {
        self.len = add_group(self.len, self.npow, byte);
        if byte >= 0x80 {
            self.npow = next_scale(self.npow);
            Ok(None)
        } else if self.len == 0 {
            self.chunk.clear();
            self.flush()
        } else {
            self.needed = self.len;
            self.chunk.clear();
            self.state = State::Data;
            Ok(None)
        }
    }

    /// Takes one byte of the stream.
    fn take_byte(&mut self, byte: u8) -> (r: Result<Option<Dataset>, DecodeError>)
        ensures
            (final(self)@, output(r)) == step(old(self)@, byte),
    {
        match self.state {
            State::Begin => {
                if byte == SIGNATURE {
                    self.state = State::Type;
                    Ok(None)
                } else {
                    self.state = State::Failed;
                    Err(
                        DecodeError::UnexpectedByte {
                            context: Context::Signature,
                            expected: SIGNATURE,
                            received: byte,
                        },
                    )
                }
            },
            State::Type => {
                if byte == SIGNATURE {
                    self.previous = Previous::new();
                } else {
                    self.data_type = kind_of(byte);
                    self.len = 0;
                    self.npow = 1;
                    self.state = State::Len;
                }
                Ok(None)
            },
            State::Len => self.take_length_byte(byte),
            State::Data => {
                self.chunk.push(byte);
                if self.needed <= 1 {
                    self.flush()
                } else {
                    self.needed = self.needed - 1;
                    Ok(None)
                }
            },
            State::Failed => Ok(None),
        }
    }

    /// Takes the bytes at the front of `input` that belong to the body and do
    /// not complete it, all at once. Gives their number.
    fn take_body(&mut self, input: &[u8]) -> (n: usize)
        requires
            old(self).state == State::Data,
        ensures
            n <= input@.len(),
            advance(old(self)@, input@) == advance(final(self)@, input@.skip(n as int)),
            n == 0 ==> *final(self) == *old(self),
    {
        if self.needed <= 1 {
            assert(input@.skip(0) =~= input@);
            return 0;
        }
        let n: usize = if input.len() as u64 >= self.needed - 1 {
            (self.needed - 1) as usize
        } else {
            input.len()
        };
        if n == 0 {
            assert(input@.skip(0) =~= input@);
            return 0;
        }
        proof {
            lemma_fill(self@, input@, n as int);
        }
        let ghost body = self.chunk@;
        self.chunk.extend_from_slice(slice_subrange(input, 0, n));
        self.needed = self.needed - n as u64;
        assert(self.chunk@ =~= body + input@.take(n as int));
        n
    }

    /// Takes bytes from the front of `input` until a record is complete, an
    /// error is met or `input` is used up. Gives the number of bytes taken,
    /// and the record, the error, or `Ok(None)` where `input` is used up and
    /// the decoder needs more. The bytes of `input` that were not taken
    /// belong to the next call.
    pub fn next_item(&mut self, input: &[u8]) -> (r: (usize, Result<Option<Dataset>, DecodeError>))
        ensures
            r.0 <= input@.len(),
            input@.len() > 0 ==> r.0 > 0,
            advance(old(self)@, input@) == (input@.skip(r.0 as int), final(self)@, output(r.1)),
    {
        let mut pos: usize = 0;
        assert(input@.skip(0) =~= input@);
        while pos < input.len()
            invariant
                pos <= input@.len(),
                advance(self@, input@.skip(pos as int)) == advance(old(self)@, input@),
            decreases input@.len() - pos,
        {
            let ghost bytes = input@.skip(pos as int);
            if self.state == State::Failed {
                proof {
                    lemma_failed(self@, bytes);
                    assert(bytes.skip(bytes.len() as int) =~= input@.skip(input@.len() as int));
                    lemma_failed(self@, input@.skip(input@.len() as int));
                }
                pos = input.len();
            } else {
                let ahead = if self.state == State::Data {
                    self.take_body(slice_subrange(input, pos, input.len()))
                } else {
                    0
                };
                if ahead > 0 {
                    assert(bytes.skip(ahead as int) =~= input@.skip(pos + ahead));
                    pos += ahead;
                } else {
                    assert(bytes.drop_first() =~= input@.skip(pos + 1));
                    let r = self.take_byte(input[pos]);
                    pos += 1;
                    if r.is_err() {
                        return (pos, r);
                    }
                    if let Ok(Some(_)) = &r {
                        return (pos, r);
                    }
                }
            }
        }
        (pos, Ok(None))
    }

    /// Takes all of `input` and gives what it decodes to: the records that
    /// are complete with it, in order, and the error, if one is met.
    pub fn feed(&mut self, input: &[u8]) -> (results: Vec<Result<Dataset, DecodeError>>)
        ensures
            (final(self)@, outputs(results@)) == run(old(self)@, input@),
    {
        let mut results: Vec<Result<Dataset, DecodeError>> = Vec::new();
        let mut pos: usize = 0;
        assert(input@.skip(0) =~= input@);
        assert(outputs(results@) =~= Seq::empty());
        assert(outputs(results@) + run(self@, input@).1 =~= run(self@, input@).1);
        while pos < input.len()
            invariant
                pos <= input@.len(),
                run(old(self)@, input@).0 == run(self@, input@.skip(pos as int)).0,
                run(old(self)@, input@).1 == outputs(results@) + run(
                    self@,
                    input@.skip(pos as int),
                ).1,
            decreases input@.len() - pos,
        {
            let ghost before = self@;
            let ghost found = outputs(results@);
            let ghost bytes = input@.skip(pos as int);
            proof {
                lemma_run_advances(before, bytes);
            }
            let (n, r) = self.next_item(slice_subrange(input, pos, input.len()));
            assert(bytes.skip(n as int) =~= input@.skip(pos + n));
            pos += n;
            let ghost tail = run(self@, input@.skip(pos as int)).1;
            match r {
                Ok(Some(record)) => {
                    let ghost view = record@;
                    results.push(Ok(record));
                    assert(outputs(results@) =~= found.push(Ok(view)));
                    assert(found.push(Ok(view)) + tail =~= found + (seq![Ok(view)] + tail));
                },
                Err(e) => {
                    results.push(Err(e));
                    assert(outputs(results@) =~= found.push(Err(e)));
                    assert(found.push(Err(e)) + tail =~= found + (seq![Err(e)] + tail));
                },
                Ok(None) => {},
            }
        }
        assert(input@.skip(pos as int) =~= Seq::<u8>::empty());
        assert(outputs(results@) + Seq::empty() =~= outputs(results@));
        results
    }

    /// Tells whether the stream may end here: it may between frames, and
    /// within a frame it is truncated.
    pub fn finish(&self) -> (r: Result<(), DecodeError>)
        ensures
            may_end(self@) <==> r is Ok,
            r matches Err(e) ==> e == DecodeError::TruncatedStream,
    {
        match self.state {
            State::Len => Err(DecodeError::TruncatedStream),
            State::Data => Err(DecodeError::TruncatedStream),
            _ => Ok(()),
        }
    }

    /// Tells the decoder that the source of the bytes has failed. The session
    /// is over: the decoder takes further bytes without effect.
    pub fn read_failed(&mut self) -> (e: DecodeError)
        ensures
            e == DecodeError::StreamReadError,
            final(self)@ == (DecoderView { phase: Phase::Failed, ..old(self)@ }),
    {
        self.state = State::Failed;
        DecodeError::StreamReadError
    }
}

/// What a list of results stands for.
pub open spec fn outputs(results: Seq<Result<Dataset, DecodeError>>) -> Seq<
    Result<DatasetView, DecodeError>,
> {
    Seq::new(
        results.len(),
        |i: int|
            match results[i] {
                Ok(record) => Ok(record@),
                Err(e) => Err(e),
            },
    )
}

/// What a whole stream decodes to: the records that the machine hands out
/// when it is fed with the stream from its start, up to the first error; and
/// the error that the stream is truncated, where it ends within a frame.
pub open spec fn spec_decode(stream: Seq<u8>) -> Seq<Result<DatasetView, DecodeError>> {
    let (last, found) = run(initial(), stream);
    if may_end(last) {
        found
    } else {
        found.push(Err(DecodeError::TruncatedStream))
    }
}

/// The bytes of each of `chunks`.
pub open spec fn chunk_views(chunks: Seq<Vec<u8>>) -> Seq<Seq<u8>> {
    Seq::new(chunks.len(), |i: int| chunks[i]@)
}

/// Adds the error that the stream is truncated to `results`, where the
/// decoder stands within a frame.
fn finished(decoder: &Decoder, results: Vec<Result<Dataset, DecodeError>>) -> (all: Vec<
    Result<Dataset, DecodeError>,
>)
    ensures
        outputs(all@) == if may_end(decoder@) {
            outputs(results@)
        } else {
            outputs(results@).push(Err(DecodeError::TruncatedStream))
        },
{
    let mut results = results;
    match decoder.finish() {
        Ok(()) => {},
        Err(e) => {
            let ghost found = outputs(results@);
            results.push(Err(e));
            assert(outputs(results@) =~= found.push(Err(e)));
        },
    }
    results
}

/// Decodes a stream that is there as a whole.
pub fn decode(stream: &[u8]) -> (results: Vec<Result<Dataset, DecodeError>>)
    ensures
        outputs(results@) == spec_decode(stream@),
{
    let mut decoder = Decoder::new();
    let results = decoder.feed(stream);
    finished(&decoder, results)
}

/// Decodes a stream that is there in chunks, cut wherever. It gives what
/// `decode` gives for the chunks joined.
pub fn decode_chunks(chunks: &Vec<Vec<u8>>) -> (results: Vec<Result<Dataset, DecodeError>>)
    ensures
        outputs(results@) == spec_decode(concat(chunk_views(chunks@))),
{
    let mut decoder = Decoder::new();
    let mut results: Vec<Result<Dataset, DecodeError>> = Vec::new();
    let mut i: usize = 0;
    let ghost views = chunk_views(chunks@);
    assert(outputs(results@) =~= Seq::empty());
    assert(views.take(0) =~= Seq::empty());
    while i < chunks.len()
        invariant
            i <= chunks@.len(),
            views == chunk_views(chunks@),
            (decoder@, outputs(results@)) == run_chunks(initial(), views.take(i as int)),
        decreases chunks@.len() - i,
    {
        let ghost found = outputs(results@);
        let mut more = decoder.feed(chunks[i].as_slice());
        let ghost added = outputs(more@);
        results.append(&mut more);
        proof {
            assert(outputs(results@) =~= found + added);
            assert(views.take(i + 1).drop_last() =~= views.take(i as int));
            assert(views.take(i + 1).last() == chunks@[i as int]@);
        }
        i += 1;
    }
    proof {
        assert(views.take(i as int) =~= views);
        lemma_chunks(initial(), views);
    }
    finished(&decoder, results)
}

} // verus!
