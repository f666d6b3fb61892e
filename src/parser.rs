//! The streaming parser: a state machine over the staging buffer. The caller
//! owns the byte source; it hands bytes in and asks for the next event.

use vstd::prelude::*;

use circular::Buffer;

use crate::chunk::{
    chunk_spec, lemma_grammar_total, lemma_stream_end, lemma_stream_step, parse_chunk,
    stream_chunks, ChunkParse, QOIChunk,
};
use crate::header::{header_spec, parse_header, HeaderParse, QOIHeader, HEADER_LEN};
use crate::staging::{buffer_capacity, buffer_data, buffer_fits, buffer_space, buffer_write};

verus! {

/// Initial size of the staging buffer.
pub const INITIAL_CAPACITY: usize = 17;

#[derive(Debug, Clone, Copy, PartialEq, Eq, Structural)]
pub enum Stage {
    ReadingHeader,
    ReadingChunks,
    /// The end marker was produced; nothing more is read.
    Finished,
}

#[derive(Debug, Clone, Copy, PartialEq, Eq, Structural)]
pub enum ParseEvent {
    Header(QOIHeader),
    Chunk(QOIChunk),
    /// More bytes are needed: read from the source into `space()` bytes and
    /// hand them to `feed`, or call `end_of_input` when it has none.
    NeedData,
    /// The stream is complete.
    Done,
}

#[derive(Debug, Clone, Copy, PartialEq, Eq, Structural)]
pub enum ParseError {
    /// The magic does not match, or the input ended inside the header.
    MalformedHeader,
    /// The input ended inside a chunk, or before the end marker.
    UnexpectedEndOfStream,
    /// Bytes present match no chunk rule.
    InvalidChunkEncoding,
}

pub struct QOIParser {
    buffer: Buffer,
    stage: Stage,
    exhausted: bool,
    fed: Ghost<Seq<u8>>,
    emitted: Ghost<Seq<QOIChunk>>,
}

/// The chunk part of a stream: what follows the header.
pub open spec fn stream_body(fed: Seq<u8>) -> Seq<u8> {
    fed.skip(HEADER_LEN as int)
}

/// The chunks produced so far, followed by the chunks of the held bytes,
/// are the chunks of everything fed, whatever bytes come later.
pub open spec fn chunks_agree(emitted: Seq<QOIChunk>, data: Seq<u8>, body: Seq<u8>) -> bool {
    forall|x: Seq<u8>| #[trigger] stream_chunks(body + x) == emitted + stream_chunks(data + x)
}

/// The chunks produced so far, ending with the end marker, are all the
/// chunks of everything fed, whatever bytes come later.
pub open spec fn chunks_complete(emitted: Seq<QOIChunk>, body: Seq<u8>) -> bool {
    forall|x: Seq<u8>| #[trigger] stream_chunks(body + x) == emitted
}

/// What one parse step returns, from the stage, the held bytes and whether
/// the source has ended.
pub open spec fn parse_outcome(stage: Stage, data: Seq<u8>, exhausted: bool) -> Result<ParseEvent, ParseError> {
    match stage {
        Stage::Finished => Ok(ParseEvent::Done),
        Stage::ReadingHeader => match header_spec(data) {
            HeaderParse::Parsed(h, _) => Ok(ParseEvent::Header(h)),
            HeaderParse::Incomplete(_) => if exhausted {
                Err(ParseError::MalformedHeader)
            } else {
                Ok(ParseEvent::NeedData)
            },
            HeaderParse::Malformed => Err(ParseError::MalformedHeader),
        },
        Stage::ReadingChunks => match chunk_spec(data) {
            ChunkParse::Parsed(c, _) => Ok(ParseEvent::Chunk(c)),
            ChunkParse::Incomplete(_) => if exhausted {
                Err(ParseError::UnexpectedEndOfStream)
            } else {
                Ok(ParseEvent::NeedData)
            },
            ChunkParse::Mismatch => Err(ParseError::InvalidChunkEncoding),
        },
    }
}

impl QOIParser {
    /// Every byte handed to `feed`, in order.
    pub closed spec fn fed(&self) -> Seq<u8> {
        self.fed@
    }

    /// Every chunk produced, in order.
    pub closed spec fn emitted(&self) -> Seq<QOIChunk> {
        self.emitted@
    }

    /// The bytes held and not yet turned into a header or chunks.
    pub closed spec fn data(&self) -> Seq<u8> {
        buffer_data(self.buffer)
    }

    pub closed spec fn stage(&self) -> Stage {
        self.stage
    }

    pub closed spec fn exhausted(&self) -> bool {
        self.exhausted
    }

    /// How many bytes `feed` takes now.
    pub closed spec fn spec_space(&self) -> nat {
        buffer_space(self.buffer)
    }

    /// While the header is being read, nothing is consumed.
    pub proof fn lemma_header_stage(&self)
        requires
            self.wf(),
            self.stage() == Stage::ReadingHeader,
        ensures
            self.data() == self.fed(),
            self.emitted().len() == 0,
    {
    }

    pub closed spec fn wf(&self) -> bool {
        &&& buffer_fits(self.buffer)
        &&& match self.stage {
            Stage::ReadingHeader => self.emitted@.len() == 0 && self.data() == self.fed@,
            Stage::ReadingChunks => chunks_agree(self.emitted@, self.data(), stream_body(self.fed@))
                && self.fed@.len() >= HEADER_LEN && (self.emitted@.len() == 0
                || !(self.emitted@.last() is EndMarker)),
            Stage::Finished => self.emitted@.len() > 0 && self.emitted@.last() is EndMarker
                && chunks_complete(self.emitted@, stream_body(self.fed@))
                && self.fed@.len() >= HEADER_LEN,
        }
    }

    pub fn new() -> (r: Self)
        ensures
            r.wf(),
            r.stage() == Stage::ReadingHeader,
            r.fed() == Seq::<u8>::empty(),
            r.emitted() == Seq::<QOIChunk>::empty(),
            r.data() == Seq::<u8>::empty(),
            !r.exhausted(),
            r.spec_space() == INITIAL_CAPACITY,
    {
        let buffer = Buffer::with_capacity(INITIAL_CAPACITY);
        QOIParser {
            buffer,
            stage: Stage::ReadingHeader,
            exhausted: false,
            fed: Ghost(Seq::empty()),
            emitted: Ghost(Seq::empty()),
        }
    }

    /// How many bytes the next `feed` takes.
    pub fn space(&self) -> (r: usize)
        ensures
            r == self.spec_space(),
    {
        self.buffer.available_space()
    }

    /// Hands bytes read from the source to the parser.
    pub fn feed(&mut self, bytes: &[u8])
        requires
            old(self).wf(),
            bytes@.len() <= old(self).spec_space(),
        ensures
            final(self).wf(),
            final(self).fed() == old(self).fed() + bytes@,
            final(self).data() == old(self).data() + bytes@,
            final(self).emitted() == old(self).emitted(),
            final(self).stage() == old(self).stage(),
            final(self).exhausted() == old(self).exhausted(),
    {
        let ghost old_data = self.data();
        let ghost old_fed = self.fed@;
        buffer_write(&mut self.buffer, bytes);
        assert(bytes@.take(bytes@.len() as int) =~= bytes@);
        self.fed = Ghost(self.fed@ + bytes@);
        proof {
            match self.stage {
                Stage::ReadingHeader => {},
                Stage::ReadingChunks => {
                    assert(stream_body(self.fed@) =~= stream_body(old_fed) + bytes@);
                    assert forall|x: Seq<u8>| #[trigger] stream_chunks(stream_body(self.fed@) + x) == self.emitted@ + stream_chunks(self.data() + x) by {
                        assert(stream_body(self.fed@) + x =~= stream_body(old_fed) + (bytes@ + x));
                        assert(self.data() + x =~= old_data + (bytes@ + x));
                        assert(stream_chunks(stream_body(old_fed) + (bytes@ + x)) == self.emitted@ + stream_chunks(old_data + (bytes@ + x)));
                    }
                },
                Stage::Finished => {
                    assert(stream_body(self.fed@) =~= stream_body(old_fed) + bytes@);
                    assert forall|x: Seq<u8>| #[trigger] stream_chunks(stream_body(self.fed@) + x) == self.emitted@ by {
                        assert(stream_body(self.fed@) + x =~= stream_body(old_fed) + (bytes@ + x));
                        assert(stream_chunks(stream_body(old_fed) + (bytes@ + x)) == self.emitted@);
                    }
                },
            }
        }
    }

    /// Tells the parser that the source has no more bytes.
    pub fn end_of_input(&mut self)
        requires
            old(self).wf(),
        ensures
            final(self).wf(),
            final(self).exhausted(),
            final(self).fed() == old(self).fed(),
            final(self).data() == old(self).data(),
            final(self).emitted() == old(self).emitted(),
            final(self).stage() == old(self).stage(),
    {
        self.exhausted = true;
    }

    /// Advances by one step: reads the header, produces one chunk, asks for
    /// more bytes, or reports the end of the stream or an error.
    pub fn parse(&mut self) -> (r: Result<ParseEvent, ParseError>)
        requires
            old(self).wf(),
        ensures
            final(self).wf(),
            r == parse_outcome(old(self).stage(), old(self).data(), old(self).exhausted()),
            final(self).fed() == old(self).fed(),
            final(self).exhausted() == old(self).exhausted(),
            r matches Ok(ParseEvent::Header(_)) ==> {
                &&& final(self).stage() == Stage::ReadingChunks
                &&& final(self).data() == old(self).data().skip(HEADER_LEN as int)
                &&& final(self).emitted() == old(self).emitted()
            },
            r matches Ok(ParseEvent::Chunk(c)) ==> {
                &&& final(self).emitted() == old(self).emitted().push(c)
                &&& final(self).data() == old(self).data().skip(chunk_spec(old(self).data())->Parsed_1 as int)
                &&& final(self).stage() == if c is EndMarker {
                    Stage::Finished
                } else {
                    Stage::ReadingChunks
                }
            },
            r == Ok::<ParseEvent, ParseError>(ParseEvent::NeedData) ==> final(self).spec_space() > 0,
            !(r matches Ok(ParseEvent::Header(_))) && !(r matches Ok(ParseEvent::Chunk(_))) ==> {
                &&& final(self).stage() == old(self).stage()
                &&& final(self).data() == old(self).data()
                &&& final(self).emitted() == old(self).emitted()
            },
    {
        match self.stage {
            Stage::Finished => Ok(ParseEvent::Done),
            Stage::ReadingHeader => {
                let res = parse_header(self.buffer.data());
                match res {
                    HeaderParse::Parsed(header, width) => {
                        let ghost old_data = self.data();
                        self.buffer.consume(width);
                        self.stage = Stage::ReadingChunks;
                        proof {
                            assert(self.data() =~= stream_body(self.fed@));
                            assert forall|x: Seq<u8>| #[trigger] stream_chunks(stream_body(self.fed@) + x)
                                == self.emitted@ + stream_chunks(self.data() + x) by {
                                assert(self.emitted@ + stream_chunks(self.data() + x) =~= stream_chunks(self.data() + x));
                            }
                        }
                        Ok(ParseEvent::Header(header))
                    },
                    HeaderParse::Incomplete(needed) => {
                        if self.exhausted {
                            Err(ParseError::MalformedHeader)
                        } else {
                            self.make_room(needed);
                            Ok(ParseEvent::NeedData)
                        }
                    },
                    HeaderParse::Malformed => Err(ParseError::MalformedHeader),
                }
            },
            Stage::ReadingChunks => {
                let res = parse_chunk(self.buffer.data());
                proof {
                    lemma_grammar_total(self.data());
                }
                match res {
                    ChunkParse::Parsed(chunk, width) => {
                        let ghost old_data = self.data();
                        let ghost old_emitted = self.emitted@;
                        let ghost body = stream_body(self.fed@);
                        self.buffer.consume(width);
                        self.emitted = Ghost(self.emitted@.push(chunk));
                        if matches!(chunk, QOIChunk::EndMarker) {
                            self.stage = Stage::Finished;
                            proof {
                                assert forall|x: Seq<u8>| #[trigger] stream_chunks(body + x) == self.emitted@ by {
                                    lemma_stream_end(old_data, x);
                                    assert(old_emitted + seq![chunk] =~= self.emitted@);
                                }
                            }
                        } else {
                            proof {
                                assert forall|x: Seq<u8>| #[trigger] stream_chunks(body + x)
                                    == self.emitted@ + stream_chunks(self.data() + x) by {
                                    lemma_stream_step(old_data, x);
                                    assert(old_emitted + (seq![chunk] + stream_chunks(self.data() + x))
                                        =~= self.emitted@ + stream_chunks(self.data() + x));
                                }
                            }
                        }
                        Ok(ParseEvent::Chunk(chunk))
                    },
                    ChunkParse::Incomplete(needed) => {
                        if self.exhausted {
                            Err(ParseError::UnexpectedEndOfStream)
                        } else {
                            self.make_room(needed);
                            Ok(ParseEvent::NeedData)
                        }
                    },
                    ChunkParse::Mismatch => Err(ParseError::InvalidChunkEncoding),
                }
            },
        }
    }

    /// Once the end marker is produced, the chunks produced are exactly the
    /// chunks of the bytes fed, whatever bytes are fed after.
    pub proof fn lemma_finished_chunks(&self, x: Seq<u8>)
        requires
            self.wf(),
            self.stage() == Stage::Finished,
        ensures
            self.emitted() == stream_chunks(stream_body(self.fed()) + x),
            self.emitted() == stream_chunks(stream_body(self.fed())),
            self.fed().len() >= HEADER_LEN,
            self.emitted().len() > 0,
            self.emitted().last() is EndMarker,
    {
        assert(stream_body(self.fed@) + Seq::<u8>::empty() =~= stream_body(self.fed@));
        assert(stream_chunks(stream_body(self.fed@) + x) == self.emitted@);
        assert(stream_chunks(stream_body(self.fed@) + Seq::<u8>::empty()) == self.emitted@);
    }

    /// While chunks are being read, the chunks produced so far are the first
    /// chunks of the stream, whatever bytes are fed after.
    pub proof fn lemma_emitted_prefix(&self, x: Seq<u8>)
        requires
            self.wf(),
            self.stage() == Stage::ReadingChunks,
        ensures
            stream_chunks(stream_body(self.fed()) + x) == self.emitted() + stream_chunks(self.data() + x),
            self.emitted().len() == 0 || !(self.emitted().last() is EndMarker),
            self.fed().len() >= HEADER_LEN,
    {
    }

    /// Makes room for `needed` more bytes after the held ones: grows the
    /// memory (to double, or to what is needed if more) and moves the held
    /// bytes to its start.
    fn make_room(&mut self, needed: usize)
        requires
            old(self).wf(),
            old(self).data().len() + needed <= 14,
        ensures
            final(self).wf(),
            final(self).spec_space() >= needed,
            final(self).fed() == old(self).fed(),
            final(self).data() == old(self).data(),
            final(self).emitted() == old(self).emitted(),
            final(self).stage() == old(self).stage(),
            final(self).exhausted() == old(self).exhausted(),
    {
        let held = self.buffer.data().len();
        let total = held + needed;
        let capacity = self.buffer.capacity();
        if total > capacity {
            let doubled = capacity * 2;
            let target = if doubled > total {
                doubled
            } else {
                total
            };
            self.buffer.grow(target);
        }
        self.buffer.shift();
    }
}

/// Two parsers that were fed the same bytes, in reads of any sizes, produce
/// the same chunks once each has reached the end marker.
pub proof fn lemma_feed_equivalence(p: &QOIParser, q: &QOIParser)
    requires
        p.wf(),
        q.wf(),
        p.stage() == Stage::Finished,
        q.stage() == Stage::Finished,
        p.fed() == q.fed(),
    ensures
        p.emitted() == q.emitted(),
{
    p.lemma_finished_chunks(Seq::empty());
    q.lemma_finished_chunks(Seq::empty());
}

} // verus!
