//! Streaming decoder for the QOI ("Quite OK Image") format.
//!
//! The library is split into the chunk grammar, the header reader, the
//! incremental parser that owns the staging buffer, and the pixel
//! reconstruction engine. Everything here is pure: the byte source and the
//! threads that connect producer and consumer live with the caller.

use vstd::prelude::*;

pub mod chunk;
pub mod header;
pub mod decoder;
pub mod staging;
pub mod parser;

pub use crate::chunk::QOIChunk;
pub use crate::decoder::{Pixel, QOIDecoder, RawPixel};
pub use crate::header::QOIHeader;
pub use crate::parser::QOIParser;

use crate::chunk::{lemma_grammar_total, stream_chunks};
use crate::decoder::{initial_model, model_run, pixels_of, DecodeError};
use crate::header::{header_spec, lemma_header_extends, HeaderParse};
use crate::parser::{stream_body, ParseError, ParseEvent, Stage};

verus! {

#[derive(Debug, Clone, Copy, PartialEq, Eq, Structural)]
pub enum QoiError {
    Parse(ParseError),
    Decode(DecodeError),
    /// The header declares more pixels than a buffer can hold.
    TooLarge,
}

/// What decoding a whole byte stream gives: the header and the pixels, or
/// the first error. Parse errors come before decode errors, since every
/// chunk up to the end marker is read first.
pub open spec fn decode_spec(bytes: Seq<u8>) -> Result<(QOIHeader, Seq<Pixel>), QoiError> {
    match header_spec(bytes) {
        HeaderParse::Parsed(h, _) => if h.pixel_count() > usize::MAX {
            Err(QoiError::TooLarge)
        } else {
            let cs = stream_chunks(stream_body(bytes));
            if cs.len() == 0 || !(cs.last() is EndMarker) {
                Err(QoiError::Parse(ParseError::UnexpectedEndOfStream))
            } else {
                match model_run(initial_model(h.pixel_count()), cs) {
                    Ok(m) => Ok((h, m.out)),
                    Err(e) => Err(QoiError::Decode(e)),
                }
            }
        },
        _ => Err(QoiError::Parse(ParseError::MalformedHeader)),
    }
}

/// Decodes `input` as though the source delivered it in reads of at most
/// `read_size` bytes (a size of zero counts as one). The result does not
/// depend on the read size.
pub fn decode_with_reads(input: &[u8], read_size: usize) -> (r: Result<(QOIHeader, Vec<RawPixel>), QoiError>)
    ensures
        r is Ok <==> decode_spec(input@) is Ok,
        r is Ok ==> r->Ok_0.0 == decode_spec(input@)->Ok_0.0 && pixels_of(r->Ok_0.1@) == decode_spec(input@)->Ok_0.1,
        r is Err ==> r->Err_0 == decode_spec(input@)->Err_0,
{
    let step: usize = if read_size == 0 {
        1
    } else {
        read_size
    };
    let mut parser = QOIParser::new();
    let mut pos: usize = 0;
    let mut header: QOIHeader = QOIHeader::new(0, 0, 0, 0);
    let mut chunks: Vec<QOIChunk> = Vec::new();
    assert(input@.take(0) =~= Seq::<u8>::empty());
    loop
        invariant
            step >= 1,
            parser.wf(),
            pos <= input@.len(),
            parser.fed() == input@.take(pos as int),
            parser.exhausted() ==> pos == input@.len(),
            chunks@ == parser.emitted(),
            parser.stage() != Stage::ReadingHeader ==> {
                &&& header_spec(input@) == HeaderParse::Parsed(header, 14)
                &&& header.pixel_count() <= usize::MAX
            },
        ensures
            parser.wf(),
            parser.stage() == Stage::Finished,
            pos <= input@.len(),
            parser.fed() == input@.take(pos as int),
            chunks@ == parser.emitted(),
            header_spec(input@) == HeaderParse::Parsed(header, 14),
            header.pixel_count() <= usize::MAX,
        decreases 2 * (input@.len() - pos) + parser.data().len() + if parser.exhausted() { 0int } else { 1int },
    {
        proof {
            lemma_grammar_total(parser.data());
        }
        let ghost prefix = input@.take(pos as int);
        let ghost rest = input@.skip(pos as int);
        assert(prefix + rest =~= input@);
        let ghost stage = parser.stage();
        let ghost data = parser.data();
        proof {
            if stage == Stage::ReadingHeader {
                parser.lemma_header_stage();
            }
        }
        let event = parser.parse();
        match event {
            Err(e) => {
                proof {
                    if stage == Stage::ReadingHeader {
                        if !(header_spec(data) is Incomplete) {
                            lemma_header_extends(data, rest);
                        } else {
                            assert(rest.len() == 0);
                            assert(prefix =~= input@);
                        }
                    } else {
                        assert(prefix =~= input@);
                        assert(data + Seq::<u8>::empty() =~= data);
                        parser.lemma_emitted_prefix(Seq::empty());
                        assert(stream_body(input@) + Seq::<u8>::empty() =~= stream_body(input@));
                        assert(stream_chunks(data) == Seq::<QOIChunk>::empty());
                        assert(stream_chunks(stream_body(input@)) =~= chunks@);
                    }
                }
                return Err(QoiError::Parse(e));
            },
            Ok(ParseEvent::Header(h)) => {
                proof {
                    lemma_header_extends(data, rest);
                }
                let (w, hh) = (h.width() as u64, h.height() as u64);
                assert(0 <= (w as int) * (hh as int) <= 0xffff_fffe_0000_0001) by (nonlinear_arith)
                    requires
                        0 <= w <= 0xffff_ffff,
                        0 <= hh <= 0xffff_ffff,
                ;
                let count = w * hh;
                assert(count as int == h.pixel_count());
                if count > usize::MAX as u64 {
                    return Err(QoiError::TooLarge);
                }
                header = h;
            },
            Ok(ParseEvent::Chunk(c)) => {
                chunks.push(c);
            },
            Ok(ParseEvent::NeedData) => {
                if pos < input.len() {
                    let space = parser.space();
                    let mut n: usize = input.len() - pos;
                    if n > step {
                        n = step;
                    }
                    if n > space {
                        n = space;
                    }
                    let piece = vstd::slice::slice_subrange(input, pos, pos + n);
                    parser.feed(piece);
                    assert(input@.take(pos as int) + input@.subrange(pos as int, (pos + n) as int)
                        =~= input@.take((pos + n) as int));
                    pos = pos + n;
                } else {
                    parser.end_of_input();
                }
            },
            Ok(ParseEvent::Done) => {
                break;
            },
        }
    }
    proof {
        let rest = input@.skip(pos as int);
        parser.lemma_finished_chunks(rest);
        assert(stream_body(input@.take(pos as int)) + rest =~= stream_body(input@));
        assert(chunks@ == stream_chunks(stream_body(input@)));
    }
    let decoder = QOIDecoder::new(header);
    match decoder.decode(chunks.as_slice()) {
        Ok(pixels) => Ok((header, pixels)),
        Err(e) => Err(QoiError::Decode(e)),
    }
}

/// Decodes a whole QOI byte stream held in memory.
pub fn decode_bytes(input: &[u8]) -> (r: Result<(QOIHeader, Vec<RawPixel>), QoiError>)
    ensures
        r is Ok <==> decode_spec(input@) is Ok,
        r is Ok ==> r->Ok_0.0 == decode_spec(input@)->Ok_0.0 && pixels_of(r->Ok_0.1@) == decode_spec(input@)->Ok_0.1,
        r is Err ==> r->Err_0 == decode_spec(input@)->Err_0,
{
    decode_with_reads(input, input.len())
}

} // verus!
