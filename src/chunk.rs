//! The chunk grammar: stateless recognizers that classify a byte window.

use vstd::prelude::*;

verus! {

pub const QOI_RGB_CHUNK_TAG: u8 = 0b11111110;

pub const QOI_RGBA_CHUNK_TAG: u8 = 0b11111111;

/// Two-bit tags, as the value of the top two bits of the first byte.
pub const QOI_OP_INDEX_CHUNK_TAG: u8 = 0b00;

pub const QOI_OP_DIFF_CHUNK_TAG: u8 = 0b01;

pub const QOI_OP_LUMA_CHUNK_TAG: u8 = 0b10;

pub const QOI_OP_RUN_CHUNK_TAG: u8 = 0b11;

/// Length in bytes of the end marker `00 00 00 00 00 00 00 01`.
pub const END_MARKER_LEN: usize = 8;

#[derive(Debug, Clone, Copy, PartialEq, Eq, Structural)]
pub struct RGB {
    pub r: u8,
    pub g: u8,
    pub b: u8,
}

#[derive(Debug, Clone, Copy, PartialEq, Eq, Structural)]
pub struct RGBA {
    pub r: u8,
    pub g: u8,
    pub b: u8,
    pub a: u8,
}

#[derive(Debug, Clone, Copy, PartialEq, Eq, Structural)]
pub struct OpIndex {
    pub index: u8,
}

#[derive(Debug, Clone, Copy, PartialEq, Eq, Structural)]
pub struct OpDiff {
    pub diff_r: u8,
    pub diff_g: u8,
    pub diff_b: u8,
}

#[derive(Debug, Clone, Copy, PartialEq, Eq, Structural)]
pub struct OpLuma {
    pub diff_g: u8,
    pub dr_dg: u8,
    pub db_dg: u8,
}

#[derive(Debug, Clone, Copy, PartialEq, Eq, Structural)]
pub struct OpRun {
    pub run: u8,
}

#[derive(Debug, Clone, Copy, PartialEq, Eq, Structural)]
pub enum QOIChunk {
    RGB(RGB),
    RGBA(RGBA),
    OpIndex(OpIndex),
    OpDiff(OpDiff),
    OpLuma(OpLuma),
    OpRun(OpRun),
    EndMarker,
}

/// Outcome of trying to recognize one chunk at the start of a byte window.
#[derive(Debug, Clone, Copy, PartialEq, Eq, Structural)]
pub enum ChunkParse {
    /// A chunk and the number of bytes it occupies.
    Parsed(QOIChunk, usize),
    /// The window is too short: this many more bytes are needed.
    Incomplete(usize),
    /// The bytes present match this recognizer's rule in no way.
    Mismatch,
}

/// The top two bits of a byte.
pub open spec fn tag2(b: u8) -> u8 {
    b / 64
}

/// The low six bits of a byte.
pub open spec fn payload6(b: u8) -> u8 {
    b % 64
}

pub open spec fn end_marker_bytes() -> Seq<u8> {
    seq![0u8, 0u8, 0u8, 0u8, 0u8, 0u8, 0u8, 1u8]
}

/// The window agrees with the end marker on every byte that both hold.
pub open spec fn agrees_with_end_marker(s: Seq<u8>) -> bool {
    forall|i: int| 0 <= i < s.len() && i < 8 ==> s[i] == end_marker_bytes()[i]
}

pub open spec fn end_marker_spec(s: Seq<u8>) -> ChunkParse {
    if !agrees_with_end_marker(s) {
        ChunkParse::Mismatch
    } else if s.len() >= 8 {
        ChunkParse::Parsed(QOIChunk::EndMarker, 8)
    } else {
        ChunkParse::Incomplete((8 - s.len()) as usize)
    }
}

pub open spec fn op_index_spec(s: Seq<u8>) -> ChunkParse {
    if s.len() == 0 {
        ChunkParse::Incomplete(1)
    } else if tag2(s[0]) == QOI_OP_INDEX_CHUNK_TAG {
        ChunkParse::Parsed(QOIChunk::OpIndex(OpIndex { index: payload6(s[0]) }), 1)
    } else {
        ChunkParse::Mismatch
    }
}

pub open spec fn rgb_spec(s: Seq<u8>) -> ChunkParse {
    if s.len() == 0 {
        ChunkParse::Incomplete(1)
    } else if s[0] != QOI_RGB_CHUNK_TAG {
        ChunkParse::Mismatch
    } else if s.len() < 4 {
        ChunkParse::Incomplete((4 - s.len()) as usize)
    } else {
        ChunkParse::Parsed(QOIChunk::RGB(RGB { r: s[1], g: s[2], b: s[3] }), 4)
    }
}

pub open spec fn rgba_spec(s: Seq<u8>) -> ChunkParse {
    if s.len() == 0 {
        ChunkParse::Incomplete(1)
    } else if s[0] != QOI_RGBA_CHUNK_TAG {
        ChunkParse::Mismatch
    } else if s.len() < 5 {
        ChunkParse::Incomplete((5 - s.len()) as usize)
    } else {
        ChunkParse::Parsed(QOIChunk::RGBA(RGBA { r: s[1], g: s[2], b: s[3], a: s[4] }), 5)
    }
}

pub open spec fn op_diff_spec(s: Seq<u8>) -> ChunkParse {
    if s.len() == 0 {
        ChunkParse::Incomplete(1)
    } else if tag2(s[0]) == QOI_OP_DIFF_CHUNK_TAG {
        ChunkParse::Parsed(
            QOIChunk::OpDiff(
                OpDiff { diff_r: (s[0] / 16) % 4, diff_g: (s[0] / 4) % 4, diff_b: s[0] % 4 },
            ),
            1,
        )
    } else {
        ChunkParse::Mismatch
    }
}

pub open spec fn op_luma_spec(s: Seq<u8>) -> ChunkParse {
    if s.len() == 0 {
        ChunkParse::Incomplete(2)
    } else if tag2(s[0]) != QOI_OP_LUMA_CHUNK_TAG {
        ChunkParse::Mismatch
    } else if s.len() < 2 {
        ChunkParse::Incomplete(1)
    } else {
        ChunkParse::Parsed(
            QOIChunk::OpLuma(
                OpLuma { diff_g: payload6(s[0]), dr_dg: s[1] / 16, db_dg: s[1] % 16 },
            ),
            2,
        )
    }
}

/// Every six-bit run value is accepted, the two the format reserves too.
pub open spec fn op_run_spec(s: Seq<u8>) -> ChunkParse {
    if s.len() == 0 {
        ChunkParse::Incomplete(1)
    } else if tag2(s[0]) == QOI_OP_RUN_CHUNK_TAG {
        ChunkParse::Parsed(QOIChunk::OpRun(OpRun { run: payload6(s[0]) }), 1)
    } else {
        ChunkParse::Mismatch
    }
}

/// The first recognizer, in priority order, that does not report a mismatch
/// decides: end marker, index, RGB, RGBA, diff, luma, run.
pub open spec fn chunk_spec(s: Seq<u8>) -> ChunkParse {
    if !(end_marker_spec(s) is Mismatch) {
        end_marker_spec(s)
    } else if !(op_index_spec(s) is Mismatch) {
        op_index_spec(s)
    } else if !(rgb_spec(s) is Mismatch) {
        rgb_spec(s)
    } else if !(rgba_spec(s) is Mismatch) {
        rgba_spec(s)
    } else if !(op_diff_spec(s) is Mismatch) {
        op_diff_spec(s)
    } else if !(op_luma_spec(s) is Mismatch) {
        op_luma_spec(s)
    } else {
        op_run_spec(s)
    }
}

/// The chunks of a chunk stream, in order, up to and including the end
/// marker, as far as the bytes present decide them.
pub open spec fn stream_chunks(s: Seq<u8>) -> Seq<QOIChunk>
    decreases s.len(),
{
    match chunk_spec(s) {
        ChunkParse::Parsed(c, k) => if 0 < k <= s.len() {
            if c is EndMarker {
                seq![c]
            } else {
                seq![c] + stream_chunks(s.skip(k as int))
            }
        } else {
            Seq::empty()
        },
        _ => Seq::empty(),
    }
}

/// Every window gets an answer: a chunk, or a count of missing bytes. The
/// grammar never rejects bytes, since every byte starts some chunk.
pub proof fn lemma_grammar_total(s: Seq<u8>)
    ensures
        !(chunk_spec(s) is Mismatch),
        chunk_spec(s) is Incomplete ==> 0 < chunk_spec(s)->Incomplete_0 && s.len()
            + chunk_spec(s)->Incomplete_0 <= 8,
        chunk_spec(s) is Parsed ==> 0 < chunk_spec(s)->Parsed_1 <= s.len(),
{
    if s.len() > 0 {
        assert(tag2(s[0]) < 4);
    }
}

/// A chunk recognized in a window is recognized the same way whatever bytes
/// come after the window.
pub proof fn lemma_chunk_extends(s: Seq<u8>, x: Seq<u8>)
    requires
        chunk_spec(s) is Parsed,
    ensures
        chunk_spec(s + x) == chunk_spec(s),
{
    let t = s + x;
    assert(s.len() > 0);
    assert(t[0] == s[0]);
    if s.len() >= 2 {
        assert(t[1] == s[1]);
    }
    if s.len() >= 5 {
        assert(t[2] == s[2]);
        assert(t[3] == s[3]);
        assert(t[4] == s[4]);
    } else if s.len() >= 4 {
        assert(t[2] == s[2]);
        assert(t[3] == s[3]);
    }
    if !agrees_with_end_marker(s) {
        let i = choose|i: int| 0 <= i < s.len() && i < 8 && s[i] != end_marker_bytes()[i];
        assert(t[i] == s[i]);
    } else {
        assert forall|i: int| 0 <= i < t.len() && i < 8 implies t[i] == end_marker_bytes()[i] by {
            assert(s.len() >= 8);
            assert(t[i] == s[i]);
        }
    }
}

/// The chunk stream of a window that starts with a chunk other than the end
/// marker is that chunk, then the stream of the rest.
pub proof fn lemma_stream_step(s: Seq<u8>, x: Seq<u8>)
    requires
        chunk_spec(s) is Parsed,
        !(chunk_spec(s)->Parsed_0 is EndMarker),
    ensures
        stream_chunks(s + x) == seq![chunk_spec(s)->Parsed_0] + stream_chunks(
            s.skip(chunk_spec(s)->Parsed_1 as int) + x,
        ),
{
    lemma_chunk_extends(s, x);
    lemma_grammar_total(s);
    let k = chunk_spec(s)->Parsed_1 as int;
    assert((s + x).skip(k) =~= s.skip(k) + x);
}

/// Once the end marker is recognized, later bytes add no chunk.
pub proof fn lemma_stream_end(s: Seq<u8>, x: Seq<u8>)
    requires
        chunk_spec(s) is Parsed,
        chunk_spec(s)->Parsed_0 is EndMarker,
    ensures
        stream_chunks(s + x) == seq![QOIChunk::EndMarker],
{
    lemma_chunk_extends(s, x);
    lemma_grammar_total(s);
}

pub fn parse_rgb_chunk(input: &[u8]) -> (r: ChunkParse)
    ensures
        r == rgb_spec(input@),
{
    if input.len() == 0 {
        return ChunkParse::Incomplete(1);
    }
    if input[0] != QOI_RGB_CHUNK_TAG {
        return ChunkParse::Mismatch;
    }
    if input.len() < 4 {
        return ChunkParse::Incomplete(4 - input.len());
    }
    ChunkParse::Parsed(QOIChunk::RGB(RGB { r: input[1], g: input[2], b: input[3] }), 4)
}

pub fn parse_rgba_chunk(input: &[u8]) -> (r: ChunkParse)
    ensures
        r == rgba_spec(input@),
{
    if input.len() == 0 {
        return ChunkParse::Incomplete(1);
    }
    if input[0] != QOI_RGBA_CHUNK_TAG {
        return ChunkParse::Mismatch;
    }
    if input.len() < 5 {
        return ChunkParse::Incomplete(5 - input.len());
    }
    ChunkParse::Parsed(
        QOIChunk::RGBA(RGBA { r: input[1], g: input[2], b: input[3], a: input[4] }),
        5,
    )
}

pub fn parse_op_index_chunk(input: &[u8]) -> (r: ChunkParse)
    ensures
        r == op_index_spec(input@),
{
    if input.len() == 0 {
        return ChunkParse::Incomplete(1);
    }
    let byte = input[0];
    if byte / 64 != QOI_OP_INDEX_CHUNK_TAG {
        return ChunkParse::Mismatch;
    }
    ChunkParse::Parsed(QOIChunk::OpIndex(OpIndex { index: byte % 64 }), 1)
}

pub fn parse_op_diff_chunk(input: &[u8]) -> (r: ChunkParse)
    ensures
        r == op_diff_spec(input@),
{
    if input.len() == 0 {
        return ChunkParse::Incomplete(1);
    }
    let byte = input[0];
    if byte / 64 != QOI_OP_DIFF_CHUNK_TAG {
        return ChunkParse::Mismatch;
    }
    let chunk = OpDiff { diff_r: (byte / 16) % 4, diff_g: (byte / 4) % 4, diff_b: byte % 4 };
    ChunkParse::Parsed(QOIChunk::OpDiff(chunk), 1)
}

pub fn parse_op_luma_chunk(input: &[u8]) -> (r: ChunkParse)
    ensures
        r == op_luma_spec(input@),
{
    if input.len() == 0 {
        return ChunkParse::Incomplete(2);
    }
    let first = input[0];
    if first / 64 != QOI_OP_LUMA_CHUNK_TAG {
        return ChunkParse::Mismatch;
    }
    if input.len() < 2 {
        return ChunkParse::Incomplete(1);
    }
    let second = input[1];
    let chunk = OpLuma { diff_g: first % 64, dr_dg: second / 16, db_dg: second % 16 };
    ChunkParse::Parsed(QOIChunk::OpLuma(chunk), 2)
}

pub fn parse_op_run_chunk(input: &[u8]) -> (r: ChunkParse)
    ensures
        r == op_run_spec(input@),
{
    if input.len() == 0 {
        return ChunkParse::Incomplete(1);
    }
    let byte = input[0];
    if byte / 64 != QOI_OP_RUN_CHUNK_TAG {
        return ChunkParse::Mismatch;
    }
    ChunkParse::Parsed(QOIChunk::OpRun(OpRun { run: byte % 64 }), 1)
}

pub fn parse_end_marker(input: &[u8]) -> (r: ChunkParse)
    ensures
        r == end_marker_spec(input@),
{
    let marker: [u8; 8] = [0, 0, 0, 0, 0, 0, 0, 1];
    let mut i: usize = 0;
    while i < input.len() && i < END_MARKER_LEN
        invariant
            i <= input.len(),
            i <= 8,
            marker@ == end_marker_bytes(),
            forall|j: int| 0 <= j < i ==> input@[j] == end_marker_bytes()[j],
        decreases 8 - i,
    {
        if input[i] != marker[i] {
            return ChunkParse::Mismatch;
        }
        i = i + 1;
    }
    if input.len() >= END_MARKER_LEN {
        ChunkParse::Parsed(QOIChunk::EndMarker, END_MARKER_LEN)
    } else {
        ChunkParse::Incomplete(END_MARKER_LEN - input.len())
    }
}

/// Recognizes one chunk, trying the variants in priority order.
pub fn parse_chunk(input: &[u8]) -> (r: ChunkParse)
    ensures
        r == chunk_spec(input@),
{
    let r = parse_end_marker(input);
    if !matches!(r, ChunkParse::Mismatch) {
        return r;
    }
    let r = parse_op_index_chunk(input);
    if !matches!(r, ChunkParse::Mismatch) {
        return r;
    }
    let r = parse_rgb_chunk(input);
    if !matches!(r, ChunkParse::Mismatch) {
        return r;
    }
    let r = parse_rgba_chunk(input);
    if !matches!(r, ChunkParse::Mismatch) {
        return r;
    }
    let r = parse_op_diff_chunk(input);
    if !matches!(r, ChunkParse::Mismatch) {
        return r;
    }
    let r = parse_op_luma_chunk(input);
    if !matches!(r, ChunkParse::Mismatch) {
        return r;
    }
    parse_op_run_chunk(input)
}

} // verus!
