//! The pixel reconstruction engine: replays chunks against the decode state.

use vstd::prelude::*;

use crate::chunk::QOIChunk;
use crate::header::QOIHeader;

verus! {

/// Number of slots of the color cache.
pub const INDEX_ARRAY_LENGTH: usize = 64;

#[derive(Debug, Clone, Copy, PartialEq, Eq, Structural)]
pub struct Pixel {
    pub r: u8,
    pub g: u8,
    pub b: u8,
    pub a: u8,
}

/// A pixel as the four bytes `r, g, b, a` of the output buffer.
#[derive(Debug, Clone, Copy)]
pub struct RawPixel(pub [u8; 4]);

impl View for RawPixel {
    type V = Pixel;

    open spec fn view(&self) -> Pixel {
        Pixel { r: self.0@[0], g: self.0@[1], b: self.0@[2], a: self.0@[3] }
    }
}

impl From<[u8; 4]> for RawPixel {
    fn from(bytes: [u8; 4]) -> (r: Self) {
        RawPixel(bytes)
    }
}

impl vstd::std_specs::convert::FromSpecImpl<[u8; 4]> for RawPixel {
    open spec fn obeys_from_spec() -> bool {
        true
    }

    open spec fn from_spec(bytes: [u8; 4]) -> Self {
        RawPixel(bytes)
    }
}

impl RawPixel {
    /// The four bytes `r, g, b, a`.
    pub fn bytes(&self) -> (r: [u8; 4])
        ensures
            r == self.0,
    {
        self.0
    }
}

/// The slot of the color cache that a pixel goes to.
pub open spec fn pixel_hash(p: Pixel) -> int {
    (p.r * 3 + p.g * 5 + p.b * 7 + p.a * 11) % 64
}

impl Pixel {
    pub fn new(r: u8, g: u8, b: u8, a: u8) -> (p: Self)
        ensures
            p == (Pixel { r, g, b, a }),
    {
        Pixel { r, g, b, a }
    }

    /// The color cache slot of this pixel.
    pub fn index(&self) -> (r: usize)
        ensures
            r == pixel_hash(*self),
            r < INDEX_ARRAY_LENGTH,
    {
        let (r, g, b, a) = (self.r as usize, self.g as usize, self.b as usize, self.a as usize);
        (r * 3 + g * 5 + b * 7 + a * 11) % 64
    }

    pub fn to_raw(self) -> (r: RawPixel)
        ensures
            r@ == self,
    {
        RawPixel([self.r, self.g, self.b, self.a])
    }
}

/// A channel value taken modulo 256.
pub open spec fn wrap8(x: int) -> u8 {
    (x % 256) as u8
}

/// Whether a chunk ends the stream or decoding goes on.
#[derive(Debug, Clone, Copy, PartialEq, Eq, Structural)]
pub enum Progress {
    Continue,
    Finished,
}

#[derive(Debug, Clone, Copy, PartialEq, Eq, Structural)]
pub enum DecodeError {
    /// An `OpIndex` chunk names a cache slot that no pixel has filled.
    InvalidCacheReference,
    /// The chunk would write past the declared pixel count.
    BufferOverrun,
}

/// The cache entry at `i`, or none where there is no such slot.
pub open spec fn cache_entry(cache: Seq<Option<Pixel>>, i: int) -> Option<Pixel> {
    if 0 <= i < cache.len() {
        cache[i]
    } else {
        None
    }
}

/// The pixel a chunk reconstructs from the previous pixel and the cache;
/// none for an index chunk whose slot is empty.
pub open spec fn chunk_pixel(prev: Pixel, cache: Seq<Option<Pixel>>, c: QOIChunk) -> Option<Pixel> {
    match c {
        QOIChunk::RGB(x) => Some(Pixel { r: x.r, g: x.g, b: x.b, a: prev.a }),
        QOIChunk::RGBA(x) => Some(Pixel { r: x.r, g: x.g, b: x.b, a: x.a }),
        QOIChunk::OpIndex(x) => cache_entry(cache, x.index as int),
        QOIChunk::OpDiff(d) => Some(
            Pixel {
                r: wrap8(prev.r + d.diff_r - 2),
                g: wrap8(prev.g + d.diff_g - 2),
                b: wrap8(prev.b + d.diff_b - 2),
                a: prev.a,
            },
        ),
        QOIChunk::OpLuma(l) => {
            let vg = l.diff_g - 32;
            Some(
                Pixel {
                    r: wrap8(prev.r + vg + l.dr_dg - 8),
                    g: wrap8(prev.g + vg),
                    b: wrap8(prev.b + vg + l.db_dg - 8),
                    a: prev.a,
                },
            )
        },
        QOIChunk::OpRun(_) => Some(prev),
        QOIChunk::EndMarker => Some(prev),
    }
}

/// How many output slots a chunk writes.
pub open spec fn run_length(c: QOIChunk) -> nat {
    match c {
        QOIChunk::OpRun(x) => (x.run + 1) as nat,
        QOIChunk::EndMarker => 0,
        _ => 1,
    }
}

/// `out` with `n` slots from `start` on set to `p`.
pub open spec fn write_run(out: Seq<Pixel>, start: int, n: int, p: Pixel) -> Seq<Pixel> {
    Seq::new(out.len(), |i: int| if start <= i < start + n { p } else { out[i] })
}

/// What processing a chunk returns, given the state and the output length.
pub open spec fn step_result(
    cursor: nat,
    prev: Pixel,
    cache: Seq<Option<Pixel>>,
    len: nat,
    c: QOIChunk,
) -> Result<Progress, DecodeError> {
    if c is EndMarker {
        Ok(Progress::Finished)
    } else if chunk_pixel(prev, cache, c) is None {
        Err(DecodeError::InvalidCacheReference)
    } else if cursor + run_length(c) > len {
        Err(DecodeError::BufferOverrun)
    } else {
        Ok(Progress::Continue)
    }
}

/// The decode state and the output, as mathematical values.
pub struct DecodeModel {
    pub cursor: nat,
    pub prev: Pixel,
    pub cache: Seq<Option<Pixel>>,
    pub out: Seq<Pixel>,
}

/// What processing one chunk does to the decode: the new state and whether
/// the stream ended, or the error. An end marker changes nothing; an error
/// changes nothing either.
pub open spec fn model_step(m: DecodeModel, c: QOIChunk) -> Result<(DecodeModel, Progress), DecodeError> {
    match step_result(m.cursor, m.prev, m.cache, m.out.len(), c) {
        Err(e) => Err(e),
        Ok(Progress::Finished) => Ok((m, Progress::Finished)),
        Ok(Progress::Continue) => {
            let p = chunk_pixel(m.prev, m.cache, c)->Some_0;
            let n = run_length(c);
            Ok(
                (
                    DecodeModel {
                        cursor: m.cursor + n,
                        prev: p,
                        cache: m.cache.update(pixel_hash(p), Some(p)),
                        out: write_run(m.out, m.cursor as int, n as int, p),
                    },
                    Progress::Continue,
                ),
            )
        },
    }
}

/// Processing chunks in order until the end marker, the end of the
/// sequence, or the first error.
#[verifier::opaque]
pub open spec fn model_run(m: DecodeModel, cs: Seq<QOIChunk>) -> Result<DecodeModel, DecodeError>
    decreases cs.len(),
{
    if cs.len() == 0 {
        Ok(m)
    } else {
        match model_step(m, cs[0]) {
            Err(e) => Err(e),
            Ok((m2, Progress::Finished)) => Ok(m2),
            Ok((m2, Progress::Continue)) => model_run(m2, cs.drop_first()),
        }
    }
}

/// The pixels a buffer of raw pixels holds.
pub open spec fn pixels_of(buf: Seq<RawPixel>) -> Seq<Pixel> {
    buf.map_values(|x: RawPixel| x@)
}

/// The running state of a decode.
pub struct DecoderState {
    /// Index of the next output slot to write.
    pub cursor: usize,
    pub prev_pixel: Pixel,
    /// The color cache, one entry per slot.
    pub cache: Vec<Option<Pixel>>,
}

impl DecoderState {
    pub open spec fn wf(&self) -> bool {
        self.cache@.len() == INDEX_ARRAY_LENGTH
    }

    /// The cache holds the previous pixel at its slot.
    pub open spec fn cache_consistent(&self) -> bool {
        self.cache@[pixel_hash(self.prev_pixel)] == Some(self.prev_pixel)
    }
}

impl DecoderState {
    pub open spec fn model(&self, buffer: Seq<RawPixel>) -> DecodeModel {
        DecodeModel {
            cursor: self.cursor as nat,
            prev: self.prev_pixel,
            cache: self.cache@,
            out: pixels_of(buffer),
        }
    }
}

impl Default for DecoderState {
    fn default() -> (r: Self)
        ensures
            r.wf(),
            r.cursor == 0,
            r.prev_pixel == (Pixel { r: 0, g: 0, b: 0, a: 255 }),
            forall|i: int| 0 <= i < r.cache@.len() ==> r.cache@[i] is None,
    {
        let mut cache: Vec<Option<Pixel>> = Vec::new();
        let mut i: usize = 0;
        while i < INDEX_ARRAY_LENGTH
            invariant
                i <= INDEX_ARRAY_LENGTH,
                cache@.len() == i,
                forall|j: int| 0 <= j < i ==> cache@[j] is None,
            decreases INDEX_ARRAY_LENGTH - i,
        {
            cache.push(None);
            i = i + 1;
        }
        DecoderState { cursor: 0, prev_pixel: Pixel::new(0, 0, 0, 255), cache }
    }
}

fn diff_channel(prev: u8, diff: u8) -> (r: u8)
    ensures
        r == wrap8(prev + diff - 2),
{
    prev.wrapping_add(diff).wrapping_sub(2)
}

fn luma_channel(prev: u8, vg: u8, d: u8) -> (r: u8)
    ensures
        r == wrap8(prev + vg - 32 + d - 8),
{
    prev.wrapping_add(vg).wrapping_sub(32).wrapping_add(d).wrapping_sub(8)
}

fn luma_green(prev: u8, vg: u8) -> (r: u8)
    ensures
        r == wrap8(prev + vg - 32),
{
    prev.wrapping_add(vg).wrapping_sub(32)
}

/// Computes the pixel a chunk reconstructs.
fn compute_pixel(state: &DecoderState, chunk: &QOIChunk) -> (r: Option<Pixel>)
    requires
        state.wf(),
    ensures
        r == chunk_pixel(state.prev_pixel, state.cache@, *chunk),
{
    let prev = state.prev_pixel;
    match chunk {
        QOIChunk::RGB(x) => Some(Pixel::new(x.r, x.g, x.b, prev.a)),
        QOIChunk::RGBA(x) => Some(Pixel::new(x.r, x.g, x.b, x.a)),
        QOIChunk::OpIndex(x) => {
            let i = x.index as usize;
            if i < INDEX_ARRAY_LENGTH {
                state.cache[i]
            } else {
                None
            }
        },
        QOIChunk::OpDiff(d) => Some(
            Pixel::new(
                diff_channel(prev.r, d.diff_r),
                diff_channel(prev.g, d.diff_g),
                diff_channel(prev.b, d.diff_b),
                prev.a,
            ),
        ),
        QOIChunk::OpLuma(l) => Some(
            Pixel::new(
                luma_channel(prev.r, l.diff_g, l.dr_dg),
                luma_green(prev.g, l.diff_g),
                luma_channel(prev.b, l.diff_g, l.db_dg),
                prev.a,
            ),
        ),
        QOIChunk::OpRun(_) => Some(prev),
        QOIChunk::EndMarker => Some(prev),
    }
}

pub struct QOIDecoder {
    header: QOIHeader,
    buffer: Vec<RawPixel>,
    state: DecoderState,
}

/// The decode before any chunk: every slot `(0, 0, 0, 255)`.
pub open spec fn initial_model(n: nat) -> DecodeModel {
    DecodeModel {
        cursor: 0,
        prev: Pixel { r: 0, g: 0, b: 0, a: 255 },
        cache: Seq::new(64, |i: int| None),
        out: Seq::new(n, |i: int| Pixel { r: 0, g: 0, b: 0, a: 255 }),
    }
}

impl QOIDecoder {
    pub closed spec fn wf(&self) -> bool {
        &&& self.state.wf()
        &&& self.state.cursor <= self.buffer@.len()
    }

    pub closed spec fn model(&self) -> DecodeModel {
        self.state.model(self.buffer@)
    }

    pub closed spec fn spec_header(&self) -> QOIHeader {
        self.header
    }

    /// A decoder with an output buffer of `width * height` pixels.
    pub fn new(header: QOIHeader) -> (r: Self)
        requires
            header.pixel_count() <= usize::MAX,
        ensures
            r.wf(),
            r.model() == initial_model(header.pixel_count()),
            r.spec_header() == header,
    {
        let (w, h) = (header.width() as usize, header.height() as usize);
        assert((w as int) * (h as int) == header.pixel_count());
        let capacity = w * h;
        let fill = Pixel::new(0, 0, 0, 255);
        let mut buffer: Vec<RawPixel> = Vec::new();
        let mut i: usize = 0;
        while i < capacity
            invariant
                i <= capacity,
                buffer@.len() == i,
                forall|j: int| 0 <= j < i ==> buffer@[j]@ == fill,
            decreases capacity - i,
        {
            buffer.push(fill.to_raw());
            i = i + 1;
        }
        let state = DecoderState::default();
        let r = Self { header, buffer, state };
        assert(r.model().cache =~= initial_model(header.pixel_count()).cache);
        assert(r.model().out =~= initial_model(header.pixel_count()).out);
        r
    }

    /// Applies one chunk to the decode state and the output buffer.
    ///
    /// A pixel chunk writes its pixel at the cursor, a run writes the previous
    /// pixel `run + 1` times; either way the cursor moves past what was
    /// written, the pixel becomes the previous one and enters the cache. The
    /// end marker is a pure stop signal: it writes nothing and leaves the
    /// state as it is. A chunk that would write past the buffer, or an index
    /// chunk naming an empty slot, is an error and changes nothing.
    pub fn decode_chunk(buffer: &mut Vec<RawPixel>, state: &mut DecoderState, chunk: QOIChunk) -> (r: Result<Progress, DecodeError>)
        requires
            old(state).wf(),
            old(state).cursor <= old(buffer)@.len(),
        ensures
            final(state).wf(),
            final(state).cursor <= final(buffer)@.len(),
            final(buffer)@.len() == old(buffer)@.len(),
            r is Err ==> model_step(old(state).model(old(buffer)@), chunk) == Err::<(DecodeModel, Progress), DecodeError>(r->Err_0),
            r is Ok ==> model_step(old(state).model(old(buffer)@), chunk) == Ok::<(DecodeModel, Progress), DecodeError>((final(state).model(final(buffer)@), r->Ok_0)),
            r is Err ==> final(state).model(final(buffer)@) == old(state).model(old(buffer)@),
            r == Ok::<Progress, DecodeError>(Progress::Continue) ==> final(state).cache_consistent(),
    {
        proof {
            lemma_hash_bound(state.prev_pixel);
        }
        if matches!(chunk, QOIChunk::EndMarker) {
            return Ok(Progress::Finished);
        }
        let pixel = match compute_pixel(state, &chunk) {
            Some(p) => p,
            None => return Err(DecodeError::InvalidCacheReference),
        };
        let n: usize = match chunk {
            QOIChunk::OpRun(x) => x.run as usize + 1,
            _ => 1,
        };
        if n > buffer.len() - state.cursor {
            return Err(DecodeError::BufferOverrun);
        }
        let ghost old_out = pixels_of(buffer@);
        let start = state.cursor;
        let end = start + n;
        let raw = pixel.to_raw();
        let mut k: usize = 0;
        while k < n
            invariant
                k <= n,
                end == start + n,
                end <= buffer@.len(),
                raw@ == pixel,
                buffer@.len() == old_out.len(),
                pixels_of(buffer@) =~= write_run(old_out, start as int, k as int, pixel),
            decreases n - k,
        {
            let ghost before = buffer@;
            buffer.set(start + k, raw);
            proof {
                assert forall|i: int| 0 <= i < buffer@.len() implies #[trigger] pixels_of(buffer@)[i]
                    == write_run(old_out, start as int, k + 1, pixel)[i] by {
                    if i != start + k {
                        assert(pixels_of(before)[i] == write_run(old_out, start as int, k as int, pixel)[i]);
                    }
                }
                assert(pixels_of(buffer@) =~= write_run(old_out, start as int, k + 1, pixel));
            }
            k = k + 1;
        }
        let slot = pixel.index();
        state.prev_pixel = pixel;
        state.cache.set(slot, Some(pixel));
        state.cursor = start + n;
        Ok(Progress::Continue)
    }
}

impl QOIDecoder {
    pub fn header(&self) -> (r: QOIHeader)
        ensures
            r == self.spec_header(),
    {
        self.header
    }

    /// Applies one chunk to this decoder.
    pub fn process(&mut self, chunk: QOIChunk) -> (r: Result<Progress, DecodeError>)
        requires
            old(self).wf(),
        ensures
            final(self).wf(),
            final(self).spec_header() == old(self).spec_header(),
            r is Err ==> model_step(old(self).model(), chunk) == Err::<(DecodeModel, Progress), DecodeError>(r->Err_0),
            r is Ok ==> model_step(old(self).model(), chunk) == Ok::<(DecodeModel, Progress), DecodeError>((final(self).model(), r->Ok_0)),
            r is Err ==> final(self).model() == old(self).model(),
    {
        Self::decode_chunk(&mut self.buffer, &mut self.state, chunk)
    }

    /// The output buffer as it stands.
    pub fn into_pixels(self) -> (r: Vec<RawPixel>)
        ensures
            pixels_of(r@) == self.model().out,
    {
        self.buffer
    }

    /// Applies `chunks` in order, stopping at the end marker, and returns the
    /// output buffer, or the first error.
    pub fn decode(self, chunks: &[QOIChunk]) -> (r: Result<Vec<RawPixel>, DecodeError>)
        requires
            self.wf(),
        ensures
            model_run(self.model(), chunks@) is Ok ==> r is Ok && pixels_of(r->Ok_0@) == model_run(self.model(), chunks@)->Ok_0.out,
            model_run(self.model(), chunks@) is Err ==> r == Err::<Vec<RawPixel>, DecodeError>(model_run(self.model(), chunks@)->Err_0),
    {
        let mut dec = self;
        let ghost whole = model_run(self.model(), chunks@);
        let mut i: usize = 0;
        assert(chunks@.skip(0) =~= chunks@);
        while i < chunks.len()
            invariant
                dec.wf(),
                i <= chunks@.len(),
                whole == model_run(self.model(), chunks@),
                whole == model_run(dec.model(), chunks@.skip(i as int)),
            decreases chunks@.len() - i,
        {
            let c = chunks[i];
            let ghost before = dec.model();
            proof {
                let rest = chunks@.skip(i as int);
                assert(rest[0] == c);
                assert(rest.drop_first() =~= chunks@.skip(i + 1));
                lemma_run_unfold(before, rest);
            }
            let res = dec.process(c);
            match res {
                Err(e) => {
                    assert(model_step(before, c) == Err::<(DecodeModel, Progress), DecodeError>(e));
                    assert(whole == Err::<DecodeModel, DecodeError>(e));
                    return Err(e);
                },
                Ok(Progress::Finished) => {
                    return Ok(dec.into_pixels());
                },
                Ok(Progress::Continue) => {},
            }
            i = i + 1;
        }
        proof {
            lemma_run_empty(dec.model(), chunks@.skip(i as int));
        }
        Ok(dec.into_pixels())
    }
}

proof fn lemma_run_unfold(m: DecodeModel, cs: Seq<QOIChunk>)
    requires
        cs.len() > 0,
    ensures
        model_step(m, cs[0]) is Err ==> model_run(m, cs) == Err::<DecodeModel, DecodeError>(model_step(m, cs[0])->Err_0),
        model_step(m, cs[0]) is Ok && model_step(m, cs[0])->Ok_0.1 == Progress::Finished
            ==> model_run(m, cs) == Ok::<DecodeModel, DecodeError>(model_step(m, cs[0])->Ok_0.0),
        model_step(m, cs[0]) is Ok && model_step(m, cs[0])->Ok_0.1 == Progress::Continue
            ==> model_run(m, cs) == model_run(model_step(m, cs[0])->Ok_0.0, cs.drop_first()),
{
    reveal_with_fuel(model_run, 1);
}

proof fn lemma_run_empty(m: DecodeModel, cs: Seq<QOIChunk>)
    requires
        cs.len() == 0,
    ensures
        model_run(m, cs) == Ok::<DecodeModel, DecodeError>(m),
{
    reveal_with_fuel(model_run, 1);
}

/// After any chunk that does not end the stream, the cache holds the
/// previous pixel at that pixel's slot.
pub proof fn lemma_cache_consistent(m: DecodeModel, c: QOIChunk)
    requires
        m.cache.len() == INDEX_ARRAY_LENGTH,
        model_step(m, c) is Ok,
        model_step(m, c)->Ok_0.1 == Progress::Continue,
    ensures
        ({
            let m2 = model_step(m, c)->Ok_0.0;
            m2.cache[pixel_hash(m2.prev)] == Some(m2.prev)
        }),
{
    let p = chunk_pixel(m.prev, m.cache, c)->Some_0;
    lemma_hash_bound(p);
}

/// Output slots that a chunk sequence writes, up to the end marker.
pub open spec fn total_writes(cs: Seq<QOIChunk>) -> nat
    decreases cs.len(),
{
    if cs.len() == 0 {
        0
    } else if cs[0] is EndMarker {
        0
    } else {
        run_length(cs[0]) + total_writes(cs.drop_first())
    }
}

/// A chunk sequence that writes more pixels than the output has room for
/// ends in an error, never in a truncated or enlarged output; with no index
/// chunk in it, that error is the overrun.
pub proof fn lemma_overrun_detected(m: DecodeModel, cs: Seq<QOIChunk>)
    requires
        m.cache.len() == INDEX_ARRAY_LENGTH,
        m.cursor <= m.out.len(),
        m.cursor + total_writes(cs) > m.out.len(),
    ensures
        model_run(m, cs) is Err,
        (forall|i: int| 0 <= i < cs.len() ==> !(cs[i] is OpIndex)) ==> model_run(m, cs)
            == Err::<DecodeModel, DecodeError>(DecodeError::BufferOverrun),
    decreases cs.len(),
{
    lemma_run_unfold(m, cs);
    let c = cs[0];
    match model_step(m, c) {
        Err(_) => {},
        Ok((m2, _)) => {
            let rest = cs.drop_first();
            lemma_overrun_detected(m2, rest);
            assert forall|i: int| 0 <= i < rest.len() && !(cs[i + 1] is OpIndex) implies !(#[trigger] rest[i] is OpIndex) by {}
        },
    }
}

/// An index chunk that names a slot no pixel has filled ends the decode with
/// the invalid cache reference error, in particular as the first chunk.
pub proof fn lemma_invalid_index_detected(m: DecodeModel, cs: Seq<QOIChunk>)
    requires
        m.cache.len() == INDEX_ARRAY_LENGTH,
        cs.len() > 0,
        cs[0] is OpIndex,
        cache_entry(m.cache, cs[0]->OpIndex_0.index as int) is None,
    ensures
        model_run(m, cs) == Err::<DecodeModel, DecodeError>(DecodeError::InvalidCacheReference),
{
    lemma_run_unfold(m, cs);
}

/// The cache of a fresh decode is empty, so an index chunk first is an error.
pub proof fn lemma_initial_index_invalid(n: nat, cs: Seq<QOIChunk>)
    requires
        cs.len() > 0,
        cs[0] is OpIndex,
    ensures
        model_run(initial_model(n), cs) == Err::<DecodeModel, DecodeError>(DecodeError::InvalidCacheReference),
{
    lemma_invalid_index_detected(initial_model(n), cs);
}

proof fn lemma_hash_bound(p: Pixel)
    ensures
        0 <= pixel_hash(p) < 64,
{
}

} // verus!
