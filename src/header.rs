//! The fixed 14-byte header: magic `qoif`, width, height, channels, colorspace.

use vstd::prelude::*;

verus! {

/// Length in bytes of the header.
pub const HEADER_LEN: usize = 14;

#[derive(Debug, Clone, Copy, PartialEq, Eq, Structural)]
pub struct QOIHeader {
    width: u32,
    height: u32,
    channels: u8,
    colorspace: u8,
}

impl QOIHeader {
    pub closed spec fn spec_width(&self) -> u32 {
        self.width
    }

    pub closed spec fn spec_height(&self) -> u32 {
        self.height
    }

    pub closed spec fn spec_channels(&self) -> u8 {
        self.channels
    }

    pub closed spec fn spec_colorspace(&self) -> u8 {
        self.colorspace
    }

    /// The header holds exactly these four values.
    pub open spec fn holds(&self, width: u32, height: u32, channels: u8, colorspace: u8) -> bool {
        &&& self.spec_width() == width
        &&& self.spec_height() == height
        &&& self.spec_channels() == channels
        &&& self.spec_colorspace() == colorspace
    }

    /// Number of pixels the header declares.
    pub open spec fn pixel_count(&self) -> nat {
        (self.spec_width() * self.spec_height()) as nat
    }

    pub fn new(width: u32, height: u32, channels: u8, colorspace: u8) -> (r: Self)
        ensures
            r.holds(width, height, channels, colorspace),
    {
        Self { width, height, channels, colorspace }
    }

    pub fn height(&self) -> (r: u32)
        ensures
            r == self.spec_height(),
    {
        self.height
    }

    pub fn width(&self) -> (r: u32)
        ensures
            r == self.spec_width(),
    {
        self.width
    }

    pub fn channels(&self) -> (r: u8)
        ensures
            r == self.spec_channels(),
    {
        self.channels
    }

    pub fn colorspace(&self) -> (r: u8)
        ensures
            r == self.spec_colorspace(),
    {
        self.colorspace
    }
}

/// Outcome of reading the header from the start of a byte window.
#[derive(Debug, Clone, Copy, PartialEq, Eq, Structural)]
pub enum HeaderParse {
    /// The header and the number of bytes it occupies.
    Parsed(QOIHeader, usize),
    /// The window agrees with the magic so far but is too short.
    Incomplete(usize),
    /// The magic does not match.
    Malformed,
}

pub open spec fn magic_bytes() -> Seq<u8> {
    seq![0x71u8, 0x6fu8, 0x69u8, 0x66u8]
}

/// The unsigned big-endian integer held in `s[i..i + 4]`.
pub open spec fn be_u32_at(s: Seq<u8>, i: int) -> int {
    s[i] * 16777216 + s[i + 1] * 65536 + s[i + 2] * 256 + s[i + 3]
}

/// The window agrees with the magic on every byte that both hold.
pub open spec fn agrees_with_magic(s: Seq<u8>) -> bool {
    forall|i: int| 0 <= i < s.len() && i < 4 ==> s[i] == magic_bytes()[i]
}

pub open spec fn header_spec(s: Seq<u8>) -> HeaderParse {
    if !agrees_with_magic(s) {
        HeaderParse::Malformed
    } else if s.len() < 14 {
        HeaderParse::Incomplete((14 - s.len()) as usize)
    } else {
        HeaderParse::Parsed(QOIHeader::spec_new(be_u32_at(s, 4) as u32, be_u32_at(s, 8) as u32, s[12], s[13]), 14)
    }
}

impl QOIHeader {
    pub closed spec fn spec_new(width: u32, height: u32, channels: u8, colorspace: u8) -> Self {
        Self { width, height, channels, colorspace }
    }

    pub proof fn lemma_spec_new(width: u32, height: u32, channels: u8, colorspace: u8)
        ensures
            #[trigger] Self::spec_new(width, height, channels, colorspace).holds(width, height, channels, colorspace),
    {
    }
}

/// The four big-endian bytes of `v`.
pub open spec fn be_u32_bytes(v: u32) -> Seq<u8> {
    seq![
        (v / 256 / 256 / 256) as u8,
        (v / 256 / 256 % 256) as u8,
        (v / 256 % 256) as u8,
        (v % 256) as u8,
    ]
}

/// The header bytes that hold these four values.
pub open spec fn header_bytes(width: u32, height: u32, channels: u8, colorspace: u8) -> Seq<u8> {
    magic_bytes() + be_u32_bytes(width) + be_u32_bytes(height) + seq![channels, colorspace]
}

proof fn lemma_be_u32_round_trip(v: u32, s: Seq<u8>, i: int)
    requires
        0 <= i,
        i + 4 <= s.len(),
        s.subrange(i, i + 4) == be_u32_bytes(v),
    ensures
        be_u32_at(s, i) == v,
{
    assert(s[i] == be_u32_bytes(v)[0]);
    assert(s[i + 1] == be_u32_bytes(v)[1]);
    assert(s[i + 2] == be_u32_bytes(v)[2]);
    assert(s[i + 3] == be_u32_bytes(v)[3]);
}

/// Reading the header bytes of any four values, followed by any bytes,
/// gives back exactly those values and a width of 14 bytes.
pub proof fn lemma_header_round_trip(width: u32, height: u32, channels: u8, colorspace: u8, rest: Seq<u8>)
    ensures
        header_spec(header_bytes(width, height, channels, colorspace) + rest) matches HeaderParse::Parsed(h, n)
            && n == HEADER_LEN && h.holds(width, height, channels, colorspace),
{
    let s = header_bytes(width, height, channels, colorspace) + rest;
    assert(s.subrange(4, 8) =~= be_u32_bytes(width));
    assert(s.subrange(8, 12) =~= be_u32_bytes(height));
    lemma_be_u32_round_trip(width, s, 4);
    lemma_be_u32_round_trip(height, s, 8);
    assert(s[12] == channels);
    assert(s[13] == colorspace);
    assert forall|i: int| 0 <= i < s.len() && i < 4 implies s[i] == magic_bytes()[i] by {}
    QOIHeader::lemma_spec_new(width, height, channels, colorspace);
}

/// A header read, or a magic rejected, in a window stays so whatever bytes
/// come after the window.
pub proof fn lemma_header_extends(s: Seq<u8>, x: Seq<u8>)
    requires
        !(header_spec(s) is Incomplete),
    ensures
        header_spec(s + x) == header_spec(s),
{
    let t = s + x;
    if !agrees_with_magic(s) {
        let i = choose|i: int| 0 <= i < s.len() && i < 4 && s[i] != magic_bytes()[i];
        assert(t[i] == s[i]);
    } else {
        assert(s.len() >= 14);
        assert forall|i: int| 0 <= i < t.len() && i < 4 implies t[i] == magic_bytes()[i] by {
            assert(t[i] == s[i]);
        }
        assert(t[4] == s[4] && t[5] == s[5] && t[6] == s[6] && t[7] == s[7]);
        assert(t[8] == s[8] && t[9] == s[9] && t[10] == s[10] && t[11] == s[11]);
        assert(t[12] == s[12] && t[13] == s[13]);
    }
}

fn read_be_u32(input: &[u8], i: usize) -> (r: u32)
    requires
        i + 4 <= input.len(),
    ensures
        r == be_u32_at(input@, i as int),
{
    (input[i] as u32) * 16777216 + (input[i + 1] as u32) * 65536 + (input[i + 2] as u32) * 256
        + (input[i + 3] as u32)
}

/// Reads the header from the start of `input`.
pub fn parse_header(input: &[u8]) -> (r: HeaderParse)
    ensures
        r == header_spec(input@),
{
    let magic: [u8; 4] = [0x71, 0x6f, 0x69, 0x66];
    let mut i: usize = 0;
    while i < input.len() && i < 4
        invariant
            i <= input.len(),
            i <= 4,
            magic@ == magic_bytes(),
            forall|j: int| 0 <= j < i ==> input@[j] == magic_bytes()[j],
        decreases 4 - i,
    {
        if input[i] != magic[i] {
            return HeaderParse::Malformed;
        }
        i = i + 1;
    }
    if input.len() < HEADER_LEN {
        return HeaderParse::Incomplete(HEADER_LEN - input.len());
    }
    let width = read_be_u32(input, 4);
    let height = read_be_u32(input, 8);
    let header = QOIHeader { width, height, channels: input[12], colorspace: input[13] };
    HeaderParse::Parsed(header, HEADER_LEN)
}

} // verus!
