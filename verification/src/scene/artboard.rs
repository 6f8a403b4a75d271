//! Artboard helpers: dirty flags and the colour of solid layers.
use vstd::prelude::*;
use vstd::string::StringSliceAdditionalSpecFns;

verus! {

/// Dependents need update.
pub const DIRT_DEPENDENTS: u32 = 1 << 0;
/// Transform changed.
pub const DIRT_TRANSFORM: u32 = 1 << 1;
/// World transform needs recalculation.
pub const DIRT_WORLD_TRANSFORM: u32 = 1 << 2;
/// Path geometry changed.
pub const DIRT_PATH: u32 = 1 << 3;
/// Paint properties changed.
pub const DIRT_PAINT: u32 = 1 << 4;
/// Blend mode changed.
pub const DIRT_BLEND_MODE: u32 = 1 << 5;
/// Render opacity changed.
pub const DIRT_RENDER_OPACITY: u32 = 1 << 6;
/// Clip changed.
pub const DIRT_CLIP: u32 = 1 << 7;
/// Draw order changed.
pub const DIRT_DRAW_ORDER: u32 = 1 << 8;
/// Gradient stops changed.
pub const DIRT_STOPS: u32 = 1 << 9;
/// Layout needs recalculation.
pub const DIRT_LAYOUT: u32 = 1 << 10;
/// Every flag.
pub const DIRT_ALL: u32 = 0x7FF;

/// Dirty flags of a component: which of its aspects need recalculation.
#[derive(Clone, Copy, Debug, PartialEq, Eq, Structural)]
pub struct ComponentDirt {
    bits: u32,
}

impl View for ComponentDirt {
    type V = u32;

    closed spec fn view(&self) -> u32 {
        self.bits
    }
}

impl ComponentDirt {
    /// The flags among `bits` (unknown bits dropped).
    pub fn from_bits_truncate(bits: u32) -> (d: ComponentDirt)
        ensures
            d@ == bits & DIRT_ALL,
    {
        ComponentDirt { bits: bits & DIRT_ALL }
    }

    pub fn empty() -> (d: ComponentDirt)
        ensures
            d@ == 0,
    {
        ComponentDirt { bits: 0 }
    }

    pub fn all() -> (d: ComponentDirt)
        ensures
            d@ == DIRT_ALL,
    {
        ComponentDirt { bits: DIRT_ALL }
    }

    pub fn bits(&self) -> (b: u32)
        ensures
            b == self@,
    {
        self.bits
    }

    /// Adds the flags of `other`.
    pub fn insert(&mut self, other: ComponentDirt)
        ensures
            final(self)@ == old(self)@ | other@,
    {
        self.bits = self.bits | other.bits;
    }

    /// Clears the flags of `other`.
    pub fn remove(&mut self, other: ComponentDirt)
        ensures
            final(self)@ == old(self)@ & !other@,
    {
        self.bits = self.bits & !other.bits;
    }

    /// Some flag of `other` is set.
    pub fn intersects(&self, other: ComponentDirt) -> (r: bool)
        ensures
            r == (self@ & other@ != 0),
    {
        self.bits & other.bits != 0
    }

    /// Every flag of `other` is set.
    pub fn contains(&self, other: ComponentDirt) -> (r: bool)
        ensures
            r == (self@ & other@ == other@),
    {
        self.bits & other.bits == other.bits
    }
}

/// After inserting flags they are all set; after removing them none is.
pub proof fn lemma_dirt_insert_remove(d: u32, f: u32)
    ensures
        (d | f) & f == f,
        (d & !f) & f == 0,
        f != 0 ==> (d | f) & f != 0,
{
    assert((d | f) & f == f) by (bit_vector);
    assert((d & !f) & f == 0) by (bit_vector);
    assert(f != 0 ==> (d | f) & f != 0) by (bit_vector);
}

// ─── Solid layer colour ─────────────────────────────────────

/// An 8-bit RGB colour.
#[derive(Clone, Copy, Debug, PartialEq, Eq, Structural)]
pub struct Rgb8 {
    pub r: u8,
    pub g: u8,
    pub b: u8,
}

/// The value of an ASCII hexadecimal digit.
pub open spec fn hex_digit(b: u8) -> Option<int> {
    if 48 <= b <= 57 {
        Some(b - 48)
    } else if 97 <= b <= 102 {
        Some(b - 87)
    } else if 65 <= b <= 70 {
        Some(b - 55)
    } else {
        None
    }
}

/// The byte that a two-byte field holds read as a hexadecimal number: two digits, or a
/// plus sign and one digit; anything else reads as 0.
pub open spec fn hex_pair(a: u8, b: u8) -> int {
    match (hex_digit(a), hex_digit(b)) {
        (Some(x), Some(y)) => 16 * x + y,
        (None, Some(y)) => if a == 43 {
            y
        } else {
            0
        },
        _ => 0,
    }
}

/// Number of leading `#` bytes.
pub open spec fn leading_hashes(bytes: Seq<u8>, from: int) -> int
    decreases bytes.len() - from,
{
    if from < 0 || from >= bytes.len() || bytes[from] != 35 {
        from
    } else {
        leading_hashes(bytes, from + 1)
    }
}

/// Colour channel `k` (0 red, 1 green, 2 blue) of a colour string: after the leading
/// `#`s, two bytes per channel; a channel past the end of the string reads as 0.
pub open spec fn hex_channel(bytes: Seq<u8>, k: int) -> int {
    let i = leading_hashes(bytes, 0) + 2 * k;
    if i + 2 <= bytes.len() {
        hex_pair(bytes[i], bytes[i + 1])
    } else {
        0
    }
}

fn hex_digit_exec(b: u8) -> (r: Option<u8>)
    ensures
        r matches Some(v) ==> hex_digit(b) == Some(v as int),
        r is None ==> hex_digit(b) is None,
{
    if 48 <= b && b <= 57 {
        Some(b - 48)
    } else if 97 <= b && b <= 102 {
        Some(b - 87)
    } else if 65 <= b && b <= 70 {
        Some(b - 55)
    } else {
        None
    }
}

fn hex_pair_exec(a: u8, b: u8) -> (r: u8)
    ensures
        r as int == hex_pair(a, b),
{
    match (hex_digit_exec(a), hex_digit_exec(b)) {
        (Some(x), Some(y)) => 16 * x + y,
        (None, Some(y)) => if a == 43 {
            y
        } else {
            0
        },
        _ => 0,
    }
}

fn hex_channel_exec(bytes: &[u8], start: usize, k: usize) -> (r: u8)
    requires
        start as int == leading_hashes(bytes@, 0),
        start <= bytes@.len(),
        k < 3,
    ensures
        r as int == hex_channel(bytes@, k as int),
{
    let len = bytes.len();
    if start <= len && 2 * k + 2 <= len - start {
        let i = start + 2 * k;
        hex_pair_exec(bytes[i], bytes[i + 1])
    } else {
        0
    }
}

proof fn lemma_leading_hashes_bounds(bytes: Seq<u8>, from: int)
    requires
        0 <= from <= bytes.len(),
    ensures
        from <= leading_hashes(bytes, from) <= bytes.len(),
    decreases bytes.len() - from,
{
    if from < bytes.len() && bytes[from] == 35 {
        lemma_leading_hashes_bounds(bytes, from + 1);
    }
}

/// The colour of a solid layer's colour string such as "#ff8800": after any leading
/// `#`s, red, green and blue in two hexadecimal digits each (see `hex_channel`).
pub fn parse_hex_color(hex: &str) -> (c: Rgb8)
    ensures
        c.r as int == hex_channel(hex.spec_bytes(), 0),
        c.g as int == hex_channel(hex.spec_bytes(), 1),
        c.b as int == hex_channel(hex.spec_bytes(), 2),
{
    let bytes = hex.as_bytes();
    let mut start: usize = 0;
    while start < bytes.len() && bytes[start] == 35
        invariant
            0 <= start <= bytes@.len(),
            leading_hashes(bytes@, 0) == leading_hashes(bytes@, start as int),
        decreases bytes@.len() - start,
    {
        start = start + 1;
    }
    proof {
        lemma_leading_hashes_bounds(bytes@, 0);
    }
    Rgb8 {
        r: hex_channel_exec(bytes, start, 0),
        g: hex_channel_exec(bytes, start, 1),
        b: hex_channel_exec(bytes, start, 2),
    }
}

proof fn lemma_leading_hashes_shift(bytes: Seq<u8>, from: int)
    requires
        0 <= from,
    ensures
        leading_hashes(seq![35u8] + bytes, from + 1) == 1 + leading_hashes(bytes, from),
    decreases bytes.len() - from,
{
    let h = seq![35u8] + bytes;
    if from < bytes.len() {
        assert(h[from + 1] == bytes[from]);
        if bytes[from] == 35 {
            lemma_leading_hashes_shift(bytes, from + 1);
        }
    }
}

/// A `#` put in front of a colour string does not change its colour, and every channel
/// is a byte value.
pub proof fn lemma_hex_color_hash_prefix(bytes: Seq<u8>, k: int)
    requires
        0 <= k < 3,
    ensures
        hex_channel(seq![35u8] + bytes, k) == hex_channel(bytes, k),
        0 <= hex_channel(bytes, k) <= 255,
{
    let h = seq![35u8] + bytes;
    assert(h[0] == 35u8);
    lemma_leading_hashes_shift(bytes, 0);
    lemma_leading_hashes_bounds(bytes, 0);
    assert(leading_hashes(h, 0) == leading_hashes(h, 1));
    let i = leading_hashes(bytes, 0) + 2 * k;
    if i + 2 <= bytes.len() {
        assert(h[i + 1] == bytes[i]);
        assert(h[i + 2] == bytes[i + 1]);
    }
}

} // verus!
