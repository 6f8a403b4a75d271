//! Draw classification and the draw sort key.
use vstd::prelude::*;
use crate::lottie::model::BlendMode;

verus! {

/// How a draw's geometry is laid out.
#[derive(Clone, Copy, Debug, PartialEq, Eq, Structural, Hash)]
pub enum DrawType {
    MidpointFanFill,
    StrokeStrip,
}

/// Whether a draw covers its pixels completely.
#[derive(Clone, Copy, Debug, PartialEq, Eq, Structural, Hash)]
pub enum DrawContents {
    Opaque,
    Translucent,
}

impl DrawType {
    pub open spec fn spec_code(self) -> u64 {
        match self {
            DrawType::MidpointFanFill => 0,
            DrawType::StrokeStrip => 1,
        }
    }
}

impl DrawContents {
    pub open spec fn spec_code(self) -> u64 {
        match self {
            DrawContents::Opaque => 0,
            DrawContents::Translucent => 1,
        }
    }
}

/// The sort key as a number: the blend mode's code in its low four bits above bit 21,
/// the contents above bit 19, the low 16 bits of the z index above bit 3, the draw
/// type in the lowest three bits.
pub open spec fn spec_sort_key(
    blend_mode: BlendMode,
    draw_contents: DrawContents,
    z_index: u32,
    draw_type: DrawType,
) -> int {
    (blend_mode.spec_code() % 16) as int * 0x200000 + draw_contents.spec_code() as int * 0x80000
        + (z_index % 0x10000) as int * 8 + draw_type.spec_code() as int
}

pub fn build_sort_key(
    blend_mode: BlendMode,
    draw_contents: DrawContents,
    z_index: u32,
    draw_type: DrawType,
) -> (key: u64)
    ensures
        key as int == spec_sort_key(blend_mode, draw_contents, z_index, draw_type),
        key < 0x2000000,
{
    let bm: u64 = (blend_mode.code() as u64) & 0xF;
    let dc: u64 = match draw_contents {
        DrawContents::Opaque => 0,
        DrawContents::Translucent => 1,
    } & 0x3;
    let zi: u64 = (z_index as u64) & 0xFFFF;
    let dt: u64 = match draw_type {
        DrawType::MidpointFanFill => 0,
        DrawType::StrokeStrip => 1,
    } & 0x7;
    let key = (bm << 21) | (dc << 19) | (zi << 3) | dt;
    proof {
        let c = blend_mode.spec_code() as u64;
        let z = z_index as u64;
        let dcv = draw_contents.spec_code();
        let dtv = draw_type.spec_code();
        assert(c & 0xF == c % 16) by (bit_vector);
        assert(z & 0xFFFF == z % 0x10000) by (bit_vector);
        assert(dcv & 0x3 == dcv) by (bit_vector)
            requires
                dcv <= 1,
        ;
        assert(dtv & 0x7 == dtv) by (bit_vector)
            requires
                dtv <= 1,
        ;
        assert(((bm << 21) | (dc << 19) | (zi << 3) | dt) == bm * 0x200000 + dc * 0x80000 + zi * 8
            + dt && bm * 0x200000 + dc * 0x80000 + zi * 8 + dt < 0x2000000) by (bit_vector)
            requires
                bm < 16,
                dc <= 1,
                zi < 0x10000,
                dt <= 1,
        ;
    }
    key
}

/// The sort key orders draws by blend mode first (by the low four bits of its code),
/// then contents, then z index (its low 16 bits), then draw type: comparing two keys
/// is comparing those fields in that order.
pub proof fn lemma_sort_key_lexicographic(
    b1: BlendMode,
    c1: DrawContents,
    z1: u32,
    t1: DrawType,
    b2: BlendMode,
    c2: DrawContents,
    z2: u32,
    t2: DrawType,
)
    ensures
        ({
            let (m1, m2) = (b1.spec_code() % 16, b2.spec_code() % 16);
            let (k1, k2) = (c1.spec_code(), c2.spec_code());
            let (y1, y2) = (z1 % 0x10000, z2 % 0x10000);
            let (d1, d2) = (t1.spec_code(), t2.spec_code());
            (spec_sort_key(b1, c1, z1, t1) < spec_sort_key(b2, c2, z2, t2)) <==> (m1 < m2 || (m1
                == m2 && (k1 < k2 || (k1 == k2 && (y1 < y2 || (y1 == y2 && d1 < d2))))))
        }),
{
}

/// A draw with a blend mode of higher code (up to 15) always sorts after one with a
/// lower code, whatever the other fields hold.
pub proof fn lemma_sort_key_blend_mode_dominates(
    b1: BlendMode,
    c1: DrawContents,
    z1: u32,
    t1: DrawType,
    b2: BlendMode,
    c2: DrawContents,
    z2: u32,
    t2: DrawType,
)
    requires
        b1.spec_code() < b2.spec_code(),
        b2.spec_code() <= 15,
    ensures
        spec_sort_key(b1, c1, z1, t1) < spec_sort_key(b2, c2, z2, t2),
{
    lemma_sort_key_lexicographic(b1, c1, z1, t1, b2, c2, z2, t2);
}

/// The fields can be read back from a key: the blend mode's low four bits, the contents,
/// the z index's low 16 bits and the draw type.
pub proof fn lemma_sort_key_fields(
    b: BlendMode,
    c: DrawContents,
    z: u32,
    t: DrawType,
)
    ensures
        ({
            let k = spec_sort_key(b, c, z, t);
            &&& k / 0x200000 == (b.spec_code() % 16) as int
            &&& (k / 0x80000) % 4 == c.spec_code() as int
            &&& (k / 8) % 0x10000 == (z % 0x10000) as int
            &&& k % 8 == t.spec_code() as int
        }),
{
    let k = spec_sort_key(b, c, z, t);
    let m = (b.spec_code() % 16) as int;
    let cc = c.spec_code() as int;
    let y = (z % 0x10000) as int;
    let d = t.spec_code() as int;
    assert(k == m * 0x200000 + cc * 0x80000 + y * 8 + d);
    assert(k / 0x200000 == m) by (nonlinear_arith)
        requires
            k == m * 0x200000 + cc * 0x80000 + y * 8 + d,
            0 <= cc <= 1,
            0 <= y < 0x10000,
            0 <= d <= 1,
            0 <= m,
    ;
    assert((k / 0x80000) % 4 == cc) by (nonlinear_arith)
        requires
            k == m * 0x200000 + cc * 0x80000 + y * 8 + d,
            0 <= cc <= 1,
            0 <= y < 0x10000,
            0 <= d <= 1,
            0 <= m,
    ;
    assert((k / 8) % 0x10000 == y) by (nonlinear_arith)
        requires
            k == m * 0x200000 + cc * 0x80000 + y * 8 + d,
            0 <= cc <= 1,
            0 <= y < 0x10000,
            0 <= d <= 1,
            0 <= m,
    ;
    assert(k % 8 == d) by (nonlinear_arith)
        requires
            k == m * 0x200000 + cc * 0x80000 + y * 8 + d,
            0 <= cc <= 1,
            0 <= y < 0x10000,
            0 <= d <= 1,
            0 <= m,
    ;
}

} // verus!
