//! The Lottie schema's symbolic fields: which code or tag selects which
//! variant, and the default that an absent field stands for.
use vstd::prelude::*;
use crate::geometry::path::{FillRule, StrokeCap, StrokeJoin};
use crate::lottie::model::{
    BlendMode, GradientType, LayerType, MaskMode, MatteType, PolystarType, StrokeDashType,
    TrimPathType,
};

verus! {

/// The kinds of shape item, by their `ty` tag.
#[derive(Clone, Copy, Debug, PartialEq, Eq, Structural)]
pub enum ShapeKind {
    Group,
    Rect,
    Ellipse,
    Path,
    Polystar,
    Fill,
    Stroke,
    GradientFill,
    GradientStroke,
    Transform,
    TrimPath,
    RoundedCorners,
    Repeater,
    MergePaths,
}

/// The kinds of layer effect, by their numeric `ty` code.
#[derive(Clone, Copy, Debug, PartialEq, Eq, Structural)]
pub enum EffectKind {
    GaussianBlur,
    DropShadow,
    Tint,
    Tritone,
    Fill,
}

/// The one character of a one-character tag.
pub open spec fn tag1(s: Seq<char>, c: char) -> bool {
    s =~= seq![c]
}

/// The two characters of a two-character tag.
pub open spec fn tag2(s: Seq<char>, a: char, b: char) -> bool {
    s =~= seq![a, b]
}

fn single_char(s: &str) -> (r: Option<char>)
    ensures
        s@.len() == 1 ==> r == Some(s@[0]),
        s@.len() != 1 ==> r is None,
{
    if s.unicode_len() == 1 {
        Some(s.get_char(0))
    } else {
        None
    }
}

fn char_pair(s: &str) -> (r: Option<(char, char)>)
    ensures
        s@.len() == 2 ==> r == Some((s@[0], s@[1])),
        s@.len() != 2 ==> r is None,
{
    if s.unicode_len() == 2 {
        Some((s.get_char(0), s.get_char(1)))
    } else {
        None
    }
}

/// A numeric flag field: present and non-zero.
pub open spec fn spec_flag_field(v: Option<i64>) -> bool {
    match v {
        Some(x) => x != 0,
        None => false,
    }
}

/// A numeric flag field (`ddd`, `ao`, `h`, `a`): true when present and non-zero.
pub fn flag_field(v: Option<i64>) -> (r: bool)
    ensures
        r == spec_flag_field(v),
{
    match v {
        Some(x) => x != 0,
        None => false,
    }
}

/// The layer type of a layer's `ty` field; an absent field reads as 3 (null layer).
pub fn layer_type_field(ty: Option<i64>) -> (r: LayerType)
    ensures
        r == LayerType::spec_from_code(
            match ty {
                Some(c) => c,
                None => 3,
            },
        ),
{
    let code = match ty {
        Some(c) => c,
        None => 3,
    };
    LayerType::from_code(code)
}

/// The blend mode of a `bm` field, read as an unsigned number and cut to 32 bits;
/// an absent field reads as 0 (normal).
pub fn blend_mode_field(bm: Option<u64>) -> (r: BlendMode)
    ensures
        r == BlendMode::spec_from_u32(
            (match bm {
                Some(c) => c,
                None => 0,
            }) as u32,
        ),
{
    let code: u64 = match bm {
        Some(c) => c,
        None => 0,
    };
    BlendMode::from_u32(code as u32)
}

/// The track matte of a `tt` field; an absent field reads as 0 (no matte).
pub fn matte_type_field(tt: Option<i64>) -> (r: MatteType)
    ensures
        r == MatteType::spec_from_code(
            match tt {
                Some(c) => c,
                None => 0,
            },
        ),
{
    let code = match tt {
        Some(c) => c,
        None => 0,
    };
    MatteType::from_code(code)
}

/// The fill rule of an `r` field: 2 is even-odd, anything else (and an absent field,
/// which reads as 1) is non-zero.
pub fn fill_rule_field(r: Option<i64>) -> (res: FillRule)
    ensures
        res == (if r == Some(2i64) {
            FillRule::EvenOdd
        } else {
            FillRule::NonZero
        }),
{
    match r {
        Some(2) => FillRule::EvenOdd,
        _ => FillRule::NonZero,
    }
}

/// The gradient type of a `t` field: 2 is radial, anything else is linear.
pub fn gradient_type_field(t: Option<i64>) -> (res: GradientType)
    ensures
        res == (if t == Some(2i64) {
            GradientType::Radial
        } else {
            GradientType::Linear
        }),
{
    match t {
        Some(2) => GradientType::Radial,
        _ => GradientType::Linear,
    }
}

/// The trim mode of an `m` field: 2 trims each path on its own, anything else
/// trims all paths as one.
pub fn trim_type_field(m: Option<i64>) -> (res: TrimPathType)
    ensures
        res == (if m == Some(2i64) {
            TrimPathType::Individually
        } else {
            TrimPathType::Simultaneously
        }),
{
    match m {
        Some(2) => TrimPathType::Individually,
        _ => TrimPathType::Simultaneously,
    }
}

/// The polystar type of an `sy` field: 2 is a polygon, anything else a star.
pub fn polystar_type_field(sy: Option<i64>) -> (res: PolystarType)
    ensures
        res == (if sy == Some(2i64) {
            PolystarType::Polygon
        } else {
            PolystarType::Star
        }),
{
    match sy {
        Some(2) => PolystarType::Polygon,
        _ => PolystarType::Star,
    }
}

/// Stroke cap of a code: 2 round, 3 square, anything else butt.
pub open spec fn spec_stroke_cap(v: u32) -> StrokeCap {
    if v == 2 {
        StrokeCap::Round
    } else if v == 3 {
        StrokeCap::Square
    } else {
        StrokeCap::Butt
    }
}

/// Stroke join of a code: 2 round, 3 bevel, anything else miter.
pub open spec fn spec_stroke_join(v: u32) -> StrokeJoin {
    if v == 2 {
        StrokeJoin::Round
    } else if v == 3 {
        StrokeJoin::Bevel
    } else {
        StrokeJoin::Miter
    }
}

pub fn parse_stroke_cap(v: u32) -> (r: StrokeCap)
    ensures
        r == spec_stroke_cap(v),
{
    match v {
        1 => StrokeCap::Butt,
        2 => StrokeCap::Round,
        3 => StrokeCap::Square,
        _ => StrokeCap::Butt,
    }
}

pub fn parse_stroke_join(v: u32) -> (r: StrokeJoin)
    ensures
        r == spec_stroke_join(v),
{
    match v {
        1 => StrokeJoin::Miter,
        2 => StrokeJoin::Round,
        3 => StrokeJoin::Bevel,
        _ => StrokeJoin::Miter,
    }
}

/// The cap of an `lc` field, cut to 32 bits; an absent field reads as 1 (butt).
pub fn stroke_cap_field(lc: Option<i64>) -> (r: StrokeCap)
    ensures
        r == spec_stroke_cap(
            (match lc {
                Some(c) => c,
                None => 1,
            }) as u32,
        ),
{
    let code: i64 = match lc {
        Some(c) => c,
        None => 1,
    };
    parse_stroke_cap(code as u32)
}

/// The join of an `lj` field, cut to 32 bits; an absent field reads as 1 (miter).
pub fn stroke_join_field(lj: Option<i64>) -> (r: StrokeJoin)
    ensures
        r == spec_stroke_join(
            (match lj {
                Some(c) => c,
                None => 1,
            }) as u32,
        ),
{
    let code: i64 = match lj {
        Some(c) => c,
        None => 1,
    };
    parse_stroke_join(code as u32)
}

/// The mode of a merge-paths `mm` field, cut to 32 bits; an absent field reads as 1.
pub fn merge_mode_field(mm: Option<u64>) -> (r: u32)
    ensures
        r == (match mm {
            Some(c) => c,
            None => 1,
        }) as u32,
{
    let code: u64 = match mm {
        Some(c) => c,
        None => 1,
    };
    code as u32
}

/// Mask mode of a tag: "n" none, "a" add, "s" subtract, "i" intersect, "l" lighten,
/// "d" darken, "f" difference; any other tag adds.
pub open spec fn spec_mask_mode(tag: Seq<char>) -> MaskMode {
    if tag1(tag, 'n') {
        MaskMode::NoMask
    } else if tag1(tag, 's') {
        MaskMode::Subtract
    } else if tag1(tag, 'i') {
        MaskMode::Intersect
    } else if tag1(tag, 'l') {
        MaskMode::Lighten
    } else if tag1(tag, 'd') {
        MaskMode::Darken
    } else if tag1(tag, 'f') {
        MaskMode::Difference
    } else {
        MaskMode::Add
    }
}

/// The mask mode of a mask's `mode` field; an absent field reads as "a" (add).
pub fn mask_mode_field(mode: Option<&str>) -> (r: MaskMode)
    ensures
        mode matches Some(s) ==> r == spec_mask_mode(s@),
        mode is None ==> r == MaskMode::Add,
{
    match mode {
        None => MaskMode::Add,
        Some(s) => {
            match single_char(s) {
                Some('n') => MaskMode::NoMask,
                Some('s') => MaskMode::Subtract,
                Some('i') => MaskMode::Intersect,
                Some('l') => MaskMode::Lighten,
                Some('d') => MaskMode::Darken,
                Some('f') => MaskMode::Difference,
                _ => MaskMode::Add,
            }
        },
    }
}

/// Dash entry kind of a tag: "g" gap, "o" offset, anything else a dash.
pub open spec fn spec_dash_type(tag: Seq<char>) -> StrokeDashType {
    if tag1(tag, 'g') {
        StrokeDashType::Gap
    } else if tag1(tag, 'o') {
        StrokeDashType::Offset
    } else {
        StrokeDashType::Dash
    }
}

/// The kind of a dash entry's `n` field; an absent field reads as "d" (dash).
pub fn dash_type_field(n: Option<&str>) -> (r: StrokeDashType)
    ensures
        n matches Some(s) ==> r == spec_dash_type(s@),
        n is None ==> r == StrokeDashType::Dash,
{
    match n {
        None => StrokeDashType::Dash,
        Some(s) => {
            match single_char(s) {
                Some('g') => StrokeDashType::Gap,
                Some('o') => StrokeDashType::Offset,
                _ => StrokeDashType::Dash,
            }
        },
    }
}

/// The shape kind of a two-character tag; `None` for a tag the renderer does not know.
pub open spec fn spec_shape_kind(tag: Seq<char>) -> Option<ShapeKind> {
    if tag2(tag, 'g', 'r') {
        Some(ShapeKind::Group)
    } else if tag2(tag, 'r', 'c') {
        Some(ShapeKind::Rect)
    } else if tag2(tag, 'e', 'l') {
        Some(ShapeKind::Ellipse)
    } else if tag2(tag, 's', 'h') {
        Some(ShapeKind::Path)
    } else if tag2(tag, 's', 'r') {
        Some(ShapeKind::Polystar)
    } else if tag2(tag, 'f', 'l') {
        Some(ShapeKind::Fill)
    } else if tag2(tag, 's', 't') {
        Some(ShapeKind::Stroke)
    } else if tag2(tag, 'g', 'f') {
        Some(ShapeKind::GradientFill)
    } else if tag2(tag, 'g', 's') {
        Some(ShapeKind::GradientStroke)
    } else if tag2(tag, 't', 'r') {
        Some(ShapeKind::Transform)
    } else if tag2(tag, 't', 'm') {
        Some(ShapeKind::TrimPath)
    } else if tag2(tag, 'r', 'd') {
        Some(ShapeKind::RoundedCorners)
    } else if tag2(tag, 'r', 'p') {
        Some(ShapeKind::Repeater)
    } else if tag2(tag, 'm', 'm') {
        Some(ShapeKind::MergePaths)
    } else {
        None
    }
}

/// The shape kind of a shape item's `ty` field; an absent field reads as the empty tag,
/// which names no kind.
pub fn shape_kind_field(ty: Option<&str>) -> (r: Option<ShapeKind>)
    ensures
        ty matches Some(s) ==> r == spec_shape_kind(s@),
        ty is None ==> r is None,
{
    match ty {
        None => None,
        Some(s) => {
            match char_pair(s) {
                Some(('g', 'r')) => Some(ShapeKind::Group),
                Some(('r', 'c')) => Some(ShapeKind::Rect),
                Some(('e', 'l')) => Some(ShapeKind::Ellipse),
                Some(('s', 'h')) => Some(ShapeKind::Path),
                Some(('s', 'r')) => Some(ShapeKind::Polystar),
                Some(('f', 'l')) => Some(ShapeKind::Fill),
                Some(('s', 't')) => Some(ShapeKind::Stroke),
                Some(('g', 'f')) => Some(ShapeKind::GradientFill),
                Some(('g', 's')) => Some(ShapeKind::GradientStroke),
                Some(('t', 'r')) => Some(ShapeKind::Transform),
                Some(('t', 'm')) => Some(ShapeKind::TrimPath),
                Some(('r', 'd')) => Some(ShapeKind::RoundedCorners),
                Some(('r', 'p')) => Some(ShapeKind::Repeater),
                Some(('m', 'm')) => Some(ShapeKind::MergePaths),
                _ => None,
            }
        },
    }
}

/// The effect kind of a code: 29 blur, 25 drop shadow, 20 tint, 23 tritone, 21 fill.
pub open spec fn spec_effect_kind(code: i64) -> Option<EffectKind> {
    if code == 29 {
        Some(EffectKind::GaussianBlur)
    } else if code == 25 {
        Some(EffectKind::DropShadow)
    } else if code == 20 {
        Some(EffectKind::Tint)
    } else if code == 23 {
        Some(EffectKind::Tritone)
    } else if code == 21 {
        Some(EffectKind::Fill)
    } else {
        None
    }
}

/// The effect kind of an effect's `ty` field; an absent field reads as 0, which
/// names no kind.
pub fn effect_kind_field(ty: Option<i64>) -> (r: Option<EffectKind>)
    ensures
        r == spec_effect_kind(
            match ty {
                Some(c) => c,
                None => 0,
            },
        ),
{
    let code = match ty {
        Some(c) => c,
        None => 0,
    };
    match code {
        29 => Some(EffectKind::GaussianBlur),
        25 => Some(EffectKind::DropShadow),
        20 => Some(EffectKind::Tint),
        23 => Some(EffectKind::Tritone),
        21 => Some(EffectKind::Fill),
        _ => None,
    }
}

/// The Lottie shape tags: "gr" group, "rc" rectangle, "el" ellipse, "sh" path, "sr"
/// polystar, "fl" fill, "st" stroke, "gf" gradient fill, "gs" gradient stroke, "tr"
/// transform, "tm" trim path, "rd" rounded corners, "rp" repeater, "mm" merge paths.
pub proof fn lemma_shape_kind_tags()
    ensures
        spec_shape_kind("gr"@) == Some(ShapeKind::Group),
        spec_shape_kind("rc"@) == Some(ShapeKind::Rect),
        spec_shape_kind("el"@) == Some(ShapeKind::Ellipse),
        spec_shape_kind("sh"@) == Some(ShapeKind::Path),
        spec_shape_kind("sr"@) == Some(ShapeKind::Polystar),
        spec_shape_kind("fl"@) == Some(ShapeKind::Fill),
        spec_shape_kind("st"@) == Some(ShapeKind::Stroke),
        spec_shape_kind("gf"@) == Some(ShapeKind::GradientFill),
        spec_shape_kind("gs"@) == Some(ShapeKind::GradientStroke),
        spec_shape_kind("tr"@) == Some(ShapeKind::Transform),
        spec_shape_kind("tm"@) == Some(ShapeKind::TrimPath),
        spec_shape_kind("rd"@) == Some(ShapeKind::RoundedCorners),
        spec_shape_kind("rp"@) == Some(ShapeKind::Repeater),
        spec_shape_kind("mm"@) == Some(ShapeKind::MergePaths),
{
    reveal_strlit("gr");
    reveal_strlit("rc");
    reveal_strlit("el");
    reveal_strlit("sh");
    reveal_strlit("sr");
    reveal_strlit("fl");
    reveal_strlit("st");
    reveal_strlit("gf");
    reveal_strlit("gs");
    reveal_strlit("tr");
    reveal_strlit("tm");
    reveal_strlit("rd");
    reveal_strlit("rp");
    reveal_strlit("mm");
    assert("gr"@[0] == 'g' && "gr"@[1] == 'r');
    assert("rc"@[0] == 'r' && "rc"@[1] == 'c');
    assert("el"@[0] == 'e' && "el"@[1] == 'l');
    assert("sh"@[0] == 's' && "sh"@[1] == 'h');
    assert("sr"@[0] == 's' && "sr"@[1] == 'r');
    assert("fl"@[0] == 'f' && "fl"@[1] == 'l');
    assert("st"@[0] == 's' && "st"@[1] == 't');
    assert("gf"@[0] == 'g' && "gf"@[1] == 'f');
    assert("gs"@[0] == 'g' && "gs"@[1] == 's');
    assert("tr"@[0] == 't' && "tr"@[1] == 'r');
    assert("tm"@[0] == 't' && "tm"@[1] == 'm');
    assert("rd"@[0] == 'r' && "rd"@[1] == 'd');
    assert("rp"@[0] == 'r' && "rp"@[1] == 'p');
    assert("mm"@[0] == 'm' && "mm"@[1] == 'm');
    assert(seq!['g', 'r'][0] == 'g' && seq!['g', 'r'][1] == 'r');
    assert(seq!['r', 'c'][0] == 'r' && seq!['r', 'c'][1] == 'c');
    assert(seq!['e', 'l'][0] == 'e' && seq!['e', 'l'][1] == 'l');
    assert(seq!['s', 'h'][0] == 's' && seq!['s', 'h'][1] == 'h');
    assert(seq!['s', 'r'][0] == 's' && seq!['s', 'r'][1] == 'r');
    assert(seq!['f', 'l'][0] == 'f' && seq!['f', 'l'][1] == 'l');
    assert(seq!['s', 't'][0] == 's' && seq!['s', 't'][1] == 't');
    assert(seq!['g', 'f'][0] == 'g' && seq!['g', 'f'][1] == 'f');
    assert(seq!['g', 's'][0] == 'g' && seq!['g', 's'][1] == 's');
    assert(seq!['t', 'r'][0] == 't' && seq!['t', 'r'][1] == 'r');
    assert(seq!['t', 'm'][0] == 't' && seq!['t', 'm'][1] == 'm');
    assert(seq!['r', 'd'][0] == 'r' && seq!['r', 'd'][1] == 'd');
    assert(seq!['r', 'p'][0] == 'r' && seq!['r', 'p'][1] == 'p');
    assert(seq!['m', 'm'][0] == 'm' && seq!['m', 'm'][1] == 'm');
}

/// The Lottie mask mode tags: "n" none, "a" add, "s" subtract, "i" intersect,
/// "l" lighten, "d" darken, "f" difference.
pub proof fn lemma_mask_mode_tags()
    ensures
        spec_mask_mode("n"@) == MaskMode::NoMask,
        spec_mask_mode("a"@) == MaskMode::Add,
        spec_mask_mode("s"@) == MaskMode::Subtract,
        spec_mask_mode("i"@) == MaskMode::Intersect,
        spec_mask_mode("l"@) == MaskMode::Lighten,
        spec_mask_mode("d"@) == MaskMode::Darken,
        spec_mask_mode("f"@) == MaskMode::Difference,
{
    reveal_strlit("n");
    reveal_strlit("a");
    reveal_strlit("s");
    reveal_strlit("i");
    reveal_strlit("l");
    reveal_strlit("d");
    reveal_strlit("f");
    assert("n"@[0] == 'n');
    assert("a"@[0] == 'a');
    assert("s"@[0] == 's');
    assert("i"@[0] == 'i');
    assert("l"@[0] == 'l');
    assert("d"@[0] == 'd');
    assert("f"@[0] == 'f');
    assert(seq!['n'][0] == 'n');
    assert(seq!['a'][0] == 'a');
    assert(seq!['s'][0] == 's');
    assert(seq!['i'][0] == 'i');
    assert(seq!['l'][0] == 'l');
    assert(seq!['d'][0] == 'd');
    assert(seq!['f'][0] == 'f');
}

/// The Lottie dash entry tags: "d" dash, "g" gap, "o" offset.
pub proof fn lemma_dash_type_tags()
    ensures
        spec_dash_type("d"@) == StrokeDashType::Dash,
        spec_dash_type("g"@) == StrokeDashType::Gap,
        spec_dash_type("o"@) == StrokeDashType::Offset,
{
    reveal_strlit("d");
    reveal_strlit("g");
    reveal_strlit("o");
    assert("d"@[0] == 'd');
    assert("g"@[0] == 'g');
    assert("o"@[0] == 'o');
    assert(seq!['d'][0] == 'd');
    assert(seq!['g'][0] == 'g');
    assert(seq!['o'][0] == 'o');
}

/// The Lottie numeric codes: layer types 0 precomp, 1 solid, 2 image, 3 null, 4 shape,
/// 5 text; mattes 0 none, 1 alpha, 2 inverted alpha, 3 luma, 4 inverted luma; caps
/// 1 butt, 2 round, 3 square; joins 1 miter, 2 round, 3 bevel; effects 29 gaussian blur,
/// 25 drop shadow, 20 tint, 23 tritone, 21 fill.
pub proof fn lemma_schema_code_tables()
    ensures
        LayerType::spec_from_code(0) == LayerType::Precomp,
        LayerType::spec_from_code(1) == LayerType::Solid,
        LayerType::spec_from_code(2) == LayerType::Image,
        LayerType::spec_from_code(3) == LayerType::Null,
        LayerType::spec_from_code(4) == LayerType::Shape,
        LayerType::spec_from_code(5) == LayerType::Text,
        MatteType::spec_from_code(0) == MatteType::NoMatte,
        MatteType::spec_from_code(1) == MatteType::Alpha,
        MatteType::spec_from_code(2) == MatteType::InvertedAlpha,
        MatteType::spec_from_code(3) == MatteType::Luma,
        MatteType::spec_from_code(4) == MatteType::InvertedLuma,
        spec_stroke_cap(1) == StrokeCap::Butt,
        spec_stroke_cap(2) == StrokeCap::Round,
        spec_stroke_cap(3) == StrokeCap::Square,
        spec_stroke_join(1) == StrokeJoin::Miter,
        spec_stroke_join(2) == StrokeJoin::Round,
        spec_stroke_join(3) == StrokeJoin::Bevel,
        spec_effect_kind(29) == Some(EffectKind::GaussianBlur),
        spec_effect_kind(25) == Some(EffectKind::DropShadow),
        spec_effect_kind(20) == Some(EffectKind::Tint),
        spec_effect_kind(23) == Some(EffectKind::Tritone),
        spec_effect_kind(21) == Some(EffectKind::Fill),
{
}

} // verus!
