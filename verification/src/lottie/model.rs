use vstd::prelude::*;

verus! {

/// Layer types of a Lottie composition (`ty` field of a layer).
#[derive(Clone, Copy, Debug, PartialEq, Eq, Structural)]
pub enum LayerType {
    Precomp,
    Solid,
    Image,
    Null,
    Shape,
    Text,
}

impl LayerType {
    /// The numeric code of the layer type in the Lottie schema.
    pub open spec fn spec_code(self) -> i64 {
        match self {
            LayerType::Precomp => 0,
            LayerType::Solid => 1,
            LayerType::Image => 2,
            LayerType::Null => 3,
            LayerType::Shape => 4,
            LayerType::Text => 5,
        }
    }

    /// The layer type of a schema code; unknown codes read as a null layer.
    pub open spec fn spec_from_code(code: i64) -> LayerType {
        if code == 0 {
            LayerType::Precomp
        } else if code == 1 {
            LayerType::Solid
        } else if code == 2 {
            LayerType::Image
        } else if code == 4 {
            LayerType::Shape
        } else if code == 5 {
            LayerType::Text
        } else {
            LayerType::Null
        }
    }

    pub fn code(&self) -> (r: i64)
        ensures
            r == self.spec_code(),
    {
        match self {
            LayerType::Precomp => 0,
            LayerType::Solid => 1,
            LayerType::Image => 2,
            LayerType::Null => 3,
            LayerType::Shape => 4,
            LayerType::Text => 5,
        }
    }

    pub fn from_code(code: i64) -> (r: LayerType)
        ensures
            r == LayerType::spec_from_code(code),
    {
        match code {
            0 => LayerType::Precomp,
            1 => LayerType::Solid,
            2 => LayerType::Image,
            4 => LayerType::Shape,
            5 => LayerType::Text,
            _ => LayerType::Null,
        }
    }
}

/// Blend modes (`bm` field).
#[derive(Clone, Copy, Debug, PartialEq, Eq, Structural, Default)]
pub enum BlendMode {
    #[default]
    Normal,
    Multiply,
    Screen,
    Overlay,
    Darken,
    Lighten,
    ColorDodge,
    ColorBurn,
    HardLight,
    SoftLight,
    Difference,
    Exclusion,
    Hue,
    Saturation,
    ColorMode,
    Luminosity,
    Add,
}

impl BlendMode {
    /// The numeric code of the blend mode (0 for `Normal` up to 16 for `Add`).
    pub open spec fn spec_code(self) -> u32 {
        match self {
            BlendMode::Normal => 0,
            BlendMode::Multiply => 1,
            BlendMode::Screen => 2,
            BlendMode::Overlay => 3,
            BlendMode::Darken => 4,
            BlendMode::Lighten => 5,
            BlendMode::ColorDodge => 6,
            BlendMode::ColorBurn => 7,
            BlendMode::HardLight => 8,
            BlendMode::SoftLight => 9,
            BlendMode::Difference => 10,
            BlendMode::Exclusion => 11,
            BlendMode::Hue => 12,
            BlendMode::Saturation => 13,
            BlendMode::ColorMode => 14,
            BlendMode::Luminosity => 15,
            BlendMode::Add => 16,
        }
    }

    /// The blend mode whose code is `v`; codes above 16 read as `Normal`.
    pub open spec fn spec_from_u32(v: u32) -> BlendMode {
        if v == 1 {
            BlendMode::Multiply
        } else if v == 2 {
            BlendMode::Screen
        } else if v == 3 {
            BlendMode::Overlay
        } else if v == 4 {
            BlendMode::Darken
        } else if v == 5 {
            BlendMode::Lighten
        } else if v == 6 {
            BlendMode::ColorDodge
        } else if v == 7 {
            BlendMode::ColorBurn
        } else if v == 8 {
            BlendMode::HardLight
        } else if v == 9 {
            BlendMode::SoftLight
        } else if v == 10 {
            BlendMode::Difference
        } else if v == 11 {
            BlendMode::Exclusion
        } else if v == 12 {
            BlendMode::Hue
        } else if v == 13 {
            BlendMode::Saturation
        } else if v == 14 {
            BlendMode::ColorMode
        } else if v == 15 {
            BlendMode::Luminosity
        } else if v == 16 {
            BlendMode::Add
        } else {
            BlendMode::Normal
        }
    }

    pub fn code(&self) -> (r: u32)
        ensures
            r == self.spec_code(),
            r <= 16,
    {
        match self {
            BlendMode::Normal => 0,
            BlendMode::Multiply => 1,
            BlendMode::Screen => 2,
            BlendMode::Overlay => 3,
            BlendMode::Darken => 4,
            BlendMode::Lighten => 5,
            BlendMode::ColorDodge => 6,
            BlendMode::ColorBurn => 7,
            BlendMode::HardLight => 8,
            BlendMode::SoftLight => 9,
            BlendMode::Difference => 10,
            BlendMode::Exclusion => 11,
            BlendMode::Hue => 12,
            BlendMode::Saturation => 13,
            BlendMode::ColorMode => 14,
            BlendMode::Luminosity => 15,
            BlendMode::Add => 16,
        }
    }

    pub fn from_u32(v: u32) -> (r: BlendMode)
        ensures
            r == BlendMode::spec_from_u32(v),
            v <= 16 ==> r.spec_code() == v,
            v > 16 ==> r == BlendMode::Normal,
    {
        match v {
            0 => BlendMode::Normal,
            1 => BlendMode::Multiply,
            2 => BlendMode::Screen,
            3 => BlendMode::Overlay,
            4 => BlendMode::Darken,
            5 => BlendMode::Lighten,
            6 => BlendMode::ColorDodge,
            7 => BlendMode::ColorBurn,
            8 => BlendMode::HardLight,
            9 => BlendMode::SoftLight,
            10 => BlendMode::Difference,
            11 => BlendMode::Exclusion,
            12 => BlendMode::Hue,
            13 => BlendMode::Saturation,
            14 => BlendMode::ColorMode,
            15 => BlendMode::Luminosity,
            16 => BlendMode::Add,
            _ => BlendMode::Normal,
        }
    }
}

/// Decoding a blend mode's own code gives the blend mode back.
pub proof fn lemma_blend_mode_code_roundtrip(bm: BlendMode)
    ensures
        BlendMode::spec_from_u32(bm.spec_code()) == bm,
        bm.spec_code() <= 16,
{
}

/// Two blend modes with the same code are the same blend mode.
pub proof fn lemma_blend_mode_code_injective(a: BlendMode, b: BlendMode)
    requires
        a.spec_code() == b.spec_code(),
    ensures
        a == b,
{
    lemma_blend_mode_code_roundtrip(a);
    lemma_blend_mode_code_roundtrip(b);
}

/// Track matte types (`tt` field).
#[derive(Clone, Copy, Debug, PartialEq, Eq, Structural, Default)]
pub enum MatteType {
    #[default]
    NoMatte,
    Alpha,
    InvertedAlpha,
    Luma,
    InvertedLuma,
}

impl MatteType {
    /// The matte of a schema code; unknown codes read as no matte.
    pub open spec fn spec_from_code(code: i64) -> MatteType {
        if code == 1 {
            MatteType::Alpha
        } else if code == 2 {
            MatteType::InvertedAlpha
        } else if code == 3 {
            MatteType::Luma
        } else if code == 4 {
            MatteType::InvertedLuma
        } else {
            MatteType::NoMatte
        }
    }

    pub fn from_code(code: i64) -> (r: MatteType)
        ensures
            r == MatteType::spec_from_code(code),
    {
        match code {
            1 => MatteType::Alpha,
            2 => MatteType::InvertedAlpha,
            3 => MatteType::Luma,
            4 => MatteType::InvertedLuma,
            _ => MatteType::NoMatte,
        }
    }
}

/// Star or polygon (`sy` field of a polystar shape).
#[derive(Clone, Copy, Debug, PartialEq, Eq, Structural)]
pub enum PolystarType {
    Star,
    Polygon,
}

/// Kind of a stroke dash entry (`n` field: "d", "g" or "o").
#[derive(Clone, Copy, Debug, PartialEq, Eq, Structural)]
pub enum StrokeDashType {
    Dash,
    Gap,
    Offset,
}

/// Linear or radial gradient (`t` field).
#[derive(Clone, Copy, Debug, PartialEq, Eq, Structural)]
pub enum GradientType {
    Linear,
    Radial,
}

/// How a trim path applies to several paths (`m` field).
#[derive(Clone, Copy, Debug, PartialEq, Eq, Structural)]
pub enum TrimPathType {
    Simultaneously,
    Individually,
}

/// Merge paths shape item.
#[derive(Clone, Debug)]
pub struct ShapeMergePaths {
    pub name: String,
    pub mode: u32,
    pub hidden: bool,
}

/// Mask modes (`mode` field of a mask: "n", "a", "s", "i", "l", "d", "f").
#[derive(Clone, Copy, Debug, PartialEq, Eq, Structural)]
pub enum MaskMode {
    NoMask,
    Add,
    Subtract,
    Intersect,
    Lighten,
    Darken,
    Difference,
}

} // verus!
