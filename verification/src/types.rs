//! Plain value types shared with the rendering engine: colors and the
//! enumerations that the engine reports as integer codes.

use vstd::prelude::*;

verus! {

/// RGBA color value.
#[derive(Debug, Clone, Copy, PartialEq, Eq, Structural)]
pub struct Color {
    pub r: u8,
    pub g: u8,
    pub b: u8,
    pub a: u8,
}

impl Default for Color {
    /// Opaque black.
    fn default() -> (c: Color)
        ensures
            c == (Color { r: 0, g: 0, b: 0, a: 255 }),
    {
        Color { r: 0, g: 0, b: 0, a: 255 }
    }
}

/// A color in the form the rendering engine passes it.
///
/// The engine resolves the CSS keyword `currentColor` to a concrete color
/// before it hands a color out, so the flag carries no information then and
/// is not kept in a [`Color`].
#[derive(Debug, Clone, Copy, PartialEq, Eq, Structural)]
pub struct WebColor {
    pub red: u8,
    pub green: u8,
    pub blue: u8,
    pub alpha: u8,
    pub is_current_color: u8,
}

impl From<WebColor> for Color {
    fn from(c: WebColor) -> (r: Color) {
        Color { r: c.red, g: c.green, b: c.blue, a: c.alpha }
    }
}

impl vstd::std_specs::convert::FromSpecImpl<WebColor> for Color {
    open spec fn obeys_from_spec() -> bool {
        true
    }

    open spec fn from_spec(c: WebColor) -> Color {
        Color { r: c.red, g: c.green, b: c.blue, a: c.alpha }
    }
}

impl From<Color> for WebColor {
    fn from(c: Color) -> (r: WebColor) {
        WebColor { red: c.r, green: c.g, blue: c.b, alpha: c.a, is_current_color: 0 }
    }
}

impl vstd::std_specs::convert::FromSpecImpl<Color> for WebColor {
    open spec fn obeys_from_spec() -> bool {
        true
    }

    open spec fn from_spec(c: Color) -> WebColor {
        WebColor { red: c.r, green: c.g, blue: c.b, alpha: c.a, is_current_color: 0 }
    }
}

/// A color survives the way to the engine's form and back.
pub proof fn lemma_color_round_trip(c: Color)
    ensures
        <Color as vstd::std_specs::convert::FromSpec<WebColor>>::from_spec(
            <WebColor as vstd::std_specs::convert::FromSpec<Color>>::from_spec(c),
        ) == c,
{
}

/// CSS `border-style` values; `Nothing` stands for the keyword `none`.
#[derive(Debug, Clone, Copy, PartialEq, Eq, Structural)]
pub enum BorderStyle {
    Nothing,
    Hidden,
    Dotted,
    Dashed,
    Solid,
    Double,
    Groove,
    Ridge,
    Inset,
    Outset,
}

impl BorderStyle {
    /// The integer code the engine uses for this value.
    pub open spec fn code(self) -> int {
        match self {
            BorderStyle::Nothing => 0,
            BorderStyle::Hidden => 1,
            BorderStyle::Dotted => 2,
            BorderStyle::Dashed => 3,
            BorderStyle::Solid => 4,
            BorderStyle::Double => 5,
            BorderStyle::Groove => 6,
            BorderStyle::Ridge => 7,
            BorderStyle::Inset => 8,
            BorderStyle::Outset => 9,
        }
    }

    /// The value with the given code; [`BorderStyle::Nothing`] for a code that
    /// stands for no value.
    pub fn from_c_int(v: i32) -> (r: BorderStyle)
        ensures
            0 <= v < 10 ==> r.code() == v,
            !(0 <= v < 10) ==> r == BorderStyle::Nothing,
    {
        match v {
            0 => BorderStyle::Nothing,
            1 => BorderStyle::Hidden,
            2 => BorderStyle::Dotted,
            3 => BorderStyle::Dashed,
            4 => BorderStyle::Solid,
            5 => BorderStyle::Double,
            6 => BorderStyle::Groove,
            7 => BorderStyle::Ridge,
            8 => BorderStyle::Inset,
            9 => BorderStyle::Outset,
            _ => BorderStyle::Nothing,
        }
    }

    /// The integer code of this value.
    pub fn to_c_int(self) -> (v: i32)
        ensures
            v == self.code(),
    {
        match self {
            BorderStyle::Nothing => 0,
            BorderStyle::Hidden => 1,
            BorderStyle::Dotted => 2,
            BorderStyle::Dashed => 3,
            BorderStyle::Solid => 4,
            BorderStyle::Double => 5,
            BorderStyle::Groove => 6,
            BorderStyle::Ridge => 7,
            BorderStyle::Inset => 8,
            BorderStyle::Outset => 9,
        }
    }
}

impl Default for BorderStyle {
    fn default() -> (r: BorderStyle)
        ensures
            r == BorderStyle::Nothing,
    {
        BorderStyle::Nothing
    }
}

/// CSS media types.
#[derive(Debug, Clone, Copy, PartialEq, Eq, Structural)]
pub enum MediaType {
    Unknown,
    All,
    Print,
    Screen,
}

impl MediaType {
    /// The integer code the engine uses for this value.
    pub open spec fn code(self) -> int {
        match self {
            MediaType::Unknown => 0,
            MediaType::All => 1,
            MediaType::Print => 2,
            MediaType::Screen => 3,
        }
    }

    /// The value with the given code; [`MediaType::Unknown`] for a code that
    /// stands for no value.
    pub fn from_c_int(v: i32) -> (r: MediaType)
        ensures
            0 <= v < 4 ==> r.code() == v,
            !(0 <= v < 4) ==> r == MediaType::Unknown,
    {
        match v {
            0 => MediaType::Unknown,
            1 => MediaType::All,
            2 => MediaType::Print,
            3 => MediaType::Screen,
            _ => MediaType::Unknown,
        }
    }

    /// The integer code of this value.
    pub fn to_c_int(self) -> (v: i32)
        ensures
            v == self.code(),
    {
        match self {
            MediaType::Unknown => 0,
            MediaType::All => 1,
            MediaType::Print => 2,
            MediaType::Screen => 3,
        }
    }
}

impl Default for MediaType {
    fn default() -> (r: MediaType)
        ensures
            r == MediaType::Unknown,
    {
        MediaType::Unknown
    }
}

/// CSS `text-transform` values; `Nothing` stands for the keyword `none`.
#[derive(Debug, Clone, Copy, PartialEq, Eq, Structural)]
pub enum TextTransform {
    Nothing,
    Capitalize,
    Uppercase,
    Lowercase,
}

impl TextTransform {
    /// The integer code the engine uses for this value.
    pub open spec fn code(self) -> int {
        match self {
            TextTransform::Nothing => 0,
            TextTransform::Capitalize => 1,
            TextTransform::Uppercase => 2,
            TextTransform::Lowercase => 3,
        }
    }

    /// The value with the given code; [`TextTransform::Nothing`] for a code that
    /// stands for no value.
    pub fn from_c_int(v: i32) -> (r: TextTransform)
        ensures
            0 <= v < 4 ==> r.code() == v,
            !(0 <= v < 4) ==> r == TextTransform::Nothing,
    {
        match v {
            0 => TextTransform::Nothing,
            1 => TextTransform::Capitalize,
            2 => TextTransform::Uppercase,
            3 => TextTransform::Lowercase,
            _ => TextTransform::Nothing,
        }
    }

    /// The integer code of this value.
    pub fn to_c_int(self) -> (v: i32)
        ensures
            v == self.code(),
    {
        match self {
            TextTransform::Nothing => 0,
            TextTransform::Capitalize => 1,
            TextTransform::Uppercase => 2,
            TextTransform::Lowercase => 3,
        }
    }
}

impl Default for TextTransform {
    fn default() -> (r: TextTransform)
        ensures
            r == TextTransform::Nothing,
    {
        TextTransform::Nothing
    }
}

/// Pointer events reported to the host.
#[derive(Debug, Clone, Copy, PartialEq, Eq, Structural)]
pub enum MouseEvent {
    Enter,
    Leave,
}

impl MouseEvent {
    /// The integer code the engine uses for this value.
    pub open spec fn code(self) -> int {
        match self {
            MouseEvent::Enter => 0,
            MouseEvent::Leave => 1,
        }
    }

    /// The value with the given code; [`MouseEvent::Enter`] for a code that
    /// stands for no value.
    pub fn from_c_int(v: i32) -> (r: MouseEvent)
        ensures
            0 <= v < 2 ==> r.code() == v,
            !(0 <= v < 2) ==> r == MouseEvent::Enter,
    {
        match v {
            0 => MouseEvent::Enter,
            1 => MouseEvent::Leave,
            _ => MouseEvent::Enter,
        }
    }

    /// The integer code of this value.
    pub fn to_c_int(self) -> (v: i32)
        ensures
            v == self.code(),
    {
        match self {
            MouseEvent::Enter => 0,
            MouseEvent::Leave => 1,
        }
    }
}

impl Default for MouseEvent {
    fn default() -> (r: MouseEvent)
        ensures
            r == MouseEvent::Enter,
    {
        MouseEvent::Enter
    }
}

/// CSS gradient color interpolation space; `Nothing` when none is given.
#[derive(Debug, Clone, Copy, PartialEq, Eq, Structural)]
pub enum ColorSpace {
    Nothing,
    Srgb,
    SrgbLinear,
    DisplayP3,
    A98Rgb,
    ProphotoRgb,
    Rec2020,
    Lab,
    Oklab,
    Xyz,
    XyzD50,
    XyzD65,
    Hsl,
    Hwb,
    Lch,
    Oklch,
}

impl ColorSpace {
    /// The integer code the engine uses for this value.
    pub open spec fn code(self) -> int {
        match self {
            ColorSpace::Nothing => 0,
            ColorSpace::Srgb => 1,
            ColorSpace::SrgbLinear => 2,
            ColorSpace::DisplayP3 => 3,
            ColorSpace::A98Rgb => 4,
            ColorSpace::ProphotoRgb => 5,
            ColorSpace::Rec2020 => 6,
            ColorSpace::Lab => 7,
            ColorSpace::Oklab => 8,
            ColorSpace::Xyz => 9,
            ColorSpace::XyzD50 => 10,
            ColorSpace::XyzD65 => 11,
            ColorSpace::Hsl => 12,
            ColorSpace::Hwb => 13,
            ColorSpace::Lch => 14,
            ColorSpace::Oklch => 15,
        }
    }

    /// The value with the given code; [`ColorSpace::Nothing`] for a code that
    /// stands for no value.
    pub fn from_c_int(v: i32) -> (r: ColorSpace)
        ensures
            0 <= v < 16 ==> r.code() == v,
            !(0 <= v < 16) ==> r == ColorSpace::Nothing,
    {
        match v {
            0 => ColorSpace::Nothing,
            1 => ColorSpace::Srgb,
            2 => ColorSpace::SrgbLinear,
            3 => ColorSpace::DisplayP3,
            4 => ColorSpace::A98Rgb,
            5 => ColorSpace::ProphotoRgb,
            6 => ColorSpace::Rec2020,
            7 => ColorSpace::Lab,
            8 => ColorSpace::Oklab,
            9 => ColorSpace::Xyz,
            10 => ColorSpace::XyzD50,
            11 => ColorSpace::XyzD65,
            12 => ColorSpace::Hsl,
            13 => ColorSpace::Hwb,
            14 => ColorSpace::Lch,
            15 => ColorSpace::Oklch,
            _ => ColorSpace::Nothing,
        }
    }

    /// The integer code of this value.
    pub fn to_c_int(self) -> (v: i32)
        ensures
            v == self.code(),
    {
        match self {
            ColorSpace::Nothing => 0,
            ColorSpace::Srgb => 1,
            ColorSpace::SrgbLinear => 2,
            ColorSpace::DisplayP3 => 3,
            ColorSpace::A98Rgb => 4,
            ColorSpace::ProphotoRgb => 5,
            ColorSpace::Rec2020 => 6,
            ColorSpace::Lab => 7,
            ColorSpace::Oklab => 8,
            ColorSpace::Xyz => 9,
            ColorSpace::XyzD50 => 10,
            ColorSpace::XyzD65 => 11,
            ColorSpace::Hsl => 12,
            ColorSpace::Hwb => 13,
            ColorSpace::Lch => 14,
            ColorSpace::Oklch => 15,
        }
    }
}

impl Default for ColorSpace {
    fn default() -> (r: ColorSpace)
        ensures
            r == ColorSpace::Nothing,
    {
        ColorSpace::Nothing
    }
}

/// CSS gradient hue interpolation method; `Nothing` when none is given.
#[derive(Debug, Clone, Copy, PartialEq, Eq, Structural)]
pub enum HueInterpolation {
    Nothing,
    Shorter,
    Longer,
    Increasing,
    Decreasing,
}

impl HueInterpolation {
    /// The integer code the engine uses for this value.
    pub open spec fn code(self) -> int {
        match self {
            HueInterpolation::Nothing => 0,
            HueInterpolation::Shorter => 1,
            HueInterpolation::Longer => 2,
            HueInterpolation::Increasing => 3,
            HueInterpolation::Decreasing => 4,
        }
    }

    /// The value with the given code; [`HueInterpolation::Nothing`] for a code that
    /// stands for no value.
    pub fn from_c_int(v: i32) -> (r: HueInterpolation)
        ensures
            0 <= v < 5 ==> r.code() == v,
            !(0 <= v < 5) ==> r == HueInterpolation::Nothing,
    {
        match v {
            0 => HueInterpolation::Nothing,
            1 => HueInterpolation::Shorter,
            2 => HueInterpolation::Longer,
            3 => HueInterpolation::Increasing,
            4 => HueInterpolation::Decreasing,
            _ => HueInterpolation::Nothing,
        }
    }

    /// The integer code of this value.
    pub fn to_c_int(self) -> (v: i32)
        ensures
            v == self.code(),
    {
        match self {
            HueInterpolation::Nothing => 0,
            HueInterpolation::Shorter => 1,
            HueInterpolation::Longer => 2,
            HueInterpolation::Increasing => 3,
            HueInterpolation::Decreasing => 4,
        }
    }
}

impl Default for HueInterpolation {
    fn default() -> (r: HueInterpolation)
        ensures
            r == HueInterpolation::Nothing,
    {
        HueInterpolation::Nothing
    }
}

/// CSS `text-decoration-style` values.
#[derive(Debug, Clone, Copy, PartialEq, Eq, Structural)]
pub enum TextDecorationStyle {
    Solid,
    Double,
    Dotted,
    Dashed,
    Wavy,
}

impl TextDecorationStyle {
    /// The integer code the engine uses for this value.
    pub open spec fn code(self) -> int {
        match self {
            TextDecorationStyle::Solid => 0,
            TextDecorationStyle::Double => 1,
            TextDecorationStyle::Dotted => 2,
            TextDecorationStyle::Dashed => 3,
            TextDecorationStyle::Wavy => 4,
        }
    }

    /// The value with the given code; [`TextDecorationStyle::Solid`] for a code that
    /// stands for no value.
    pub fn from_c_int(v: i32) -> (r: TextDecorationStyle)
        ensures
            0 <= v < 5 ==> r.code() == v,
            !(0 <= v < 5) ==> r == TextDecorationStyle::Solid,
    {
        match v {
            0 => TextDecorationStyle::Solid,
            1 => TextDecorationStyle::Double,
            2 => TextDecorationStyle::Dotted,
            3 => TextDecorationStyle::Dashed,
            4 => TextDecorationStyle::Wavy,
            _ => TextDecorationStyle::Solid,
        }
    }

    /// The integer code of this value.
    pub fn to_c_int(self) -> (v: i32)
        ensures
            v == self.code(),
    {
        match self {
            TextDecorationStyle::Solid => 0,
            TextDecorationStyle::Double => 1,
            TextDecorationStyle::Dotted => 2,
            TextDecorationStyle::Dashed => 3,
            TextDecorationStyle::Wavy => 4,
        }
    }
}

impl Default for TextDecorationStyle {
    fn default() -> (r: TextDecorationStyle)
        ensures
            r == TextDecorationStyle::Solid,
    {
        TextDecorationStyle::Solid
    }
}

} // verus!
