use litehtml::types::WebColor;
use litehtml::{
    BorderStyle, Color, ColorSpace, HueInterpolation, MediaType, MouseEvent, TextDecorationStyle,
    TextTransform,
};

#[test]
fn test_color_default() {
    let c = Color::default();
    assert_eq!(c.r, 0);
    assert_eq!(c.g, 0);
    assert_eq!(c.b, 0);
    assert_eq!(c.a, 255);
}

#[test]
fn test_color_roundtrip() {
    let c = Color {
        r: 255,
        g: 128,
        b: 64,
        a: 200,
    };
    let c_color: WebColor = c.into();
    let back = Color::from(c_color);
    assert_eq!(c, back);
}

#[test]
fn web_color_fields() {
    let c = Color { r: 1, g: 2, b: 3, a: 4 };
    assert_eq!(
        WebColor::from(c),
        WebColor { red: 1, green: 2, blue: 3, alpha: 4, is_current_color: 0 }
    );
    let web = WebColor { red: 9, green: 8, blue: 7, alpha: 6, is_current_color: 1 };
    assert_eq!(Color::from(web), Color { r: 9, g: 8, b: 7, a: 6 });
}

#[test]
fn test_border_style_from_c_int() {
    assert_eq!(BorderStyle::from_c_int(0), BorderStyle::Nothing);
    assert_eq!(BorderStyle::from_c_int(4), BorderStyle::Solid);
    assert_eq!(BorderStyle::from_c_int(9), BorderStyle::Outset);
    assert_eq!(BorderStyle::from_c_int(99), BorderStyle::Nothing);
}

#[test]
fn test_media_type_from_c_int() {
    assert_eq!(MediaType::from_c_int(0), MediaType::Unknown);
    assert_eq!(MediaType::from_c_int(3), MediaType::Screen);
    assert_eq!(MediaType::from_c_int(42), MediaType::Unknown);
}

#[test]
fn codes_round_trip() {
    for v in 0..10 {
        assert_eq!(BorderStyle::from_c_int(v).to_c_int(), v);
    }
    for v in 0..4 {
        assert_eq!(MediaType::from_c_int(v).to_c_int(), v);
        assert_eq!(TextTransform::from_c_int(v).to_c_int(), v);
    }
    for v in 0..2 {
        assert_eq!(MouseEvent::from_c_int(v).to_c_int(), v);
    }
    for v in 0..16 {
        assert_eq!(ColorSpace::from_c_int(v).to_c_int(), v);
    }
    for v in 0..5 {
        assert_eq!(HueInterpolation::from_c_int(v).to_c_int(), v);
        assert_eq!(TextDecorationStyle::from_c_int(v).to_c_int(), v);
    }
}

#[test]
fn unknown_codes_give_the_default() {
    assert_eq!(BorderStyle::from_c_int(-1), BorderStyle::default());
    assert_eq!(BorderStyle::from_c_int(10), BorderStyle::Nothing);
    assert_eq!(TextTransform::from_c_int(4), TextTransform::Nothing);
    assert_eq!(MouseEvent::from_c_int(2), MouseEvent::Enter);
    assert_eq!(ColorSpace::from_c_int(16), ColorSpace::Nothing);
    assert_eq!(ColorSpace::from_c_int(15), ColorSpace::Oklch);
    assert_eq!(HueInterpolation::from_c_int(5), HueInterpolation::Nothing);
    assert_eq!(HueInterpolation::from_c_int(4), HueInterpolation::Decreasing);
    assert_eq!(TextDecorationStyle::from_c_int(5), TextDecorationStyle::Solid);
    assert_eq!(TextDecorationStyle::from_c_int(4), TextDecorationStyle::Wavy);
    assert_eq!(MediaType::default(), MediaType::Unknown);
}
