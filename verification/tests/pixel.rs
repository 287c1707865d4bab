use litehtml::pixel::{blend_pixel, intersect_masks, premultiply_alpha};
use litehtml::transform::{capitalize, transform_text};
use litehtml::TextTransform;

#[test]
fn blend_opaque_pixel_replaces_the_destination() {
    let mut data = vec![10, 20, 30, 40, 1, 2, 3, 4];
    blend_pixel(&mut data, 2, 1, 0, 200, 100, 50, 255, None);
    assert_eq!(data, vec![10, 20, 30, 40, 200, 100, 50, 255]);
}

#[test]
fn blend_half_transparent_pixel() {
    let mut data = vec![0, 0, 0, 0, 100, 100, 100, 255];
    blend_pixel(&mut data, 2, 1, 0, 255, 0, 51, 128, None);
    // Source premultiplied: (128, 0, 26); destination scaled by 127 / 255.
    assert_eq!(data, vec![0, 0, 0, 0, 178, 50, 76, 255]);
}

#[test]
fn blend_is_scaled_by_the_mask() {
    let mask = vec![255, 0, 128, 7];
    let mut data = vec![0u8; 16];
    blend_pixel(&mut data, 2, 0, 0, 255, 255, 255, 255, Some(&mask));
    blend_pixel(&mut data, 2, 1, 0, 255, 255, 255, 255, Some(&mask));
    blend_pixel(&mut data, 2, 0, 1, 255, 255, 255, 255, Some(&mask));
    assert_eq!(
        data,
        vec![255, 255, 255, 255, 0, 0, 0, 0, 128, 128, 128, 128, 0, 0, 0, 0]
    );
}

#[test]
fn blend_outside_the_buffer_or_mask_changes_nothing() {
    let mut data = vec![9u8; 8];
    blend_pixel(&mut data, 2, 0, 1, 1, 2, 3, 255, None);
    blend_pixel(&mut data, 2, 1, 0, 1, 2, 3, 0, None);
    blend_pixel(&mut data, u32::MAX, u32::MAX, u32::MAX, 1, 2, 3, 255, None);
    let short_mask = vec![255];
    blend_pixel(&mut data, 2, 1, 0, 1, 2, 3, 255, Some(&short_mask));
    assert_eq!(data, vec![9u8; 8]);
    // The last byte of the pixel must lie inside the buffer.
    let mut data = vec![9u8; 7];
    blend_pixel(&mut data, 2, 1, 0, 1, 2, 3, 255, None);
    assert_eq!(data, vec![9u8; 7]);
}

#[test]
fn blend_caps_at_full_intensity() {
    let mut data = vec![255, 255, 255, 255];
    blend_pixel(&mut data, 1, 0, 0, 255, 255, 255, 1, None);
    assert_eq!(data, vec![255, 255, 255, 255]);
}

#[test]
fn intersect_takes_the_minimum() {
    let mut dst = vec![0, 255, 10, 200, 77];
    intersect_masks(&mut dst, &[255, 0, 20, 100]);
    assert_eq!(dst, vec![0, 0, 10, 100, 77]);
    let mut dst = vec![5, 6];
    intersect_masks(&mut dst, &[1, 9, 0, 0]);
    assert_eq!(dst, vec![1, 6]);
}

#[test]
fn premultiply_scales_colors_by_alpha() {
    let mut data = vec![255, 128, 0, 255, 255, 128, 1, 128, 200, 100, 50, 0, 7, 8];
    premultiply_alpha(&mut data);
    assert_eq!(
        data,
        vec![255, 128, 0, 255, 128, 64, 1, 128, 0, 0, 0, 0, 7, 8]
    );
}

#[test]
fn transform_text_follows_the_css_keywords() {
    assert_eq!(transform_text("hello World", TextTransform::Uppercase), "HELLO WORLD");
    assert_eq!(transform_text("Hello WORLD", TextTransform::Lowercase), "hello world");
    assert_eq!(transform_text("hello wORLD", TextTransform::Capitalize), "Hello WORLD");
    assert_eq!(transform_text("hello World", TextTransform::Nothing), "hello World");
    assert_eq!(transform_text("stra\u{df}e", TextTransform::Uppercase), "STRASSE");
}

#[test]
fn capitalize_raises_the_first_letter_of_each_word() {
    assert_eq!(capitalize(""), "");
    assert_eq!(capitalize("one two\tthree\nfour"), "One Two\tThree\nFour");
    // Not a letter: the next letter still starts the word.
    assert_eq!(capitalize("1st \"quoted\" x"), "1St \"Quoted\" X");
    assert_eq!(capitalize("a-b c"), "A-b C");
    // One code point may become several.
    assert_eq!(capitalize("\u{df}a \u{fb01}x"), "SSa FIx");
    assert_eq!(capitalize("\u{e9}t\u{e9}\u{a0}\u{e0}"), "\u{c9}t\u{e9}\u{a0}\u{c0}");
}
