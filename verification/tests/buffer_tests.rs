use imagio::buffer::{GrayBuffer, PixelBuffer, Rgb};
use imagio::error::InvalidInput;

fn rgba(pixels: &[(u8, u8, u8)]) -> Vec<u8> {
    let mut raw = Vec::new();
    for &(r, g, b) in pixels {
        raw.extend_from_slice(&[r, g, b, 255]);
    }
    raw
}

#[test]
fn pixel_buffer_keeps_colours_and_dimensions() {
    let raw = rgba(&[(1, 2, 3), (4, 5, 6), (7, 8, 9), (10, 11, 12), (13, 14, 15), (16, 17, 18)]);
    let img = PixelBuffer::from_raw(3, 2, raw.clone()).unwrap();
    assert_eq!(img.width(), 3);
    assert_eq!(img.height(), 2);
    assert_eq!(img.pixel_len(), 6);
    assert_eq!(img.as_raw(), &raw);
    assert_eq!(img.get_pixel(0, 0), Rgb { r: 1, g: 2, b: 3 });
    assert_eq!(img.get_pixel(2, 0), Rgb { r: 7, g: 8, b: 9 });
    assert_eq!(img.get_pixel(0, 1), Rgb { r: 10, g: 11, b: 12 });
    assert_eq!(img.get_pixel(2, 1), Rgb { r: 16, g: 17, b: 18 });
    assert_eq!(img.pixel_at(4), Rgb { r: 13, g: 14, b: 15 });
}

#[test]
fn pixel_buffer_drops_transparency() {
    let img = PixelBuffer::from_raw(2, 1, vec![10, 20, 30, 0, 40, 50, 60, 128]).unwrap();
    assert_eq!(img.as_raw(), &vec![10, 20, 30, 255, 40, 50, 60, 255]);
}

#[test]
fn pixel_buffer_turns_away_empty_dimensions() {
    assert_eq!(PixelBuffer::from_raw(0, 5, vec![]).err(), Some(InvalidInput::Empty));
    assert_eq!(PixelBuffer::from_raw(5, 0, vec![]).err(), Some(InvalidInput::Empty));
    assert_eq!(GrayBuffer::from_raw(0, 0, vec![]).err(), Some(InvalidInput::Empty));
}

#[test]
fn pixel_buffer_turns_away_wrong_length() {
    assert_eq!(PixelBuffer::from_raw(2, 2, vec![0; 15]).err(), Some(InvalidInput::LengthMismatch));
    assert_eq!(PixelBuffer::from_raw(2, 2, vec![0; 17]).err(), Some(InvalidInput::LengthMismatch));
    assert_eq!(GrayBuffer::from_raw(2, 2, vec![0; 3]).err(), Some(InvalidInput::LengthMismatch));
    assert!(GrayBuffer::from_raw(2, 2, vec![0; 4]).is_ok());
}

#[test]
fn pixel_buffer_turns_away_too_many_pixels() {
    assert_eq!(PixelBuffer::from_raw(65536, 65536, vec![]).err(), Some(InvalidInput::TooLarge));
    assert_eq!(GrayBuffer::from_raw(65536, 65536, vec![]).err(), Some(InvalidInput::TooLarge));
    assert_eq!(
        GrayBuffer::from_raw(65535, 65537, vec![]).err(),
        Some(InvalidInput::LengthMismatch)
    );
}

#[test]
fn luma_is_the_weighted_sum_rounded_down() {
    let colours = [
        (0u8, 0u8, 0u8),
        (255, 255, 255),
        (255, 0, 0),
        (0, 255, 0),
        (0, 0, 255),
        (10, 200, 30),
        (1, 1, 1),
        (123, 45, 67),
        (254, 255, 255),
    ];
    let img = PixelBuffer::from_raw(3, 3, rgba(&colours)).unwrap();
    let gray = img.to_luma();
    assert_eq!(gray.width(), 3);
    assert_eq!(gray.height(), 3);
    let expected: Vec<u8> = colours
        .iter()
        .map(|&(r, g, b)| ((2126 * r as u32 + 7152 * g as u32 + 722 * b as u32) / 10000) as u8)
        .collect();
    assert_eq!(gray.as_raw(), &expected);
    assert_eq!(gray.as_raw(), &vec![0, 255, 54, 182, 18, 147, 1, 63, 254]);
}

#[test]
fn luma_of_every_gray_is_that_gray() {
    let colours: Vec<(u8, u8, u8)> = (0..=255u8).map(|l| (l, l, l)).collect();
    let img = PixelBuffer::from_raw(16, 16, rgba(&colours)).unwrap();
    let expected: Vec<u8> = (0..=255u8).collect();
    assert_eq!(img.to_luma().as_raw(), &expected);
}

#[test]
fn gray_buffer_spreads_its_level_over_the_channels() {
    let gray = GrayBuffer::from_raw(2, 2, vec![0, 7, 200, 255]).unwrap();
    let img = gray.to_rgb();
    assert_eq!(img.width(), 2);
    assert_eq!(img.height(), 2);
    assert_eq!(
        img.as_raw(),
        &vec![0, 0, 0, 255, 7, 7, 7, 255, 200, 200, 200, 255, 255, 255, 255, 255]
    );
}

#[test]
fn clamped_access_stands_for_the_nearest_pixel() {
    let gray = GrayBuffer::from_raw(3, 2, vec![1, 2, 3, 4, 5, 6]).unwrap();
    assert_eq!(gray.get(1, 1), 5);
    assert_eq!(gray.level_at(3), 4);
    assert_eq!(gray.get_clamped(1, 1), 5);
    assert_eq!(gray.get_clamped(-1, -1), 1);
    assert_eq!(gray.get_clamped(-100, 1), 4);
    assert_eq!(gray.get_clamped(3, 0), 3);
    assert_eq!(gray.get_clamped(7, 9), 6);
    assert_eq!(gray.get_clamped(1, i64::MAX), 5);
    assert_eq!(gray.get_clamped(i64::MIN, i64::MIN), 1);
    let img = gray.to_rgb();
    assert_eq!(img.get_clamped(-3, 5), Rgb { r: 4, g: 4, b: 4 });
    assert_eq!(img.get_clamped(2, 0), Rgb { r: 3, g: 3, b: 3 });
}

#[test]
fn duplicate_is_an_equal_buffer() {
    let img = PixelBuffer::from_raw(2, 1, vec![9, 8, 7, 255, 6, 5, 4, 255]).unwrap();
    let copy = img.duplicate();
    assert_eq!(copy.width(), 2);
    assert_eq!(copy.height(), 1);
    assert_eq!(copy.as_raw(), img.as_raw());
}
