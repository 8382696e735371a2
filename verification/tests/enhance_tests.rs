use imagio::buffer::{GrayBuffer, PixelBuffer};
use imagio::enhance::apply_clahe;

fn image(width: u32, height: u32, levels: &[u8]) -> PixelBuffer {
    GrayBuffer::from_raw(width, height, levels.to_vec()).unwrap().to_rgb()
}

fn levels_of(img: &PixelBuffer) -> Vec<u8> {
    for p in img.as_raw().chunks(4) {
        assert!(p[0] == p[1] && p[1] == p[2] && p[3] == 255);
    }
    img.as_raw().chunks(4).map(|p| p[0]).collect()
}

#[test]
fn equalization_spreads_two_levels_over_the_range() {
    let out = apply_clahe(&image(4, 1, &[100, 100, 110, 110])).unwrap();
    assert_eq!(out.width(), 4);
    assert_eq!(out.height(), 1);
    assert_eq!(levels_of(&out), vec![127, 127, 255, 255]);
}

#[test]
fn equalization_maps_each_level_through_the_share_of_pixels_below_it() {
    let levels = [10u8, 20, 30, 40, 50, 60, 70, 80];
    let out = levels_of(&apply_clahe(&image(4, 2, &levels)).unwrap());
    assert_eq!(out[7], 255);
    for i in 0..8 {
        let exact = 255.0 * (i as f64 + 1.0) / 8.0;
        assert!((out[i] as f64 - exact).abs() <= 1.0);
    }
    for i in 1..8 {
        assert!(out[i - 1] < out[i]);
    }
}

#[test]
fn equalization_agrees_with_the_outside_crate() {
    let levels: Vec<u8> = (0..300u32).map(|i| ((i * i * 7 + i * 13) % 256) as u8).collect();
    let gray = image::GrayImage::from_raw(20, 15, levels.clone()).unwrap();
    let expected = imageproc::contrast::equalize_histogram(&gray).into_raw();
    assert_eq!(levels_of(&apply_clahe(&image(20, 15, &levels)).unwrap()), expected);
    assert_ne!(expected, levels);
}

#[test]
fn equalization_makes_a_flat_image_white() {
    assert_eq!(levels_of(&apply_clahe(&image(3, 2, &[40; 6])).unwrap()), vec![255; 6]);
}
