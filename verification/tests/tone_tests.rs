use imagio::buffer::PixelBuffer;
use imagio::error::InvalidInput;
use imagio::tone::{adjust_brightness, adjust_contrast, adjust_sharpness, clamped_quotient};

fn gray_image(width: u32, height: u32, levels: &[u8]) -> PixelBuffer {
    let mut raw = Vec::new();
    for &l in levels {
        raw.extend_from_slice(&[l, l, l, 255]);
    }
    PixelBuffer::from_raw(width, height, raw).unwrap()
}

fn reds(img: &PixelBuffer) -> Vec<u8> {
    img.as_raw().chunks(4).map(|p| p[0]).collect()
}

#[test]
fn clamped_quotient_rounds_down_and_clamps() {
    assert_eq!(clamped_quotient(0, 7), 0);
    assert_eq!(clamped_quotient(13, 7), 1);
    assert_eq!(clamped_quotient(14, 7), 2);
    assert_eq!(clamped_quotient(-1, 7), 0);
    assert_eq!(clamped_quotient(i64::MIN, 1), 0);
    assert_eq!(clamped_quotient(255, 1), 255);
    assert_eq!(clamped_quotient(256, 1), 255);
    assert_eq!(clamped_quotient(i64::MAX, 1), 255);
}

#[test]
fn brightness_shifts_every_colour_channel() {
    let img = PixelBuffer::from_raw(2, 1, vec![100, 0, 250, 255, 10, 204, 205, 255]).unwrap();
    let out = adjust_brightness(&img, 200);
    assert_eq!(out.width(), 2);
    assert_eq!(out.height(), 1);
    assert_eq!(out.as_raw(), &vec![151, 51, 255, 255, 61, 255, 255, 255]);
    let out = adjust_brightness(&img, -100);
    assert_eq!(out.as_raw(), &vec![74, 0, 224, 255, 0, 178, 179, 255]);
}

#[test]
fn brightness_rounds_down() {
    let img = gray_image(3, 1, &[0, 100, 255]);
    assert_eq!(reds(&adjust_brightness(&img, 1)), vec![0, 100, 255]);
    assert_eq!(reds(&adjust_brightness(&img, 3)), vec![0, 100, 255]);
    assert_eq!(reds(&adjust_brightness(&img, 4)), vec![1, 101, 255]);
    assert_eq!(reds(&adjust_brightness(&img, -1)), vec![0, 99, 254]);
}

#[test]
fn brightness_of_zero_changes_nothing() {
    let levels: Vec<u8> = (0..=255u8).collect();
    let img = gray_image(16, 16, &levels);
    assert_eq!(adjust_brightness(&img, 0).as_raw(), img.as_raw());
}

#[test]
fn brightness_takes_any_shift() {
    let img = gray_image(2, 1, &[0, 255]);
    assert_eq!(reds(&adjust_brightness(&img, i32::MAX)), vec![255, 255]);
    assert_eq!(reds(&adjust_brightness(&img, i32::MIN)), vec![0, 0]);
    assert_eq!(reds(&adjust_brightness(&img, 1000)), vec![255, 255]);
    assert_eq!(reds(&adjust_brightness(&img, -1000)), vec![0, 0]);
}

#[test]
fn contrast_scales_about_the_middle_level() {
    let img = gray_image(5, 1, &[200, 100, 101, 128, 0]);
    assert_eq!(reds(&adjust_contrast(&img, 1500)), vec![236, 86, 87, 128, 0]);
    assert_eq!(reds(&adjust_contrast(&img, 1300)), vec![221, 91, 92, 128, 0]);
    assert_eq!(reds(&adjust_contrast(&img, 500)), vec![164, 114, 114, 128, 64]);
    assert_eq!(reds(&adjust_contrast(&img, 0)), vec![128, 128, 128, 128, 128]);
    assert_eq!(reds(&adjust_contrast(&img, -1000)), vec![56, 156, 155, 128, 255]);
    assert_eq!(reds(&adjust_contrast(&img, i32::MAX)), vec![255, 0, 0, 128, 0]);
    assert_eq!(reds(&adjust_contrast(&img, i32::MIN)), vec![0, 255, 255, 128, 255]);
}

#[test]
fn contrast_of_one_changes_nothing() {
    let levels: Vec<u8> = (0..=255u8).collect();
    let img = gray_image(16, 16, &levels);
    assert_eq!(adjust_contrast(&img, 1000).as_raw(), img.as_raw());
}

#[test]
fn contrast_leaves_alpha_and_treats_channels_apart() {
    let img = PixelBuffer::from_raw(1, 1, vec![200, 100, 128, 255]).unwrap();
    assert_eq!(adjust_contrast(&img, 1500).as_raw(), &vec![236, 86, 128, 255]);
}

#[test]
fn contrast_and_its_reciprocal_give_the_value_back() {
    let levels: Vec<u8> = (96..=160u8).collect();
    let img = gray_image(65, 1, &levels);
    let back = adjust_contrast(&adjust_contrast(&img, 2000), 500);
    assert_eq!(reds(&back), levels);
    let back = adjust_contrast(&adjust_contrast(&img, 1250), 800);
    for (x, y) in levels.iter().zip(reds(&back)) {
        assert!(y <= *x);
        assert!(1000 * (*x as i32 - y as i32) < 1000 + 800);
    }
    let back = adjust_contrast(&adjust_contrast(&img, 500), 2000);
    for (x, y) in levels.iter().zip(reds(&back)) {
        assert!(y <= *x);
        assert!(1000 * (*x as i32 - y as i32) < 1000 + 2000);
    }
    assert_eq!(reds(&adjust_contrast(&adjust_contrast(&gray_image(1, 1, &[151]), 1250), 800)), vec![150]);
}

#[test]
fn sharpness_pushes_a_pixel_away_from_its_neighbours() {
    let levels = [
        7, 100, 9, //
        100, 120, 100, //
        11, 100, 13,
    ];
    let img = gray_image(3, 3, &levels);
    let out = adjust_sharpness(&img, 2000).unwrap();
    assert_eq!(reds(&out), vec![7, 100, 9, 100, 160, 100, 11, 100, 13]);
    let out = adjust_sharpness(&img, 1500).unwrap();
    assert_eq!(reds(&out), vec![7, 100, 9, 100, 140, 100, 11, 100, 13]);
    let out = adjust_sharpness(&img, 1001).unwrap();
    assert_eq!(reds(&out), vec![7, 100, 9, 100, 120, 100, 11, 100, 13]);
    let out = adjust_sharpness(&img, 9000).unwrap();
    assert_eq!(reds(&out), vec![7, 100, 9, 100, 255, 100, 11, 100, 13]);
}

#[test]
fn sharpness_rounds_down_and_clamps_at_black() {
    let levels = [
        0, 101, 0, //
        100, 100, 100, //
        0, 100, 0,
    ];
    let img = gray_image(3, 3, &levels);
    // 100 + 1 * (100 - 100.25) = 99.75
    assert_eq!(reds(&adjust_sharpness(&img, 1500).unwrap())[4], 99);
    let dark = gray_image(3, 3, &[0, 255, 0, 255, 10, 255, 0, 255, 0]);
    assert_eq!(reds(&adjust_sharpness(&dark, 2000).unwrap())[4], 0);
}

#[test]
fn sharpness_uses_the_four_direct_neighbours_of_each_channel() {
    let mut raw = vec![0u8; 3 * 3 * 4];
    for p in raw.chunks_mut(4) {
        p[3] = 255;
    }
    let set = |raw: &mut Vec<u8>, x: usize, y: usize, c: [u8; 3]| {
        let i = (y * 3 + x) * 4;
        raw[i] = c[0];
        raw[i + 1] = c[1];
        raw[i + 2] = c[2];
    };
    set(&mut raw, 1, 1, [100, 50, 200]);
    set(&mut raw, 0, 1, [80, 50, 200]);
    set(&mut raw, 2, 1, [80, 50, 180]);
    set(&mut raw, 1, 0, [80, 50, 200]);
    set(&mut raw, 1, 2, [80, 50, 180]);
    set(&mut raw, 0, 0, [255, 255, 255]);
    let img = PixelBuffer::from_raw(3, 3, raw).unwrap();
    let out = adjust_sharpness(&img, 2000).unwrap();
    // red: 100 + 2 * (100 - 80); green: 50; blue: 200 + 2 * (200 - 190)
    assert_eq!(&out.as_raw()[16..20], &[140, 50, 220, 255]);
    assert_eq!(&out.as_raw()[0..4], &[255, 255, 255, 255]);
}

#[test]
fn sharpness_keeps_the_border() {
    let levels: Vec<u8> = (0..30u8).map(|i| i.wrapping_mul(37)).collect();
    let img = gray_image(6, 5, &levels);
    let out = adjust_sharpness(&img, 3000).unwrap();
    let got = reds(&out);
    for y in 0..5 {
        for x in 0..6 {
            if x == 0 || y == 0 || x == 5 || y == 4 {
                assert_eq!(got[y * 6 + x], levels[y * 6 + x]);
            }
        }
    }
    assert_ne!(got, levels);
}

#[test]
fn sharpness_of_one_or_less_changes_nothing() {
    let levels: Vec<u8> = (0..30u8).map(|i| i.wrapping_mul(37)).collect();
    let img = gray_image(6, 5, &levels);
    assert_eq!(adjust_sharpness(&img, 1000).unwrap().as_raw(), img.as_raw());
    assert_eq!(adjust_sharpness(&img, 0).unwrap().as_raw(), img.as_raw());
    assert_eq!(adjust_sharpness(&img, -500).unwrap().as_raw(), img.as_raw());
    let small = gray_image(2, 2, &[1, 2, 3, 4]);
    assert_eq!(adjust_sharpness(&small, 1000).unwrap().as_raw(), small.as_raw());
}

#[test]
fn sharpness_turns_away_an_image_without_inner_pixels() {
    let small = gray_image(2, 5, &[0; 10]);
    assert_eq!(adjust_sharpness(&small, 2000).err(), Some(InvalidInput::TooSmall));
    let flat = gray_image(5, 2, &[0; 10]);
    assert_eq!(adjust_sharpness(&flat, 1001).err(), Some(InvalidInput::TooSmall));
    let least = gray_image(3, 3, &[0; 9]);
    assert!(adjust_sharpness(&least, 2000).is_ok());
}
