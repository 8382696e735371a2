use imagio::buffer::{GrayBuffer, PixelBuffer};
use imagio::error::InvalidInput;
use imagio::morphology::{
    apply_closing, apply_dilation, apply_erosion, apply_opening, dilate, erode,
};
use imagio::window::{window_extremes, window_sums};

fn gray(width: u32, height: u32, levels: &[u8]) -> GrayBuffer {
    GrayBuffer::from_raw(width, height, levels.to_vec()).unwrap()
}

fn image(width: u32, height: u32, levels: &[u8]) -> PixelBuffer {
    gray(width, height, levels).to_rgb()
}

fn levels_of(img: &PixelBuffer) -> Vec<u8> {
    for p in img.as_raw().chunks(4) {
        assert!(p[0] == p[1] && p[1] == p[2] && p[3] == 255);
    }
    img.as_raw().chunks(4).map(|p| p[0]).collect()
}

#[test]
fn window_sums_and_extremes_over_a_clamped_square() {
    let g = gray(3, 2, &[1, 2, 3, 4, 5, 6]);
    // around (0, 0) with radius 1: rows -1, 0, 1 and columns -1, 0, 1, clamped
    // 1 1 2 / 1 1 2 / 4 4 5
    assert_eq!(window_sums(&g, 0, 0, 1), (21, 69));
    assert_eq!(window_extremes(&g, 0, 0, 1), (1, 5));
    assert_eq!(window_sums(&g, 1, 1, 0), (5, 25));
    assert_eq!(window_extremes(&g, 2, 1, 1), (2, 6));
    // radius 64 around (1, 0): row 0 counts 65 times, row 1 64 times; the outer
    // columns count 64 times each, the middle one once
    assert_eq!(window_sums(&g, 1, 0, 64).0, 65 * (64 + 2 + 64 * 3) + 64 * (64 * 4 + 5 + 64 * 6));
}

#[test]
fn erosion_takes_the_least_and_dilation_the_greatest_of_the_square() {
    let g = gray(4, 3, &[5, 9, 1, 7, 3, 8, 6, 2, 4, 4, 9, 0]);
    let e = erode(&g);
    assert_eq!(e.width(), 4);
    assert_eq!(e.height(), 3);
    assert_eq!(e.as_raw(), &vec![3, 1, 1, 1, 3, 1, 0, 0, 3, 3, 0, 0]);
    assert_eq!(dilate(&g).as_raw(), &vec![9, 9, 9, 7, 9, 9, 9, 9, 8, 9, 9, 9]);
}

#[test]
fn erosion_keeps_gray_levels() {
    let levels = [100u8, 120, 140, 160, 180, 200, 220, 240, 250];
    assert_eq!(
        levels_of(&apply_erosion(&image(3, 3, &levels)).unwrap()),
        vec![100, 100, 120, 100, 100, 120, 160, 160, 180]
    );
    assert_eq!(
        levels_of(&apply_dilation(&image(3, 3, &levels)).unwrap()),
        vec![180, 200, 200, 240, 250, 250, 240, 250, 250]
    );
}

#[test]
fn opening_removes_a_single_bright_pixel() {
    let mut levels = vec![0u8; 49];
    levels[3 * 7 + 3] = 255;
    assert_eq!(levels_of(&apply_opening(&image(7, 7, &levels)).unwrap()), vec![0; 49]);
    let mut corner = vec![0u8; 9];
    corner[0] = 200;
    assert_eq!(levels_of(&apply_opening(&image(3, 3, &corner)).unwrap()), vec![0; 9]);
}

#[test]
fn closing_fills_a_single_dark_pixel() {
    let mut levels = vec![255u8; 49];
    levels[3 * 7 + 3] = 0;
    assert_eq!(levels_of(&apply_closing(&image(7, 7, &levels)).unwrap()), vec![255; 49]);
    let mut edge = vec![255u8; 12];
    edge[4] = 17;
    assert_eq!(levels_of(&apply_closing(&image(4, 3, &edge)).unwrap()), vec![255; 12]);
}

#[test]
fn opening_keeps_a_block_as_large_as_the_square() {
    let mut levels = vec![0u8; 49];
    for y in 2..5 {
        for x in 2..5 {
            levels[y * 7 + x] = 255;
        }
    }
    assert_eq!(levels_of(&apply_opening(&image(7, 7, &levels)).unwrap()), levels);
    let eroded = levels_of(&apply_erosion(&image(7, 7, &levels)).unwrap());
    assert_eq!(eroded.iter().filter(|&&l| l == 255).count(), 1);
    assert_eq!(eroded[3 * 7 + 3], 255);
    let dilated = levels_of(&apply_dilation(&image(7, 7, &levels)).unwrap());
    assert_eq!(dilated.iter().filter(|&&l| l == 255).count(), 25);
}

#[test]
fn morphology_turns_away_an_image_smaller_than_the_square() {
    let thin = image(2, 9, &[0; 18]);
    assert_eq!(apply_erosion(&thin).err(), Some(InvalidInput::TooSmall));
    assert_eq!(apply_dilation(&thin).err(), Some(InvalidInput::TooSmall));
    assert_eq!(apply_opening(&thin).err(), Some(InvalidInput::TooSmall));
    assert_eq!(apply_closing(&thin).err(), Some(InvalidInput::TooSmall));
    let flat = image(9, 2, &[0; 18]);
    assert_eq!(apply_erosion(&flat).err(), Some(InvalidInput::TooSmall));
    assert!(apply_erosion(&image(3, 3, &[0; 9])).is_ok());
}

#[test]
fn morphology_works_on_the_luminance() {
    let img = PixelBuffer::from_raw(3, 3, {
        let mut raw = vec![255u8; 36];
        raw[16] = 255;
        raw[17] = 0;
        raw[18] = 0;
        raw
    })
    .unwrap();
    // the centre has luminance 54, all others 255
    assert_eq!(levels_of(&apply_erosion(&img).unwrap()), vec![54; 9]);
    assert_eq!(levels_of(&apply_dilation(&img).unwrap()), vec![255; 9]);
}
