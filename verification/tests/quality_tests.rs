use imagio::buffer::{GrayBuffer, PixelBuffer};
use imagio::error::InvalidInput;
use imagio::numeric::integer_sqrt;
use imagio::quality::{assess_image_quality, ImageQualityMetrics};

fn image(width: u32, height: u32, levels: &[u8]) -> PixelBuffer {
    GrayBuffer::from_raw(width, height, levels.to_vec()).unwrap().to_rgb()
}

#[test]
fn integer_square_root_rounds_down() {
    assert_eq!(integer_sqrt(0), 0);
    assert_eq!(integer_sqrt(1), 1);
    assert_eq!(integer_sqrt(3), 1);
    assert_eq!(integer_sqrt(4), 2);
    assert_eq!(integer_sqrt(99), 9);
    assert_eq!(integer_sqrt(100), 10);
    assert_eq!(integer_sqrt(1_000_000_007 * 1_000_000_007 - 1), 1_000_000_006);
    assert_eq!(integer_sqrt(u128::MAX), u64::MAX as u128);
    assert_eq!(integer_sqrt((u64::MAX as u128) * (u64::MAX as u128)), u64::MAX as u128);
    assert_eq!(integer_sqrt((u64::MAX as u128) * (u64::MAX as u128) - 1), u64::MAX as u128 - 1);
}

#[test]
fn a_flat_image_has_no_sharpness_contrast_or_noise() {
    let m = assess_image_quality(&image(8, 8, &[77; 64])).unwrap();
    assert_eq!(
        m,
        ImageQualityMetrics {
            blur_score: 0,
            contrast_score: 0,
            noise_level: 0,
            brightness_level: 77_000
        }
    );
    let m = assess_image_quality(&image(40, 30, &[255; 1200])).unwrap();
    assert_eq!(m.blur_score, 0);
    assert_eq!(m.contrast_score, 0);
    assert_eq!(m.noise_level, 0);
    assert_eq!(m.brightness_level, 255_000);
}

#[test]
fn a_checkerboard_is_as_sharp_as_can_be() {
    let levels: Vec<u8> =
        (0..81u32).map(|i| if (i % 9 + i / 9) % 2 == 0 { 255 } else { 0 }).collect();
    let m = assess_image_quality(&image(9, 9, &levels)).unwrap();
    assert_eq!(m.blur_score, 100_000);
    assert_eq!(m.contrast_score, 49_996);
    assert_eq!(m.noise_level, 100_000);
    assert_eq!(m.brightness_level, 129_074);
}

#[test]
fn scores_of_a_small_image() {
    let m = assess_image_quality(&image(3, 3, &[10, 20, 30, 40, 200, 60, 70, 80, 90])).unwrap();
    // one inner pixel: (8 * 200 - 400)^2 = 1_440_000, capped
    assert_eq!(m.blur_score, 100_000);
    assert_eq!(m.contrast_score, 21_077);
    assert_eq!(m.noise_level, 0);
    assert_eq!(m.brightness_level, 66_666);
}

#[test]
fn blur_score_is_the_mean_squared_laplacian() {
    // inner pixels 101 and 100 among 100s
    let levels = [100u8, 100, 100, 100, 100, 101, 100, 100, 100, 100, 100, 100];
    let m = assess_image_quality(&image(4, 3, &levels)).unwrap();
    // responses 8 and -1: (64 + 1) / 2 = 32.5
    assert_eq!(m.blur_score, 32);
    assert_eq!(m.brightness_level, 100_083);
}

#[test]
fn scores_of_a_pattern() {
    let levels: Vec<u8> =
        (0..204u32).map(|i| (((i % 17) * 37 + (i / 17) * (i / 17) * 11) % 256) as u8).collect();
    let m = assess_image_quality(&image(17, 12, &levels)).unwrap();
    assert_eq!(
        m,
        ImageQualityMetrics {
            blur_score: 100_000,
            contrast_score: 28_611,
            noise_level: 73_893,
            brightness_level: 124_852
        }
    );
}

#[test]
fn noise_is_zero_without_room_for_a_sample() {
    let levels: Vec<u8> = (0..60u32).map(|i| (i * 41 % 256) as u8).collect();
    assert_eq!(assess_image_quality(&image(6, 10, &levels)).unwrap().noise_level, 0);
    assert_eq!(assess_image_quality(&image(10, 6, &levels)).unwrap().noise_level, 0);
    let seven: Vec<u8> = (0..49u32).map(|i| (i * 41 % 256) as u8).collect();
    assert!(assess_image_quality(&image(7, 7, &seven)).unwrap().noise_level > 0);
}

#[test]
fn noise_is_the_mean_deviation_of_the_sampled_windows() {
    // 12 by 7: samples at (3, 3) and (8, 3)
    let mut levels = vec![0u8; 84];
    for y in 0..7 {
        for x in 0..12 {
            levels[y * 12 + x] = if x < 7 { if (x + y) % 2 == 0 { 10 } else { 20 } } else { 50 };
        }
    }
    let m = assess_image_quality(&image(12, 7, &levels)).unwrap();
    // left window: 25 tens and 24 twenties, deviation 4.9989...; right window (columns 5 to 11)
    let left = {
        let (s, q) = (25 * 10 + 24 * 20, 25 * 100 + 24 * 400);
        ((49 * q - s * s) as f64).sqrt() / 49.0
    };
    let right = {
        let mut s = 0i64;
        let mut q = 0i64;
        for y in 0..7 {
            for x in 5..12 {
                let v = levels[y * 12 + x] as i64;
                s += v;
                q += v * v;
            }
        }
        ((49 * q - s * s) as f64).sqrt() / 49.0
    };
    let expected = ((left * 1000.0).floor() + (right * 1000.0).floor()) / 2.0;
    assert_eq!(m.noise_level as f64, expected.floor());
}

#[test]
fn assessment_turns_away_an_image_without_inner_pixels() {
    assert_eq!(assess_image_quality(&image(2, 2, &[0; 4])).err(), Some(InvalidInput::TooSmall));
    assert_eq!(assess_image_quality(&image(2, 50, &[0; 100])).err(), Some(InvalidInput::TooSmall));
    assert_eq!(assess_image_quality(&image(50, 1, &[0; 50])).err(), Some(InvalidInput::TooSmall));
    assert!(assess_image_quality(&image(3, 3, &[0; 9])).is_ok());
}
