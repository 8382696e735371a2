use imagio::borders::{find_content_box, remove_borders, CropBox};
use imagio::buffer::{GrayBuffer, PixelBuffer, Rgb};

fn gray(width: u32, height: u32, levels: &[u8]) -> GrayBuffer {
    GrayBuffer::from_raw(width, height, levels.to_vec()).unwrap()
}

fn framed(size: u32, border: u32) -> Vec<u8> {
    let mut levels = vec![0u8; (size * size) as usize];
    for y in border..size - border {
        for x in border..size - border {
            levels[(y * size + x) as usize] = 255;
        }
    }
    levels
}

#[test]
fn a_black_border_of_a_tenth_is_cut_down_to_the_margin() {
    let img = gray(100, 100, &framed(100, 10)).to_rgb();
    let out = remove_borders(&img);
    // content from 10 to 89, margin max(100 / 50, 2) = 2: columns and rows 8 to 91
    assert_eq!(out.width(), 84);
    assert_eq!(out.height(), 84);
    let black = Rgb { r: 0, g: 0, b: 0 };
    let white = Rgb { r: 255, g: 255, b: 255 };
    for y in 0..84 {
        for x in 0..84 {
            let inside = (2..82).contains(&x) && (2..82).contains(&y);
            assert_eq!(out.get_pixel(x, y), if inside { white } else { black });
        }
    }
}

#[test]
fn the_content_box_of_a_framed_image() {
    let b = find_content_box(&gray(100, 100, &framed(100, 10)));
    assert_eq!(b, CropBox { left: 8, top: 8, width: 84, height: 84 });
    let b = find_content_box(&gray(300, 300, &framed(300, 60)));
    // content from 60 to 239, margin 300 / 50 = 6
    assert_eq!(b, CropBox { left: 54, top: 54, width: 192, height: 192 });
}

#[test]
fn the_crop_keeps_the_colours_of_the_kept_pixels() {
    let mut raw = Vec::new();
    for y in 0..40u32 {
        for x in 0..30u32 {
            let lit = (12..20).contains(&x) && (15..25).contains(&y);
            if lit {
                raw.extend_from_slice(&[200 + (x as u8), 250, 100 + (y as u8), 255]);
            } else {
                raw.extend_from_slice(&[x as u8 % 3, 0, y as u8 % 5, 255]);
            }
        }
    }
    let img = PixelBuffer::from_raw(30, 40, raw).unwrap();
    let out = remove_borders(&img);
    // columns 12 to 19 and rows 15 to 24 have content; the margin is 2
    assert_eq!(out.width(), 12);
    assert_eq!(out.height(), 14);
    for y in 0..14 {
        for x in 0..12 {
            assert_eq!(out.get_pixel(x, y), img.get_pixel(x + 10, y + 13));
        }
    }
}

#[test]
fn a_thin_border_is_left_alone() {
    let img = gray(100, 100, &framed(100, 1)).to_rgb();
    let out = remove_borders(&img);
    assert_eq!(out.width(), 100);
    assert_eq!(out.height(), 100);
    assert_eq!(out.as_raw(), img.as_raw());
    // content from 3 to 96 gives rows 1 to 98: 98 * 98 is more than 95 hundredths
    let img = gray(100, 100, &framed(100, 3)).to_rgb();
    assert_eq!(remove_borders(&img).as_raw(), img.as_raw());
    // content from 4 to 95 gives rows 2 to 97: 96 * 96 is less
    let img = gray(100, 100, &framed(100, 4)).to_rgb();
    assert_eq!(remove_borders(&img).width(), 96);
}

#[test]
fn an_image_without_content_is_left_alone() {
    let img = gray(10, 10, &[0; 100]).to_rgb();
    assert_eq!(find_content_box(&img.to_luma()), CropBox { left: 0, top: 0, width: 10, height: 10 });
    assert_eq!(remove_borders(&img).as_raw(), img.as_raw());
    let one = gray(1, 1, &[0]).to_rgb();
    assert_eq!(remove_borders(&one).as_raw(), one.as_raw());
}

#[test]
fn content_needs_more_than_a_tenth_of_full_white() {
    // a row of length 10 needs a sum above 255
    let mut levels = vec![0u8; 100];
    levels[5 * 10 + 4] = 255;
    let b = find_content_box(&gray(10, 10, &levels));
    assert_eq!(b, CropBox { left: 0, top: 0, width: 10, height: 10 });
    levels[5 * 10 + 5] = 1;
    let b = find_content_box(&gray(10, 10, &levels));
    // row 5 has content; no column has
    assert_eq!(b, CropBox { left: 0, top: 3, width: 10, height: 5 });
    levels[6 * 10 + 4] = 1;
    let b = find_content_box(&gray(10, 10, &levels));
    // column 4 has content now, too
    assert_eq!(b, CropBox { left: 2, top: 3, width: 5, height: 5 });
}

#[test]
fn the_box_reaches_from_the_first_to_the_last_content() {
    let mut levels = vec![0u8; 60 * 60];
    for x in 0..60 {
        levels[20 * 60 + x] = 255;
        levels[45 * 60 + x] = 255;
    }
    let b = find_content_box(&gray(60, 60, &levels));
    assert_eq!(b, CropBox { left: 0, top: 18, width: 60, height: 30 });
}
