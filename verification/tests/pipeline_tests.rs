use imagio::buffer::{GrayBuffer, PixelBuffer};
use imagio::error::InvalidInput;
use imagio::pipeline::{
    adaptive_preprocess, apply_binarization, apply_morphology, binarization_from_name,
    derive_adaptive_params, morphology_from_name, preprocess, preprocess_image, run_stages,
    skew_method_from_name, stage_plan, BinarizationMethod, Morphology, Outcome, ProcessingParams,
    SkewMethod, Stage, StageError,
};
use imagio::quality::ImageQualityMetrics;

fn image(width: u32, height: u32, levels: &[u8]) -> PixelBuffer {
    GrayBuffer::from_raw(width, height, levels.to_vec()).unwrap().to_rgb()
}

fn plain() -> ProcessingParams {
    ProcessingParams {
        contrast: 1000,
        brightness: 0,
        sharpness: 1000,
        binarization_method: BinarizationMethod::Off,
        use_clahe: false,
        gaussian_blur: 0,
        bilateral_filter: false,
        morphology: Morphology::Off,
        correct_skew: false,
        skew_method: SkewMethod::LineBased,
        remove_borders: false,
        adaptive_mode: false,
    }
}

fn good() -> ImageQualityMetrics {
    ImageQualityMetrics {
        blur_score: 60_000,
        contrast_score: 70_000,
        noise_level: 5_000,
        brightness_level: 128_000,
    }
}

fn finished(res: Result<Outcome, StageError>) -> PixelBuffer {
    match res {
        Ok(Outcome::Finished(img)) => img,
        Ok(Outcome::Pending(p)) => panic!("stopped at {:?}", p.stage),
        Err(e) => panic!("failed: {:?}", e),
    }
}

#[test]
fn names_stand_for_methods_and_unknown_names_for_none() {
    let name = |s: &str| s.to_string();
    assert_eq!(binarization_from_name(&name("adaptive")), BinarizationMethod::Adaptive);
    assert_eq!(binarization_from_name(&name("otsu")), BinarizationMethod::Otsu);
    assert_eq!(binarization_from_name(&name("mean")), BinarizationMethod::Mean);
    assert_eq!(binarization_from_name(&name("sauvola")), BinarizationMethod::Sauvola);
    assert_eq!(binarization_from_name(&name("none")), BinarizationMethod::Off);
    assert_eq!(binarization_from_name(&name("Otsu")), BinarizationMethod::Off);
    assert_eq!(binarization_from_name(&name("")), BinarizationMethod::Off);
    assert_eq!(morphology_from_name(&name("erode")), Morphology::Erode);
    assert_eq!(morphology_from_name(&name("dilate")), Morphology::Dilate);
    assert_eq!(morphology_from_name(&name("opening")), Morphology::Opening);
    assert_eq!(morphology_from_name(&name("closing")), Morphology::Closing);
    assert_eq!(morphology_from_name(&name("none")), Morphology::Off);
    assert_eq!(morphology_from_name(&name("open")), Morphology::Off);
    assert_eq!(skew_method_from_name(&name("projection")), SkewMethod::Projection);
    assert_eq!(skew_method_from_name(&name("hough")), SkewMethod::LineBased);
    assert_eq!(skew_method_from_name(&name("")), SkewMethod::LineBased);
}

#[test]
fn plain_parameters_call_for_no_stage() {
    assert_eq!(stage_plan(&plain()), vec![]);
    let mut p = plain();
    p.adaptive_mode = true;
    p.gaussian_blur = -5;
    p.sharpness = 999;
    p.skew_method = SkewMethod::Projection;
    assert_eq!(stage_plan(&p), vec![]);
}

#[test]
fn the_stages_come_in_the_fixed_order() {
    let p = ProcessingParams {
        contrast: 1200,
        brightness: -50,
        sharpness: 1800,
        binarization_method: BinarizationMethod::Sauvola,
        use_clahe: true,
        gaussian_blur: 1500,
        bilateral_filter: false,
        morphology: Morphology::Closing,
        correct_skew: true,
        skew_method: SkewMethod::Projection,
        remove_borders: true,
        adaptive_mode: false,
    };
    assert_eq!(
        stage_plan(&p),
        vec![
            Stage::RemoveBorders,
            Stage::CorrectSkew(SkewMethod::Projection),
            Stage::GaussianBlur(1500),
            Stage::Brightness(-50),
            Stage::Contrast(1200),
            Stage::Sharpen(1800),
            Stage::Equalize,
            Stage::Morph(Morphology::Closing),
            Stage::Binarize(BinarizationMethod::Sauvola),
        ]
    );
}

#[test]
fn the_bilateral_filter_takes_the_place_of_the_blur() {
    let mut p = plain();
    p.gaussian_blur = 1500;
    p.bilateral_filter = true;
    assert_eq!(stage_plan(&p), vec![Stage::BilateralFilter]);
    p.bilateral_filter = false;
    assert_eq!(stage_plan(&p), vec![Stage::GaussianBlur(1500)]);
    p.gaussian_blur = 0;
    assert_eq!(stage_plan(&p), vec![]);
}

#[test]
fn an_all_white_image_stays_white_under_otsu() {
    let img = PixelBuffer::from_raw(400, 100, vec![255u8; 400 * 100 * 4]).unwrap();
    let mut p = plain();
    p.binarization_method = BinarizationMethod::Otsu;
    let out = finished(preprocess_image(img, &p));
    assert_eq!(out.width(), 400);
    assert_eq!(out.height(), 100);
    assert_eq!(out.as_raw().len(), 400 * 100 * 4);
    assert!(out.as_raw().iter().all(|&s| s == 255));
}

#[test]
fn no_stage_gives_the_image_back() {
    let levels: Vec<u8> = (0..35u8).map(|i| i.wrapping_mul(29)).collect();
    let img = image(7, 5, &levels);
    let out = finished(preprocess_image(img.duplicate(), &plain()));
    assert_eq!(out.as_raw(), img.as_raw());
    assert_eq!(finished(run_stages(img.duplicate(), &vec![])).as_raw(), img.as_raw());
}

#[test]
fn the_stages_run_one_after_the_other() {
    let img = image(3, 3, &[100, 100, 100, 100, 120, 100, 100, 100, 100]);
    let mut p = plain();
    p.brightness = 200;
    p.contrast = 1500;
    p.sharpness = 2000;
    p.binarization_method = BinarizationMethod::Mean;
    // brightness: 151 and 171; contrast: 162 and 192; sharpness: centre 192 + 2 * 30
    let out = finished(preprocess_image(img.duplicate(), &p));
    let reds: Vec<u8> = out.as_raw().chunks(4).map(|c| c[0]).collect();
    // mean of eight 162s and one 252 is 172
    assert_eq!(reds, vec![0, 0, 0, 0, 255, 0, 0, 0, 0]);
    p.binarization_method = BinarizationMethod::Off;
    let out = finished(preprocess_image(img, &p));
    let reds: Vec<u8> = out.as_raw().chunks(4).map(|c| c[0]).collect();
    assert_eq!(reds, vec![162, 162, 162, 162, 252, 162, 162, 162, 162]);
}

#[test]
fn the_run_stops_where_the_work_is_the_callers() {
    let levels: Vec<u8> = (0..35u8).map(|i| i.wrapping_mul(29)).collect();
    let img = image(7, 5, &levels);
    let mut p = plain();
    p.brightness = 100;
    p.gaussian_blur = 1200;
    p.binarization_method = BinarizationMethod::Otsu;
    let pending = match preprocess_image(img.duplicate(), &p) {
        Ok(Outcome::Pending(pending)) => pending,
        _ => panic!("the blur is not done here"),
    };
    assert_eq!(pending.stage, Stage::GaussianBlur(1200));
    assert_eq!(pending.image.as_raw(), img.as_raw());
    assert_eq!(
        pending.rest,
        vec![Stage::Brightness(100), Stage::Binarize(BinarizationMethod::Otsu)]
    );
    let out = finished(run_stages(pending.image, &pending.rest));
    assert!(out.as_raw().iter().all(|&s| s == 0 || s == 255));

    p.gaussian_blur = 0;
    p.remove_borders = true;
    p.correct_skew = true;
    p.bilateral_filter = true;
    let pending = match preprocess_image(img.duplicate(), &p) {
        Ok(Outcome::Pending(pending)) => pending,
        _ => panic!("the turn is not done here"),
    };
    assert_eq!(pending.stage, Stage::CorrectSkew(SkewMethod::LineBased));
    assert_eq!(pending.rest[0], Stage::BilateralFilter);
    let pending = match run_stages(pending.image, &pending.rest) {
        Ok(Outcome::Pending(pending)) => pending,
        _ => panic!("the filter is not done here"),
    };
    assert_eq!(pending.stage, Stage::BilateralFilter);
    assert_eq!(pending.rest.len(), 2);
}

#[test]
fn the_first_failing_stage_is_named() {
    let img = image(2, 2, &[1, 2, 3, 4]);
    let mut p = plain();
    p.brightness = 100;
    p.sharpness = 2000;
    p.morphology = Morphology::Erode;
    let err = preprocess_image(img.duplicate(), &p).err().unwrap();
    assert_eq!(err, StageError { stage: Stage::Sharpen(2000), cause: InvalidInput::TooSmall });
    p.sharpness = 1000;
    let err = preprocess_image(img.duplicate(), &p).err().unwrap();
    assert_eq!(
        err,
        StageError { stage: Stage::Morph(Morphology::Erode), cause: InvalidInput::TooSmall }
    );
    p.adaptive_mode = true;
    let err = preprocess(img, &p).err().unwrap();
    assert_eq!(err, StageError { stage: Stage::AssessQuality, cause: InvalidInput::TooSmall });
}

#[test]
fn operators_and_methods_that_are_off_change_nothing() {
    let levels: Vec<u8> = (0..35u8).map(|i| i.wrapping_mul(29)).collect();
    let img = image(7, 5, &levels);
    assert_eq!(apply_morphology(Morphology::Off, &img).unwrap().as_raw(), img.as_raw());
    assert_eq!(apply_binarization(BinarizationMethod::Off, &img).unwrap().as_raw(), img.as_raw());
    let small = image(1, 1, &[5]);
    assert_eq!(apply_morphology(Morphology::Off, &small).unwrap().as_raw(), small.as_raw());
    assert_eq!(
        apply_morphology(Morphology::Opening, &small).err(),
        Some(InvalidInput::TooSmall)
    );
    assert_ne!(apply_binarization(BinarizationMethod::Mean, &img).unwrap().as_raw(), img.as_raw());
}

#[test]
fn good_quality_only_adds_otsu() {
    let mut base = plain();
    base.adaptive_mode = true;
    let mut expected = plain();
    expected.binarization_method = BinarizationMethod::Otsu;
    assert_eq!(derive_adaptive_params(&good(), &base), expected);
    base.binarization_method = BinarizationMethod::Mean;
    expected.binarization_method = BinarizationMethod::Mean;
    assert_eq!(derive_adaptive_params(&good(), &base), expected);
}

#[test]
fn blur_raises_the_sharpness() {
    let mut m = good();
    let mut base = plain();
    base.sharpness = 1200;
    m.blur_score = 29_999;
    assert_eq!(derive_adaptive_params(&m, &base).sharpness, 2000);
    m.blur_score = 30_000;
    assert_eq!(derive_adaptive_params(&m, &base).sharpness, 1500);
    m.blur_score = 49_999;
    assert_eq!(derive_adaptive_params(&m, &base).sharpness, 1500);
    m.blur_score = 50_000;
    assert_eq!(derive_adaptive_params(&m, &base).sharpness, 1200);
    m.blur_score = 0;
    assert_eq!(derive_adaptive_params(&m, &base).sharpness, 2000);
}

#[test]
fn low_contrast_raises_the_contrast() {
    let mut m = good();
    let base = plain();
    m.contrast_score = 39_999;
    let p = derive_adaptive_params(&m, &base);
    assert!(p.use_clahe);
    assert_eq!(p.contrast, 1500);
    m.contrast_score = 40_000;
    let p = derive_adaptive_params(&m, &base);
    assert!(!p.use_clahe);
    assert_eq!(p.contrast, 1300);
    m.contrast_score = 59_999;
    assert_eq!(derive_adaptive_params(&m, &base).contrast, 1300);
    m.contrast_score = 60_000;
    let p = derive_adaptive_params(&m, &base);
    assert!(!p.use_clahe);
    assert_eq!(p.contrast, 1000);
    let mut on = plain();
    on.use_clahe = true;
    assert!(derive_adaptive_params(&m, &on).use_clahe);
}

#[test]
fn noise_switches_the_filters_on() {
    let mut m = good();
    let base = plain();
    m.noise_level = 20_001;
    let p = derive_adaptive_params(&m, &base);
    assert!(p.bilateral_filter);
    assert_eq!(p.morphology, Morphology::Opening);
    assert_eq!(p.gaussian_blur, 0);
    m.noise_level = 20_000;
    let p = derive_adaptive_params(&m, &base);
    assert!(!p.bilateral_filter);
    assert_eq!(p.morphology, Morphology::Off);
    assert_eq!(p.gaussian_blur, 1000);
    m.noise_level = 12_001;
    assert_eq!(derive_adaptive_params(&m, &base).gaussian_blur, 1000);
    m.noise_level = 12_000;
    let p = derive_adaptive_params(&m, &base);
    assert_eq!(p.gaussian_blur, 0);
    assert!(!p.bilateral_filter);
}

#[test]
fn brightness_is_shifted_towards_the_middle() {
    let mut m = good();
    let mut base = plain();
    base.brightness = 300;
    m.brightness_level = 79_999;
    assert_eq!(derive_adaptive_params(&m, &base).brightness, 500);
    m.brightness_level = 80_000;
    assert_eq!(derive_adaptive_params(&m, &base).brightness, 300);
    m.brightness_level = 200_000;
    assert_eq!(derive_adaptive_params(&m, &base).brightness, 300);
    m.brightness_level = 200_001;
    assert_eq!(derive_adaptive_params(&m, &base).brightness, 200);
    base.brightness = 1000;
    m.brightness_level = 0;
    assert_eq!(derive_adaptive_params(&m, &base).brightness, 1200);
    base.brightness = -1000;
    m.brightness_level = 255_000;
    assert_eq!(derive_adaptive_params(&m, &base).brightness, -1100);
}

#[test]
fn uneven_light_calls_for_sauvola() {
    let mut m = good();
    let mut base = plain();
    for level in [0, 99_999, 180_001, 255_000] {
        m.brightness_level = level;
        base.binarization_method = BinarizationMethod::Off;
        assert_eq!(derive_adaptive_params(&m, &base).binarization_method, BinarizationMethod::Off);
        for method in [
            BinarizationMethod::Adaptive,
            BinarizationMethod::Otsu,
            BinarizationMethod::Mean,
            BinarizationMethod::Sauvola,
        ] {
            base.binarization_method = method;
            assert_eq!(
                derive_adaptive_params(&m, &base).binarization_method,
                BinarizationMethod::Sauvola
            );
        }
    }
    for level in [100_000, 128_000, 180_000] {
        m.brightness_level = level;
        base.binarization_method = BinarizationMethod::Off;
        assert_eq!(derive_adaptive_params(&m, &base).binarization_method, BinarizationMethod::Otsu);
        base.binarization_method = BinarizationMethod::Adaptive;
        assert_eq!(
            derive_adaptive_params(&m, &base).binarization_method,
            BinarizationMethod::Adaptive
        );
    }
}

#[test]
fn fitted_parameters_never_ask_for_fitting_again() {
    let mut base = plain();
    base.adaptive_mode = true;
    base.correct_skew = true;
    base.skew_method = SkewMethod::Projection;
    base.remove_borders = true;
    for blur in [0, 40_000, 90_000] {
        for noise in [0, 15_000, 50_000] {
            for brightness in [10_000, 128_000, 250_000] {
                let m = ImageQualityMetrics {
                    blur_score: blur,
                    contrast_score: blur,
                    noise_level: noise,
                    brightness_level: brightness,
                };
                let p = derive_adaptive_params(&m, &base);
                assert!(!p.adaptive_mode);
                assert!(p.correct_skew);
                assert!(p.remove_borders);
                assert_eq!(p.skew_method, SkewMethod::Projection);
            }
        }
    }
}

#[test]
fn an_adaptive_run_fits_the_parameters_to_the_image() {
    // a flat mid-gray image: no sharpness, no contrast, no noise, even light
    let img = image(10, 10, &[128; 100]);
    let mut base = plain();
    base.adaptive_mode = true;
    // contrast 1.5 keeps 128, sharpening keeps a flat image, equalizing makes
    // it white, and Otsu's method keeps it white
    let out = finished(adaptive_preprocess(img.duplicate(), &base));
    assert_eq!(out.width(), 10);
    assert_eq!(out.height(), 10);
    assert!(out.as_raw().iter().all(|&s| s == 255));
    let same = finished(preprocess(img.duplicate(), &base));
    assert_eq!(same.as_raw(), out.as_raw());
    base.adaptive_mode = false;
    assert_eq!(finished(preprocess(img.duplicate(), &base)).as_raw(), img.as_raw());
    // a flat dark image is brightened by 0.2 and left without binarization
    let dark = image(10, 10, &[40; 100]);
    let mut quiet = plain();
    quiet.use_clahe = false;
    let pending_free = finished(adaptive_preprocess(dark, &quiet));
    // brightness: 40 + 51 = 91; contrast 1.5: 72; sharpening keeps; equalizing: 255
    assert!(pending_free.as_raw().iter().all(|&s| s == 255));
}
