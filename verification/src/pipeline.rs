//! The chain of stages and the choice of its parameters.
//!
//! The stages always run in one order: border removal, skew correction,
//! noise reduction, brightness, contrast, sharpness, contrast enhancement,
//! morphology, binarization. A stage that its parameter switches off is left
//! out. Turning and blurring an image is not done here: where the chain
//! comes to such a stage it stops and hands the image, the stage and the
//! remaining stages to the caller, who does the work and lets the chain run
//! on.

use vstd::prelude::*;
use crate::binarization::{adaptive_result, mean_binarized, otsu_binarized, sauvola_binarized};
use crate::binarization::{apply_adaptive_threshold, apply_mean_threshold, apply_otsu_threshold};
use crate::binarization::apply_sauvola_threshold;
use crate::binarization::{lemma_mean_idempotent, lemma_otsu_idempotent, lemma_sauvola_idempotent};
use crate::buffer::gray_rgb;
use crate::borders::{borders_removed, remove_borders};
use crate::buffer::{view_of, ImageView, PixelBuffer};
use crate::enhance::{apply_clahe, equalized};
use crate::error::InvalidInput;
use crate::morphology::{apply_closing, apply_dilation, apply_erosion, apply_opening};
use crate::morphology::{closing_result, dilation_result, erosion_result, opening_result};
use crate::quality::{assess_image_quality, quality_result, ImageQualityMetrics};
use crate::tone::{adjust_brightness, adjust_contrast, adjust_sharpness};
use crate::tone::{brightened, contrasted, sharpen_result};

verus! {

/// The ways of turning an image into black and white.
#[derive(Clone, Copy, Debug, PartialEq, Eq, Structural)]
pub enum BinarizationMethod {
    /// The image is left in its gray levels.
    Off,
    Adaptive,
    Otsu,
    Mean,
    Sauvola,
}

/// The morphological operators.
#[derive(Clone, Copy, Debug, PartialEq, Eq, Structural)]
pub enum Morphology {
    /// No operator runs.
    Off,
    Erode,
    Dilate,
    Opening,
    Closing,
}

/// The ways of finding out by how much an image is turned.
#[derive(Clone, Copy, Debug, PartialEq, Eq, Structural)]
pub enum SkewMethod {
    LineBased,
    Projection,
}

/// What a preprocessing run is asked to do. Contrast, brightness, sharpness
/// and the blur's sigma are in thousandths.
#[derive(Clone, Copy, Debug, PartialEq, Eq, Structural)]
pub struct ProcessingParams {
    /// The contrast factor; 1000 changes nothing.
    pub contrast: i32,
    /// The brightness shift, from -1000 to 1000; 0 changes nothing.
    pub brightness: i32,
    /// The sharpness factor; 1000 and less switch sharpening off.
    pub sharpness: i32,
    pub binarization_method: BinarizationMethod,
    /// Whether the histogram is equalized.
    pub use_clahe: bool,
    /// The sigma of the Gaussian blur; 0 and less switch it off.
    pub gaussian_blur: i32,
    /// Whether the bilateral filter runs; it then runs in place of the blur.
    pub bilateral_filter: bool,
    pub morphology: Morphology,
    pub correct_skew: bool,
    pub skew_method: SkewMethod,
    pub remove_borders: bool,
    /// Whether the parameters are first fitted to the image's quality.
    pub adaptive_mode: bool,
}

/// One step of a preprocessing run.
#[derive(Clone, Copy, Debug, PartialEq, Eq, Structural)]
pub enum Stage {
    /// The measurement that comes before a run in adaptive mode.
    AssessQuality,
    RemoveBorders,
    CorrectSkew(SkewMethod),
    BilateralFilter,
    GaussianBlur(i32),
    Brightness(i32),
    Contrast(i32),
    Sharpen(i32),
    Equalize,
    Morph(Morphology),
    Binarize(BinarizationMethod),
}

/// A stage that failed, and why.
#[derive(Clone, Copy, Debug, PartialEq, Eq, Structural)]
pub struct StageError {
    pub stage: Stage,
    pub cause: InvalidInput,
}

/// The method that a name stands for. A name that is not known stands for
/// no binarization.
pub open spec fn binarization_named(name: Seq<char>) -> BinarizationMethod {
    if name == "adaptive"@ {
        BinarizationMethod::Adaptive
    } else if name == "otsu"@ {
        BinarizationMethod::Otsu
    } else if name == "mean"@ {
        BinarizationMethod::Mean
    } else if name == "sauvola"@ {
        BinarizationMethod::Sauvola
    } else {
        BinarizationMethod::Off
    }
}

/// The operator that a name stands for. A name that is not known stands for
/// no operator.
pub open spec fn morphology_named(name: Seq<char>) -> Morphology {
    if name == "erode"@ {
        Morphology::Erode
    } else if name == "dilate"@ {
        Morphology::Dilate
    } else if name == "opening"@ {
        Morphology::Opening
    } else if name == "closing"@ {
        Morphology::Closing
    } else {
        Morphology::Off
    }
}

/// The skew method that a name stands for: the projection profile for
/// "projection", the search for lines for every other name.
pub open spec fn skew_method_named(name: Seq<char>) -> SkewMethod {
    if name == "projection"@ {
        SkewMethod::Projection
    } else {
        SkewMethod::LineBased
    }
}

fn same_text(a: &String, b: &str) -> (same: bool)
    ensures
        same == (a@ == b@),
{
    let other: String = b.to_owned();
    *a == other
}

/// Reads the name of a binarization method.
pub fn binarization_from_name(name: &String) -> (method: BinarizationMethod)
    ensures
        method == binarization_named(name@),
{
    if same_text(name, "adaptive") {
        BinarizationMethod::Adaptive
    } else if same_text(name, "otsu") {
        BinarizationMethod::Otsu
    } else if same_text(name, "mean") {
        BinarizationMethod::Mean
    } else if same_text(name, "sauvola") {
        BinarizationMethod::Sauvola
    } else {
        BinarizationMethod::Off
    }
}

/// Reads the name of a morphological operator.
pub fn morphology_from_name(name: &String) -> (operator: Morphology)
    ensures
        operator == morphology_named(name@),
{
    if same_text(name, "erode") {
        Morphology::Erode
    } else if same_text(name, "dilate") {
        Morphology::Dilate
    } else if same_text(name, "opening") {
        Morphology::Opening
    } else if same_text(name, "closing") {
        Morphology::Closing
    } else {
        Morphology::Off
    }
}

/// Reads the name of a skew method.
pub fn skew_method_from_name(name: &String) -> (method: SkewMethod)
    ensures
        method == skew_method_named(name@),
{
    if same_text(name, "projection") {
        SkewMethod::Projection
    } else {
        SkewMethod::LineBased
    }
}

/// A run of stages with one more at its end, or the run as it is where the
/// stage is switched off.
pub open spec fn with_stage(stages: Seq<Stage>, on: bool, stage: Stage) -> Seq<Stage> {
    if on {
        stages.push(stage)
    } else {
        stages
    }
}

/// The stages that the parameters call for, in the order in which they run.
pub open spec fn plan_of(p: ProcessingParams) -> Seq<Stage> {
    let s0 = with_stage(Seq::empty(), p.remove_borders, Stage::RemoveBorders);
    let s1 = with_stage(s0, p.correct_skew, Stage::CorrectSkew(p.skew_method));
    let s2 = with_stage(s1, p.bilateral_filter, Stage::BilateralFilter);
    let s3 = with_stage(
        s2,
        !p.bilateral_filter && p.gaussian_blur > 0,
        Stage::GaussianBlur(p.gaussian_blur),
    );
    let s4 = with_stage(s3, p.brightness != 0, Stage::Brightness(p.brightness));
    let s5 = with_stage(s4, p.contrast != 1000, Stage::Contrast(p.contrast));
    let s6 = with_stage(s5, p.sharpness > 1000, Stage::Sharpen(p.sharpness));
    let s7 = with_stage(s6, p.use_clahe, Stage::Equalize);
    let s8 = with_stage(s7, p.morphology != Morphology::Off, Stage::Morph(p.morphology));
    with_stage(
        s8,
        p.binarization_method != BinarizationMethod::Off,
        Stage::Binarize(p.binarization_method),
    )
}

/// The place of a stage in the order of the chain.
pub open spec fn stage_rank(stage: Stage) -> int {
    match stage {
        Stage::AssessQuality => 0,
        Stage::RemoveBorders => 1,
        Stage::CorrectSkew(_) => 2,
        Stage::BilateralFilter => 3,
        Stage::GaussianBlur(_) => 3,
        Stage::Brightness(_) => 4,
        Stage::Contrast(_) => 5,
        Stage::Sharpen(_) => 6,
        Stage::Equalize => 7,
        Stage::Morph(_) => 8,
        Stage::Binarize(_) => 9,
    }
}

/// The stages of a run rise in rank from first to last, and all of them lie
/// from `low` to `high`.
pub open spec fn ranked(stages: Seq<Stage>, low: int, high: int) -> bool {
    &&& forall|i: int| 0 <= i < stages.len() ==> low <= #[trigger] stage_rank(stages[i]) <= high
    &&& forall|i: int, j: int|
        0 <= i < j < stages.len() ==> stage_rank(#[trigger] stages[i]) < stage_rank(
            #[trigger] stages[j],
        )
}

/// A run of rising rank stays one when a stage of higher rank is put at its
/// end.
proof fn lemma_with_stage_ranked(stages: Seq<Stage>, on: bool, stage: Stage, low: int, high: int)
    requires
        ranked(stages, low, high),
        high < stage_rank(stage),
        low <= stage_rank(stage),
    ensures
        ranked(with_stage(stages, on, stage), low, stage_rank(stage)),
        on ==> with_stage(stages, on, stage).last() == stage,
{
    let out = with_stage(stages, on, stage);
    assert forall|i: int| 0 <= i < out.len() implies low <= #[trigger] stage_rank(out[i])
        <= stage_rank(stage) by {
        if i < stages.len() {
            assert(out[i] == stages[i]);
        }
    }
    assert forall|i: int, j: int| 0 <= i < j < out.len() implies stage_rank(#[trigger] out[i])
        < stage_rank(#[trigger] out[j]) by {
        assert(out[i] == stages[i]);
        if j < stages.len() {
            assert(out[j] == stages[j]);
        }
    }
}

/// The stages of every plan come in the fixed order of the chain, each at
/// most once, and noise is reduced by one of its two filters at most. So
/// binarization, where it is called for, is the last stage.
pub proof fn lemma_plan_in_order(p: ProcessingParams)
    ensures
        ranked(plan_of(p), 1, 9),
        p.binarization_method != BinarizationMethod::Off ==> plan_of(p).len() > 0 && plan_of(
            p,
        ).last() == Stage::Binarize(p.binarization_method),
{
    let s0 = with_stage(Seq::empty(), p.remove_borders, Stage::RemoveBorders);
    let s1 = with_stage(s0, p.correct_skew, Stage::CorrectSkew(p.skew_method));
    let s2 = with_stage(s1, p.bilateral_filter, Stage::BilateralFilter);
    let s3 = with_stage(
        s2,
        !p.bilateral_filter && p.gaussian_blur > 0,
        Stage::GaussianBlur(p.gaussian_blur),
    );
    let s4 = with_stage(s3, p.brightness != 0, Stage::Brightness(p.brightness));
    let s5 = with_stage(s4, p.contrast != 1000, Stage::Contrast(p.contrast));
    let s6 = with_stage(s5, p.sharpness > 1000, Stage::Sharpen(p.sharpness));
    let s7 = with_stage(s6, p.use_clahe, Stage::Equalize);
    let s8 = with_stage(s7, p.morphology != Morphology::Off, Stage::Morph(p.morphology));
    assert(ranked(Seq::<Stage>::empty(), 1, 0));
    lemma_with_stage_ranked(Seq::empty(), p.remove_borders, Stage::RemoveBorders, 1, 0);
    lemma_with_stage_ranked(s0, p.correct_skew, Stage::CorrectSkew(p.skew_method), 1, 1);
    if p.bilateral_filter {
        lemma_with_stage_ranked(s1, true, Stage::BilateralFilter, 1, 2);
    } else {
        lemma_with_stage_ranked(s1, p.gaussian_blur > 0, Stage::GaussianBlur(p.gaussian_blur), 1, 2);
    }
    lemma_with_stage_ranked(s3, p.brightness != 0, Stage::Brightness(p.brightness), 1, 3);
    lemma_with_stage_ranked(s4, p.contrast != 1000, Stage::Contrast(p.contrast), 1, 4);
    lemma_with_stage_ranked(s5, p.sharpness > 1000, Stage::Sharpen(p.sharpness), 1, 5);
    lemma_with_stage_ranked(s6, p.use_clahe, Stage::Equalize, 1, 6);
    lemma_with_stage_ranked(s7, p.morphology != Morphology::Off, Stage::Morph(p.morphology), 1, 7);
    lemma_with_stage_ranked(
        s8,
        p.binarization_method != BinarizationMethod::Off,
        Stage::Binarize(p.binarization_method),
        1,
        8,
    );
}

/// The stages that the parameters call for, in the order in which they run.
pub fn stage_plan(p: &ProcessingParams) -> (plan: Vec<Stage>)
    ensures
        plan@ == plan_of(*p),
{
    let mut plan: Vec<Stage> = Vec::new();
    assert(plan@ =~= Seq::<Stage>::empty());
    if p.remove_borders {
        plan.push(Stage::RemoveBorders);
    }
    if p.correct_skew {
        plan.push(Stage::CorrectSkew(p.skew_method));
    }
    if p.bilateral_filter {
        plan.push(Stage::BilateralFilter);
    } else if p.gaussian_blur > 0 {
        plan.push(Stage::GaussianBlur(p.gaussian_blur));
    }
    if p.brightness != 0 {
        plan.push(Stage::Brightness(p.brightness));
    }
    if p.contrast != 1000 {
        plan.push(Stage::Contrast(p.contrast));
    }
    if p.sharpness > 1000 {
        plan.push(Stage::Sharpen(p.sharpness));
    }
    if p.use_clahe {
        plan.push(Stage::Equalize);
    }
    match p.morphology {
        Morphology::Off => {},
        _ => {
            plan.push(Stage::Morph(p.morphology));
        },
    }
    match p.binarization_method {
        BinarizationMethod::Off => {},
        _ => {
            plan.push(Stage::Binarize(p.binarization_method));
        },
    }
    plan
}

/// Whether a stage is work that the caller does: turning the image, or
/// blurring it.
pub open spec fn needs_caller(stage: Stage) -> bool {
    match stage {
        Stage::CorrectSkew(_) => true,
        Stage::BilateralFilter => true,
        Stage::GaussianBlur(_) => true,
        _ => false,
    }
}

/// What a morphological operator makes of an image.
pub open spec fn morphology_result(operator: Morphology, v: ImageView) -> Result<
    ImageView,
    InvalidInput,
> {
    match operator {
        Morphology::Off => Ok(v),
        Morphology::Erode => erosion_result(v),
        Morphology::Dilate => dilation_result(v),
        Morphology::Opening => opening_result(v),
        Morphology::Closing => closing_result(v),
    }
}

/// What a binarization method makes of an image.
pub open spec fn binarization_result(method: BinarizationMethod, v: ImageView) -> Result<
    ImageView,
    InvalidInput,
> {
    match method {
        BinarizationMethod::Off => Ok(v),
        BinarizationMethod::Adaptive => adaptive_result(v),
        BinarizationMethod::Otsu => Ok(otsu_binarized(v)),
        BinarizationMethod::Mean => Ok(mean_binarized(v)),
        BinarizationMethod::Sauvola => Ok(sauvola_binarized(v)),
    }
}

/// What a stage that is done here makes of an image. The measurement of
/// quality passes on the image that it could measure.
pub open spec fn stage_result(stage: Stage, v: ImageView) -> Result<ImageView, InvalidInput> {
    match stage {
        Stage::AssessQuality => match quality_result(v.luma()) {
            Ok(_) => Ok(v),
            Err(cause) => Err(cause),
        },
        Stage::RemoveBorders => Ok(borders_removed(v)),
        Stage::Brightness(shift) => Ok(brightened(v, shift as int)),
        Stage::Contrast(factor) => Ok(contrasted(v, factor as int)),
        Stage::Sharpen(factor) => sharpen_result(v, factor as int),
        Stage::Equalize => Ok(equalized(v)),
        Stage::Morph(operator) => morphology_result(operator, v),
        Stage::Binarize(method) => binarization_result(method, v),
        _ => Ok(v),
    }
}

/// Applies a morphological operator.
pub fn apply_morphology(operator: Morphology, img: &PixelBuffer) -> (res: Result<
    PixelBuffer,
    InvalidInput,
>)
    ensures
        view_of(res) == morphology_result(operator, img@),
{
    match operator {
        Morphology::Off => Ok(img.duplicate()),
        Morphology::Erode => apply_erosion(img),
        Morphology::Dilate => apply_dilation(img),
        Morphology::Opening => apply_opening(img),
        Morphology::Closing => apply_closing(img),
    }
}

/// Applies a binarization method.
pub fn apply_binarization(method: BinarizationMethod, img: &PixelBuffer) -> (res: Result<
    PixelBuffer,
    InvalidInput,
>)
    ensures
        view_of(res) == binarization_result(method, img@),
{
    match method {
        BinarizationMethod::Off => Ok(img.duplicate()),
        BinarizationMethod::Adaptive => apply_adaptive_threshold(img),
        BinarizationMethod::Otsu => apply_otsu_threshold(img),
        BinarizationMethod::Mean => apply_mean_threshold(img),
        BinarizationMethod::Sauvola => apply_sauvola_threshold(img),
    }
}

fn run_stage(stage: Stage, img: &PixelBuffer) -> (res: Result<PixelBuffer, InvalidInput>)
    requires
        !needs_caller(stage),
    ensures
        view_of(res) == stage_result(stage, img@),
{
    match stage {
        Stage::AssessQuality => match assess_image_quality(img) {
            Ok(_) => Ok(img.duplicate()),
            Err(cause) => Err(cause),
        },
        Stage::RemoveBorders => Ok(remove_borders(img)),
        Stage::Brightness(shift) => Ok(adjust_brightness(img, shift)),
        Stage::Contrast(factor) => Ok(adjust_contrast(img, factor)),
        Stage::Sharpen(factor) => adjust_sharpness(img, factor),
        Stage::Equalize => apply_clahe(img),
        Stage::Morph(operator) => apply_morphology(operator, img),
        Stage::Binarize(method) => apply_binarization(method, img),
        _ => Ok(img.duplicate()),
    }
}

/// A run that has stopped for work of the caller's.
pub struct PendingStage {
    /// The image as the run has left it.
    pub image: PixelBuffer,
    /// The stage that the caller is to do on it.
    pub stage: Stage,
    /// The stages that remain after that.
    pub rest: Vec<Stage>,
}

/// How a run of stages has ended.
pub enum Outcome {
    /// Every stage is done; this is the result.
    Finished(PixelBuffer),
    /// The next stage is the caller's.
    Pending(PendingStage),
}

/// What the end of a run stands for.
pub enum OutcomeView {
    Finished(ImageView),
    Pending { image: ImageView, stage: Stage, rest: Seq<Stage> },
}

/// What a run's result stands for.
pub open spec fn outcome_of(res: Result<Outcome, StageError>) -> Result<OutcomeView, StageError> {
    match res {
        Ok(Outcome::Finished(image)) => Ok(OutcomeView::Finished(image@)),
        Ok(Outcome::Pending(pending)) => Ok(
            OutcomeView::Pending {
                image: pending.image@,
                stage: pending.stage,
                rest: pending.rest@,
            },
        ),
        Err(e) => Err(e),
    }
}

/// How a run of stages on an image ends: with the image that the last stage
/// gives, with the first stage that is the caller's, or with the first stage
/// that fails.
pub open spec fn run_of(v: ImageView, plan: Seq<Stage>) -> Result<OutcomeView, StageError>
    decreases plan.len(),
{
    if plan.len() == 0 {
        Ok(OutcomeView::Finished(v))
    } else if needs_caller(plan[0]) {
        Ok(OutcomeView::Pending { image: v, stage: plan[0], rest: plan.skip(1) })
    } else {
        match stage_result(plan[0], v) {
            Ok(next) => run_of(next, plan.skip(1)),
            Err(cause) => Err(StageError { stage: plan[0], cause }),
        }
    }
}

fn stages_from(plan: &Vec<Stage>, start: usize) -> (rest: Vec<Stage>)
    requires
        start <= plan@.len(),
    ensures
        rest@ == plan@.skip(start as int),
{
    let mut rest: Vec<Stage> = Vec::new();
    let mut i: usize = start;
    while i < plan.len()
        invariant
            start <= i <= plan@.len(),
            rest@.len() == i - start,
            forall|j: int| 0 <= j < rest@.len() ==> rest@[j] == plan@[start + j],
        decreases plan@.len() - i,
    {
        rest.push(plan[i]);
        i = i + 1;
    }
    assert(rest@ =~= plan@.skip(start as int));
    rest
}

/// Runs the stages in order on an image, up to the end, to the first stage
/// that is the caller's, or to the first stage that fails. After a stage of
/// its own the caller runs the remaining stages on its result with this
/// function again.
pub fn run_stages(img: PixelBuffer, plan: &Vec<Stage>) -> (res: Result<Outcome, StageError>)
    ensures
        outcome_of(res) == run_of(img@, plan@),
{
    let ghost start = img@;
    let mut current: PixelBuffer = img;
    let mut i: usize = 0;
    assert(plan@.skip(0) =~= plan@);
    while i < plan.len()
        invariant
            i <= plan@.len(),
            start == img@,
            run_of(current@, plan@.skip(i as int)) == run_of(start, plan@),
        decreases plan@.len() - i,
    {
        let stage: Stage = plan[i];
        let ghost tail = plan@.skip(i as int);
        assert(tail[0] == stage);
        assert(tail.skip(1) =~= plan@.skip(i + 1));
        let caller: bool = match stage {
            Stage::CorrectSkew(_) => true,
            Stage::BilateralFilter => true,
            Stage::GaussianBlur(_) => true,
            _ => false,
        };
        if caller {
            let rest = stages_from(plan, i + 1);
            return Ok(Outcome::Pending(PendingStage { image: current, stage, rest }));
        }
        match run_stage(stage, &current) {
            Ok(next) => {
                current = next;
            },
            Err(cause) => {
                return Err(StageError { stage, cause });
            },
        }
        i = i + 1;
    }
    Ok(Outcome::Finished(current))
}

/// Runs the chain that the parameters call for. The flag for adaptive mode
/// is not looked at.
pub fn preprocess_image(img: PixelBuffer, params: &ProcessingParams) -> (res: Result<
    Outcome,
    StageError,
>)
    ensures
        outcome_of(res) == run_of(img@, plan_of(*params)),
{
    let plan = stage_plan(params);
    run_stages(img, &plan)
}

/// The parameters fitted to the quality of an image. A blurred image is
/// sharpened, one of low contrast gets more of it, a noisy one is filtered,
/// a dark one is brightened and a bright one darkened; under uneven light a
/// binarization that is called for is done with Sauvola's method, and under
/// even light Otsu's method stands in where none is called for. The flag for
/// adaptive mode is cleared.
pub open spec fn adapted(m: ImageQualityMetrics, base: ProcessingParams) -> ProcessingParams {
    ProcessingParams {
        sharpness: if m.blur_score < 30_000 {
            2000
        } else if m.blur_score < 50_000 {
            1500
        } else {
            base.sharpness
        },
        use_clahe: m.contrast_score < 40_000 || base.use_clahe,
        contrast: if m.contrast_score < 40_000 {
            1500
        } else if m.contrast_score < 60_000 {
            1300
        } else {
            base.contrast
        },
        bilateral_filter: m.noise_level > 20_000 || base.bilateral_filter,
        morphology: if m.noise_level > 20_000 {
            Morphology::Opening
        } else {
            base.morphology
        },
        gaussian_blur: if 12_000 < m.noise_level <= 20_000 {
            1000
        } else {
            base.gaussian_blur
        },
        brightness: if m.brightness_level < 80_000 {
            (base.brightness + 200) as i32
        } else if m.brightness_level > 200_000 {
            (base.brightness - 100) as i32
        } else {
            base.brightness
        },
        binarization_method: if m.brightness_level < 100_000 || m.brightness_level > 180_000 {
            if base.binarization_method != BinarizationMethod::Off {
                BinarizationMethod::Sauvola
            } else {
                BinarizationMethod::Off
            }
        } else if base.binarization_method == BinarizationMethod::Off {
            BinarizationMethod::Otsu
        } else {
            base.binarization_method
        },
        correct_skew: base.correct_skew,
        skew_method: base.skew_method,
        remove_borders: base.remove_borders,
        adaptive_mode: false,
    }
}

/// Whether the brightness lies in its range, from -1000 to 1000.
pub open spec fn brightness_in_range(p: ProcessingParams) -> bool {
    -1000 <= p.brightness <= 1000
}

/// Fits the parameters to the quality of an image. The result never asks
/// for adaptive mode again.
pub fn derive_adaptive_params(metrics: &ImageQualityMetrics, base: &ProcessingParams) -> (out:
    ProcessingParams)
    requires
        brightness_in_range(*base),
    ensures
        out == adapted(*metrics, *base),
        !out.adaptive_mode,
{
    let mut out: ProcessingParams = *base;
    out.adaptive_mode = false;
    if metrics.blur_score < 30_000 {
        out.sharpness = 2000;
    } else if metrics.blur_score < 50_000 {
        out.sharpness = 1500;
    }
    if metrics.contrast_score < 40_000 {
        out.use_clahe = true;
        out.contrast = 1500;
    } else if metrics.contrast_score < 60_000 {
        out.contrast = 1300;
    }
    if metrics.noise_level > 20_000 {
        out.bilateral_filter = true;
        out.morphology = Morphology::Opening;
    } else if metrics.noise_level > 12_000 {
        out.gaussian_blur = 1000;
    }
    if metrics.brightness_level < 80_000 {
        out.brightness = base.brightness + 200;
    } else if metrics.brightness_level > 200_000 {
        out.brightness = base.brightness - 100;
    }
    if metrics.brightness_level < 100_000 || metrics.brightness_level > 180_000 {
        match base.binarization_method {
            BinarizationMethod::Off => {},
            _ => {
                out.binarization_method = BinarizationMethod::Sauvola;
            },
        }
    } else {
        match base.binarization_method {
            BinarizationMethod::Off => {
                out.binarization_method = BinarizationMethod::Otsu;
            },
            _ => {},
        }
    }
    out
}

/// How a run in adaptive mode ends: with the refusal of an image too small
/// to be measured, or as the chain of the fitted parameters ends.
pub open spec fn adaptive_run_of(v: ImageView, base: ProcessingParams) -> Result<
    OutcomeView,
    StageError,
> {
    match quality_result(v.luma()) {
        Ok(metrics) => run_of(v, plan_of(adapted(metrics, base))),
        Err(cause) => Err(StageError { stage: Stage::AssessQuality, cause }),
    }
}

/// Measures the quality of the image, fits the parameters to it and runs
/// their chain, which is not fitted again.
pub fn adaptive_preprocess(img: PixelBuffer, base: &ProcessingParams) -> (res: Result<
    Outcome,
    StageError,
>)
    requires
        brightness_in_range(*base),
    ensures
        outcome_of(res) == adaptive_run_of(img@, *base),
{
    match assess_image_quality(&img) {
        Ok(metrics) => {
            let params = derive_adaptive_params(&metrics, base);
            preprocess_image(img, &params)
        },
        Err(cause) => Err(StageError { stage: Stage::AssessQuality, cause }),
    }
}

/// Runs the chain in the mode that the parameters ask for: fitted to the
/// image once in adaptive mode, as given otherwise.
pub fn preprocess(img: PixelBuffer, params: &ProcessingParams) -> (res: Result<Outcome, StageError>)
    requires
        params.adaptive_mode ==> brightness_in_range(*params),
    ensures
        outcome_of(res) == (if params.adaptive_mode {
            adaptive_run_of(img@, *params)
        } else {
            run_of(img@, plan_of(*params))
        }),
{
    if params.adaptive_mode {
        adaptive_preprocess(img, params)
    } else {
        preprocess_image(img, params)
    }
}

/// Binarizing twice gives what binarizing once gives, for Otsu's method,
/// for the mean and for Sauvola's method. (The local-mean rule does not
/// have this property: see `lemma_adaptive_keeps_binary`.)
pub proof fn lemma_binarization_idempotent(method: BinarizationMethod, v: ImageView)
    requires
        v.wf(),
        method != BinarizationMethod::Adaptive,
    ensures
        binarization_result(method, v) is Ok,
        binarization_result(method, binarization_result(method, v)->Ok_0) == binarization_result(
            method,
            v,
        ),
{
    lemma_otsu_idempotent(v);
    lemma_mean_idempotent(v);
    lemma_sauvola_idempotent(v);
}

/// The chain of given parameters does not depend on the flag for adaptive
/// mode, and a run in adaptive mode, once the image is measured, is the
/// chain of parameters in which that flag is cleared: the parameters are
/// fitted once and never again.
pub proof fn lemma_adaptive_fits_once(v: ImageView, base: ProcessingParams)
    ensures
        plan_of(base) == plan_of(ProcessingParams { adaptive_mode: !base.adaptive_mode, ..base }),
        quality_result(v.luma()) matches Ok(metrics) ==> !adapted(metrics, base).adaptive_mode
            && adaptive_run_of(v, base) == run_of(v, plan_of(adapted(metrics, base))),
{
}

/// Every pixel is pure black or pure white.
pub open spec fn is_black_and_white(v: ImageView) -> bool {
    forall|i: int|
        0 <= i < v.pixels.len() ==> #[trigger] v.pixels[i] == gray_rgb(0) || v.pixels[i]
            == gray_rgb(255)
}

/// Whatever the method, a binarized image has the dimensions of the image
/// it was made from, and each of its pixels is pure black or pure white.
pub proof fn lemma_binarized_is_black_and_white(method: BinarizationMethod, v: ImageView)
    requires
        method != BinarizationMethod::Off,
    ensures
        binarization_result(method, v) matches Ok(out) ==> {
            &&& out.width == v.width
            &&& out.height == v.height
            &&& out.pixels.len() == v.pixels.len()
            &&& is_black_and_white(out)
        },
{
}

} // verus!
