use mpdf_core::benchmark::metrics::{confusion_matrix, count_non_uniform_blocks};
use mpdf_core::benchmark::profile::{
    check_profile, check_run, despeckle_level, DespeckleConfig, MethodConfig, RunShape,
};
use mpdf_core::benchmark::roi::Roi;
use mpdf_core::benchmark_fixtures::{all_categories, DeterministicRng, FixtureCategory};
use mpdf_core::binarization::sauvola::sauvola_window_for_dpi;
use mpdf_core::cleanup::{CleanupSettings, DespeckleLevel};
use mpdf_core::error::CoreError;
use mpdf_core::mask::BinaryMask;

fn roi(x: u32, y: u32, width: u32, height: u32) -> Roi {
    Roi { id: "r".to_owned(), x, y, width, height, tag: None }
}

#[test]
fn confusion_matrix_rejects_mismatched_dimensions() {
    let a = BinaryMask::new(3, 3);
    let b = BinaryMask::new(4, 3);
    assert!(matches!(
        confusion_matrix(&a, &b),
        Err(CoreError::BenchmarkDimensionMismatch(_))
    ));
}

#[test]
fn confusion_counts_cover_every_pixel() {
    let mut gt = BinaryMask::new(2, 2);
    gt.set(0, 0, true);
    gt.set(1, 0, true);
    let mut out = BinaryMask::new(2, 2);
    out.set(0, 0, true);
    out.set(0, 1, true);
    let m = confusion_matrix(&out, &gt).unwrap();
    assert_eq!(m.true_positive, 1);
    assert_eq!(m.false_positive, 1);
    assert_eq!(m.false_negative, 1);
    assert_eq!(m.true_negative, 1);
    assert_eq!(m.total(), 4);
}

#[test]
fn count_non_uniform_blocks_ignores_uniform_blocks() {
    let all_white = BinaryMask::new(16, 8);
    assert_eq!(count_non_uniform_blocks(&all_white), 0);

    let mut mixed = BinaryMask::new(16, 8);
    mixed.set(0, 0, true);
    assert_eq!(count_non_uniform_blocks(&mixed), 1);

    let mut both = BinaryMask::new(16, 8);
    both.set(0, 0, true);
    both.set(8, 0, true);
    assert_eq!(count_non_uniform_blocks(&both), 2);
}

#[test]
fn validate_accepts_a_roi_exactly_at_the_edge() {
    assert!(roi(90, 90, 10, 10).validate(100, 100).is_ok());
}

#[test]
fn validate_rejects_a_roi_that_overflows_the_page() {
    assert!(roi(95, 95, 10, 10).validate(100, 100).is_err());
}

#[test]
fn validate_rejects_zero_sized_roi() {
    assert!(roi(0, 0, 0, 5).validate(100, 100).is_err());
    assert!(roi(0, 0, 5, 0).validate(100, 100).is_err());
}

#[test]
fn validate_rejects_coordinate_overflow() {
    assert!(roi(u32::MAX, 0, 10, 10).validate(100, 100).is_err());
}

#[test]
fn crop_extracts_exactly_the_requested_pixels() {
    let mut mask = BinaryMask::new(4, 4);
    mask.set(2, 1, true);
    let region = roi(1, 1, 2, 2);
    let cropped = region.crop(&mask);
    assert_eq!((cropped.width, cropped.height), (2, 2));
    assert!(cropped.get(1, 0));
    assert!(!cropped.get(0, 0));
}

#[test]
fn window_for_dpi_is_always_odd_and_in_range() {
    for dpi in [72u16, 150, 300, 400, 600, 1200] {
        let w = sauvola_window_for_dpi(dpi);
        assert!(w % 2 == 1, "dpi={dpi} produced even window {w}");
        assert!((15..=75).contains(&w), "dpi={dpi} produced out-of-range window {w}");
    }
}

#[test]
fn window_for_dpi_rounds_and_clamps() {
    assert_eq!(sauvola_window_for_dpi(72), 15);
    assert_eq!(sauvola_window_for_dpi(300), 25);
    assert_eq!(sauvola_window_for_dpi(400), 33);
    assert_eq!(sauvola_window_for_dpi(1200), 75);
    assert_eq!(sauvola_window_for_dpi(0), 15);
    assert_eq!(sauvola_window_for_dpi(u16::MAX), 75);
}

#[test]
fn fixture_categories_have_stable_ids() {
    let ids: Vec<&str> = all_categories().into_iter().map(|c| c.id()).collect();
    assert_eq!(ids.len(), 12);
    assert_eq!(ids[0], "clean_text");
    assert_eq!(FixtureCategory::DenseApparatusLikeText.id(), "dense_apparatus_density");
    assert_eq!(FixtureCategory::PolytonicLikeDiacriticShapes.id(), "synthetic_diacritic_detail");
}

#[test]
fn rng_is_reproducible_and_never_stuck_at_zero() {
    let mut a = DeterministicRng::new(0);
    let mut b = DeterministicRng::new(0);
    assert_eq!(a.state, 1);
    let x = a.next_u64();
    assert_eq!(x, b.next_u64());
    assert_eq!(x, 1082269761);
    assert_ne!(a.next_u64(), x);
}

#[test]
fn despeckle_defaults_to_off_and_profiles_map_levels() {
    assert_eq!(DespeckleLevel::default(), DespeckleLevel::Off);
    let settings = CleanupSettings::default();
    assert_eq!(settings.despeckle, DespeckleLevel::Off);
    assert_eq!(settings.max_component_pixels, None);
    assert_eq!(despeckle_level(DespeckleConfig::Strong), DespeckleLevel::Strong);
    assert_eq!(DespeckleLevel::from(DespeckleConfig::Conservative), DespeckleLevel::Conservative);
}

fn run_shape(id: &str, method: MethodConfig) -> RunShape {
    RunShape {
        id: id.into(),
        method,
        has_threshold: method == MethodConfig::Manual,
        has_sauvola_parameter: method == MethodConfig::Sauvola,
        background_normalization: false,
        has_background_radius: false,
    }
}

fn base_runs() -> Vec<RunShape> {
    vec![
        run_shape("otsu-300", MethodConfig::Otsu),
        run_shape("sauvola-300-default", MethodConfig::Sauvola),
        run_shape("manual-300-180", MethodConfig::Manual),
    ]
}

#[test]
fn loads_a_valid_profile_with_three_runs() {
    assert!(check_profile("mpdf-benchmark-profile", "1.0", &base_runs()).is_ok());
}

#[test]
fn rejects_threshold_on_a_non_manual_method() {
    let mut run = run_shape("x", MethodConfig::Otsu);
    run.has_threshold = true;
    assert!(matches!(check_run(&run), Err(CoreError::InvalidProfile(_))));
    assert!(matches!(
        check_run(&run),
        Err(CoreError::InvalidProfile(m)) if m == "run 'x': threshold only applies to method = \"manual\""
    ));
}

#[test]
fn rejects_manual_without_a_threshold() {
    let mut run = run_shape("x", MethodConfig::Manual);
    run.has_threshold = false;
    assert!(matches!(check_run(&run), Err(CoreError::InvalidProfile(_))));
}

#[test]
fn rejects_background_radius_without_normalization() {
    let mut run = run_shape("x", MethodConfig::Otsu);
    run.has_background_radius = true;
    assert!(check_run(&run).is_err());
    run.background_normalization = true;
    assert!(check_run(&run).is_ok());
}

#[test]
fn rejects_sauvola_parameters_on_other_methods() {
    let mut run = run_shape("y", MethodConfig::Manual);
    run.has_sauvola_parameter = true;
    assert!(matches!(
        check_run(&run),
        Err(CoreError::InvalidProfile(m)) if m == "run 'y': k/window_size/dynamic_range only apply to method = \"sauvola\""
    ));
}

#[test]
fn rejects_duplicate_run_ids() {
    let mut runs = base_runs();
    runs.push(run_shape("otsu-300", MethodConfig::Otsu));
    let err = check_profile("mpdf-benchmark-profile", "1.0", &runs).unwrap_err();
    assert!(matches!(err, CoreError::InvalidProfile(m) if m == "duplicate run id 'otsu-300'"));
}

#[test]
fn rejects_wrong_schema_version() {
    let err = check_profile("mpdf-benchmark-profile", "2.0", &base_runs()).unwrap_err();
    assert!(matches!(err, CoreError::UnsupportedBenchmarkSchema(_)));
    let err = check_profile("other", "1.0", &base_runs()).unwrap_err();
    assert!(matches!(err, CoreError::UnsupportedBenchmarkSchema(m) if m == "expected schema 'mpdf-benchmark-profile', got 'other'"));
}

#[test]
fn rejects_a_profile_exceeding_the_run_limit() {
    let runs: Vec<RunShape> = (0..257).map(|i| run_shape(&format!("run-{i}"), MethodConfig::Otsu)).collect();
    let err = check_profile("mpdf-benchmark-profile", "1.0", &runs).unwrap_err();
    assert!(matches!(err, CoreError::ResourceLimitExceeded(m) if m == "profile declares 257 runs, exceeding the maximum of 256"));
    assert!(matches!(
        check_profile("mpdf-benchmark-profile", "1.0", &[]),
        Err(CoreError::InvalidProfile(m)) if m == "profile has no runs"
    ));
}
