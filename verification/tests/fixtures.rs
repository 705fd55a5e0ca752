use mpdf_core::benchmark_fixtures::{
    all_categories, box_blur, ground_truth, to_grayscale, FixtureCategory, CANVAS_HEIGHT,
    CANVAS_WIDTH,
};
use mpdf_core::binarization::histogram::histogram;
use mpdf_core::binarization::integral::integral_images;
use mpdf_core::gray::GrayPixels;
use mpdf_core::mask::BinaryMask;

fn ink(mask: &BinaryMask) -> usize {
    mask.pixels.iter().filter(|&&p| p).count()
}

#[test]
fn ground_truth_is_never_produced_by_running_the_binarization_pipeline() {
    let fixture = ground_truth(FixtureCategory::CleanText);
    assert!(fixture.ground_truth.pixels.iter().all(|&p| p || !p));
}

#[test]
fn broken_strokes_ground_truth_has_fewer_ink_pixels_than_a_solid_row() {
    let broken = ground_truth(FixtureCategory::BrokenStrokes);
    let clean = ground_truth(FixtureCategory::CleanText);
    assert!(ink(&broken.ground_truth) < ink(&clean.ground_truth));
}

#[test]
fn polytonic_and_apparatus_categories_declare_rois() {
    assert!(!ground_truth(FixtureCategory::PolytonicLikeDiacriticShapes)
        .rois
        .is_empty());
    assert!(!ground_truth(FixtureCategory::DenseApparatusLikeText)
        .rois
        .is_empty());
    assert!(ground_truth(FixtureCategory::CleanText).rois.is_empty());
}

#[test]
fn every_category_has_a_non_blank_canvas_sized_ground_truth() {
    for category in all_categories() {
        let fixture = ground_truth(category);
        assert_eq!(fixture.ground_truth.width, CANVAS_WIDTH);
        assert_eq!(fixture.ground_truth.height, CANVAS_HEIGHT);
        assert!(ink(&fixture.ground_truth) > 0, "{} is blank", category.id());
        for roi in &fixture.rois {
            assert!(roi.width > 0 && roi.height > 0, "ROI {} has zero size", roi.id);
            assert!(
                roi.x + roi.width <= CANVAS_WIDTH && roi.y + roi.height <= CANVAS_HEIGHT,
                "ROI {} out of bounds",
                roi.id
            );
        }
    }
}

#[test]
fn ground_truth_generation_is_deterministic() {
    for category in all_categories() {
        let a = ground_truth(category);
        let b = ground_truth(category);
        assert_eq!(a.ground_truth, b.ground_truth, "{}", category.id());
        assert_eq!(a.rois.len(), b.rois.len());
    }
}

#[test]
fn text_degradations_share_the_clean_ground_truth() {
    let clean = ground_truth(FixtureCategory::CleanText).ground_truth;
    for category in [
        FixtureCategory::FaintText,
        FixtureCategory::UnevenBackground,
        FixtureCategory::SaltPepperNoise,
        FixtureCategory::Blur,
        FixtureCategory::LowContrast,
    ] {
        assert_eq!(ground_truth(category).ground_truth, clean);
    }
}

#[test]
fn clean_text_block_starts_at_ten_pixels() {
    let m = ground_truth(FixtureCategory::CleanText).ground_truth;
    let at = |x: u32, y: u32| m.pixels[(y * m.width + x) as usize];
    assert!(at(10, 10));
    assert!(at(15, 19));
    assert!(!at(16, 10));
    assert!(!at(9, 10));
    assert!(at(20, 10));
    assert!(!at(10, 20));
    assert!(at(10, 28));
}

#[test]
fn broken_strokes_cut_every_other_glyph() {
    let m = ground_truth(FixtureCategory::BrokenStrokes).ground_truth;
    let at = |x: u32, y: u32| m.pixels[(y * m.width + x) as usize];
    // Glyph 0 of row 0 is cut at column 13, glyph 1 is whole.
    assert!(at(12, 12));
    assert!(!at(13, 12));
    assert!(at(14, 12));
    assert!(at(23, 12));
    // Ten rows, 18 pixels apart.
    assert!(at(10, 10 + 18 * 9));
    assert!(!at(10, 10 + 18 * 10));
}

#[test]
fn mixed_category_draws_three_rules() {
    let m = ground_truth(FixtureCategory::MixedTextAndLines).ground_truth;
    let at = |x: u32, y: u32| m.pixels[(y * m.width + x) as usize];
    for y in [30, 90, 150] {
        assert!(at(5, y));
        assert!(at(154, y));
        assert!(!at(155, y));
    }
}

#[test]
fn apparatus_regions_are_named_by_row() {
    let fixture = ground_truth(FixtureCategory::DenseApparatusLikeText);
    assert_eq!(fixture.rois.len(), 9);
    assert_eq!(fixture.rois[0].id, "apparatus-row-0");
    assert_eq!(fixture.rois[1].id, "apparatus-row-3");
    assert_eq!(fixture.rois[8].id, "apparatus-row-24");
    assert_eq!((fixture.rois[1].x, fixture.rois[1].y), (8, 30));
    assert_eq!((fixture.rois[1].width, fixture.rois[1].height), (144, 7));
    assert_eq!(fixture.rois[1].tag.as_deref(), Some("apparatus"));
}

#[test]
fn diacritic_regions_cover_each_glyph_mark() {
    let fixture = ground_truth(FixtureCategory::PolytonicLikeDiacriticShapes);
    assert_eq!(fixture.rois.len(), 63);
    let r = &fixture.rois[9 + 2];
    assert_eq!(r.id, "diacritic-1-2");
    assert_eq!((r.x, r.y, r.width, r.height), (34, 54, 4, 3));
    let r = &fixture.rois[3];
    assert_eq!(r.id, "diacritic-0-3");
    assert_eq!((r.x, r.y, r.width, r.height), (46, 10, 6, 11));
    assert_eq!(r.tag.as_deref(), Some("diacritic"));
}

#[test]
fn grayscale_rendering_maps_ink_and_paper() {
    let mut mask = BinaryMask { width: 2, height: 1, pixels: vec![true, false] };
    mask.pixels[1] = false;
    let img = to_grayscale(&mask, 20, 245);
    assert_eq!(img.pixels, vec![20, 245]);
}

#[test]
fn box_blur_averages_the_clamped_window() {
    let img = GrayPixels { width: 3, height: 1, pixels: vec![0, 30, 60] };
    let out = box_blur(&img, 1);
    assert_eq!(out.pixels, vec![15, 30, 45]);
    let img = GrayPixels { width: 1, height: 3, pixels: vec![0, 31, 60] };
    assert_eq!(box_blur(&img, 1).pixels, vec![15, 30, 45]);
    let img = GrayPixels { width: 2, height: 2, pixels: vec![0, 100, 200, 40] };
    // Row pass: [50, 50, 120, 120]; column pass: [85, 85, 85, 85].
    assert_eq!(box_blur(&img, 1).pixels, vec![85, 85, 85, 85]);
    assert_eq!(box_blur(&img, 0).pixels, img.pixels);
}

#[test]
fn integral_images_sum_any_rectangle() {
    let img = GrayPixels { width: 3, height: 2, pixels: vec![1, 2, 3, 4, 5, 6] };
    let t = integral_images(&img);
    assert_eq!(t.sum.len(), 4 * 3);
    assert_eq!(t.region_sum(&img, 0, 0, 2, 1, false), 21);
    assert_eq!(t.region_sum(&img, 1, 0, 2, 1, false), 16);
    assert_eq!(t.region_sum(&img, 1, 1, 1, 1, false), 5);
    assert_eq!(t.region_sum(&img, 0, 0, 2, 1, true), 1 + 4 + 9 + 16 + 25 + 36);
    assert_eq!(t.region_sum(&img, 2, 0, 2, 1, true), 9 + 36);
}

#[test]
fn histogram_counts_each_value() {
    let img = GrayPixels { width: 2, height: 2, pixels: vec![0, 255, 255, 7] };
    let h = histogram(&img);
    assert_eq!(h.len(), 256);
    assert_eq!((h[0], h[7], h[255], h[1]), (1, 1, 2, 0));
}
