use pv::bands::{
    correction_row_bands_fit, correction_table_row_bands, insert_fallback_row_bands, result_row_bands,
    row_bands_fit,
};
use pv::canvas::{
    blend_row, dark_line_rows, detect_candidate_row_lines, detect_correction_table_lines,
    draw_bitmap_text, fill_rect, highlight_image_band, official_highlight, put_pixel, Canvas,
};
use pv::labels::{draw_correction_error_label, value_label_layout};
use pv::problems::HighlightRows;
use pv::report_images::{highlight_result_table, mark_correction_issues, vote_ids_in_text_order};
use pv::votes::VoteValues;

fn canvas(width: u32, height: u32, fill: [u8; 4]) -> Canvas {
    let mut pixels = Vec::new();
    for _ in 0..(width * height) {
        pixels.extend_from_slice(&fill);
    }
    Canvas { width, height, pixels }
}

fn pixel(c: &Canvas, x: u32, y: u32) -> [u8; 4] {
    let i = ((y * c.width + x) * 4) as usize;
    [c.pixels[i], c.pixels[i + 1], c.pixels[i + 2], c.pixels[i + 3]]
}

fn strings(values: &[&str]) -> Vec<String> {
    values.iter().map(|v| v.to_string()).collect()
}

#[test]
fn result_bands_follow_detected_lines() {
    let lines: Vec<u32> = (0..21).map(|i| 100 + 10 * i).collect();
    let bands = result_row_bands(&lines, 1000, 124, 32);
    assert_eq!(bands.len(), 24);
    assert_eq!(bands[0], (98, 112));
    assert_eq!(bands[19], (288, 302));
    assert_eq!(bands[20], (308, 322));
    assert_eq!(bands[21], (318, 332));
    assert_eq!(bands[22], (328, 342));
    assert_eq!(bands[23], (348, 362));
}

#[test]
fn result_bands_fall_back_to_the_usual_rows() {
    let bands = result_row_bands(&[10, 20], 1000, 124, 32);
    assert_eq!(bands.len(), 24);
    assert_eq!(bands[0], (121, 159));
    assert_eq!(bands[19], (729, 767));
    assert_eq!(bands[20], (793, 831));
    assert_eq!(bands[21], (825, 863));
    assert_eq!(bands[22], (857, 895));
    assert_eq!(bands[23], (921, 959));
    let mut extra = vec![(1, 2)];
    insert_fallback_row_bands(&mut extra, 1000, 124, 32);
    assert_eq!(extra.len(), 25);
    assert_eq!(extra[1], (121, 159));
    // Bands are kept within the image.
    let clipped = result_row_bands(&[], 800, 124, 32);
    assert_eq!(clipped[23], (800, 800));
}

#[test]
fn correction_bands_use_lines_or_the_usual_rows() {
    assert_eq!(
        correction_table_row_bands(&[50, 80, 120], 2, 1000, 0, 0),
        vec![(47, 83), (76, 124)]
    );
    assert_eq!(
        correction_table_row_bands(&[10], 2, 500, 100, 0),
        vec![(98, 103), (99, 104)]
    );
}

#[test]
fn fills_and_sets_pixels() {
    let mut c = canvas(4, 3, [0, 0, 0, 0]);
    fill_rect(&mut c, 1, 1, 3, 5, [10, 20, 30]);
    assert_eq!(pixel(&c, 1, 1), [10, 20, 30, 255]);
    assert_eq!(pixel(&c, 2, 2), [10, 20, 30, 255]);
    assert_eq!(pixel(&c, 0, 1), [0, 0, 0, 0]);
    assert_eq!(pixel(&c, 3, 2), [0, 0, 0, 0]);
    assert_eq!(pixel(&c, 1, 0), [0, 0, 0, 0]);
    put_pixel(&mut c, 3, 0, [1, 2, 3, 4]);
    assert_eq!(pixel(&c, 3, 0), [1, 2, 3, 4]);
}

#[test]
fn draws_bitmap_text() {
    let mut c = canvas(20, 10, [255, 255, 255, 255]);
    draw_bitmap_text(&mut c, " 1", 0, 0, 1, [9, 8, 7]);
    // The glyph of `1` starts four pixels right, after the space.
    assert_eq!(pixel(&c, 6, 0), [9, 8, 7, 255]);
    assert_eq!(pixel(&c, 5, 1), [9, 8, 7, 255]);
    assert_eq!(pixel(&c, 6, 1), [9, 8, 7, 255]);
    assert_eq!(pixel(&c, 7, 6), [9, 8, 7, 255]);
    assert_eq!(pixel(&c, 5, 0), [255, 255, 255, 255]);
    assert_eq!(pixel(&c, 2, 0), [255, 255, 255, 255]);
    let mut big = canvas(20, 20, [0, 0, 0, 255]);
    draw_bitmap_text(&mut big, "-", 1, 1, 2, [50, 60, 70]);
    // The bar of `-` is row 3 of the glyph, two pixels high at scale 2.
    assert_eq!(pixel(&big, 1, 7), [50, 60, 70, 255]);
    assert_eq!(pixel(&big, 10, 8), [50, 60, 70, 255]);
    assert_eq!(pixel(&big, 1, 6), [0, 0, 0, 255]);
    assert_eq!(pixel(&big, 11, 7), [0, 0, 0, 255]);
}

#[test]
fn blends_and_highlights_bands() {
    let mut c = canvas(2, 2, [100, 200, 0, 77]);
    blend_row(&mut c, 1, [200, 0, 255], 51);
    assert_eq!(pixel(&c, 0, 1), [120, 160, 51, 77]);
    assert_eq!(pixel(&c, 0, 0), [100, 200, 0, 77]);

    let mut band = canvas(1, 10, [0, 0, 0, 255]);
    highlight_image_band(&mut band, 4, 6, official_highlight());
    assert_eq!(pixel(&band, 0, 0), [0, 0, 0, 255]);
    assert_eq!(pixel(&band, 0, 2), [155, 0, 0, 255]);
    assert_eq!(pixel(&band, 0, 4), [207, 5, 0, 255]);
    assert_eq!(pixel(&band, 0, 7), [155, 0, 0, 255]);
    assert_eq!(pixel(&band, 0, 8), [0, 0, 0, 255]);
}

#[test]
fn finds_dark_ruling_lines() {
    let mut c = canvas(3, 4, [255, 255, 255, 255]);
    for x in 0..3 {
        put_pixel(&mut c, x, 1, [0, 0, 0, 255]);
    }
    put_pixel(&mut c, 1, 2, [100, 100, 100, 255]);
    assert_eq!(dark_line_rows(&c, 0, 3, 0, 4, 150, 2), vec![1]);
    assert_eq!(dark_line_rows(&c, 0, 3, 0, 4, 150, 1), vec![1, 2]);
    assert_eq!(detect_candidate_row_lines(&c, 0, 3, 0, 4, 1), vec![1]);
    assert_eq!(detect_correction_table_lines(&c, 0, 3, 0, 4, 3), vec![1]);
    assert_eq!(dark_line_rows(&c, 2, 2, 0, 4, 150, 0), vec![0, 1, 2, 3]);
}

#[test]
fn lays_out_value_labels() {
    let mut bands = vec![(0u32, 0u32); 24];
    bands[1] = (200, 240);
    let mut ocr = VoteValues::new();
    ocr.insert("E.2", 7);
    let mut official = VoteValues::new();
    official.insert("E.2", 12);
    let ids = strings(&["E.2", "Z"]);
    let layout = value_label_layout(1000, 1000, &bands, &ids, &ocr, &official, 35, 80);
    let view: Vec<(String, u32, u32, u32, [u8; 3])> = layout
        .iter()
        .map(|p| (p.text.clone(), p.x, p.y, p.scale, p.color))
        .collect();
    assert_eq!(
        view,
        vec![
            ("OCR".to_owned(), 684, 143, 3, [0, 80, 180]),
            ("OFFICIAL".to_owned(), 819, 143, 3, [180, 0, 0]),
            ("(CORRECTED)".to_owned(), 765, 167, 3, [180, 0, 0]),
            ("7".to_owned(), 710, 203, 5, [0, 80, 180]),
            ("12".to_owned(), 905, 203, 5, [180, 0, 0]),
        ]
    );
    let none = value_label_layout(1000, 1000, &bands, &strings(&["X"]), &ocr, &official, 35, 80);
    assert!(none.is_empty());
    let missing = value_label_layout(1000, 1000, &bands, &strings(&["E.3"]), &ocr, &official, 35, 80);
    assert_eq!(missing[3].text, "-");
}

#[test]
fn writes_error_label_in_the_band() {
    let mut c = canvas(640, 150, [255, 255, 255, 255]);
    draw_correction_error_label(&mut c, 100, 140, 38);
    // `E` starts with a full top row of cells, 4 pixels square, at (486, 106).
    assert_eq!(pixel(&c, 486, 106), [160, 0, 160, 255]);
    assert_eq!(pixel(&c, 505, 109), [160, 0, 160, 255]);
    assert_eq!(pixel(&c, 485, 106), [255, 255, 255, 255]);
    assert_eq!(pixel(&c, 486, 105), [255, 255, 255, 255]);
}

#[test]
fn orders_identifiers_as_text() {
    let ids = strings(&["E.2", "H", "E", "E.10", "X", "E.1"]);
    assert_eq!(vote_ids_in_text_order(&ids), strings(&["E", "E.1", "E.10", "E.2", "H"]));
}

#[test]
fn marks_up_results_and_correction_tables() {
    let mut bands = vec![(0u32, 0u32); 24];
    bands[0] = (20, 30);
    bands[2] = (50, 60);
    let rows = HighlightRows { official: strings(&["E.1"]), internal: strings(&["E.3"]) };
    let mut c = canvas(400, 400, [0, 0, 0, 255]);
    let ocr = VoteValues::new();
    let official = VoteValues::new();
    highlight_result_table(&mut c, &bands, &rows, &ocr, &official, 14, 32);
    // The internal row is blended with blue, the official one with yellow.
    assert_eq!(pixel(&c, 0, 55)[2], 72);
    assert_eq!(pixel(&c, 0, 25)[0], 72);
    assert_eq!(pixel(&c, 0, 100), [0, 0, 0, 255]);

    let mut table = canvas(640, 200, [255, 255, 255, 255]);
    let correction_bands = vec![(10, 40), (100, 140)];
    mark_correction_issues(
        &mut table,
        &correction_bands,
        &strings(&["E.1", "E.4"]),
        &strings(&["E.4", "E.9"]),
        38,
    );
    assert_eq!(pixel(&table, 486, 106), [160, 0, 160, 255]);
    assert_eq!(pixel(&table, 0, 20), [255, 255, 255, 255]);
    assert_ne!(pixel(&table, 0, 120), [255, 255, 255, 255]);
}

#[test]
fn checks_that_row_bands_fit() {
    assert!(row_bands_fit(&[10, 20], 124, 32));
    assert!(!row_bands_fit(&[10, 20], u32::MAX - 100, 32));
    let lines: Vec<u32> = (0..21).map(|i| 100 + 30 * i).collect();
    assert!(row_bands_fit(&lines, 0, 0));
    let high: Vec<u32> = (0..21).map(|i| u32::MAX - 700 + 30 * i).collect();
    assert!(!row_bands_fit(&high, 0, 0));
    assert!(correction_row_bands_fit(&[50, 80, 120], 2, 0, 0));
    assert!(correction_row_bands_fit(&[10], 0, u32::MAX, 5));
    assert!(!correction_row_bands_fit(&[10], 3, u32::MAX - 10, 5));
    assert!(correction_row_bands_fit(&[10], 3, 100, 5));
}

#[test]
fn fallback_bands_come_in_row_order() {
    let bands = result_row_bands(&[], 1000, 124, 32);
    assert_eq!(bands.len(), 24);
    for pair in bands.windows(2) {
        assert!(pair[0].0 <= pair[1].0);
    }
    for band in &bands {
        assert!(band.0 <= band.1 && band.1 <= 1000);
    }
}
