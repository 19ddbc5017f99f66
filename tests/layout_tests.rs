use md_pdf_export::layout::{
    image_scale_exec, image_size_exec, DrawOp, FontKind, Layout, CONTENT_WIDTH, MARGIN, MAX_IMAGE_HEIGHT, TOP,
};
use md_pdf_export::wrap::{split_words, wrap_text};

fn chars(s: &str) -> Vec<char> {
    s.chars().collect()
}

fn text_of(v: &[char]) -> String {
    v.iter().collect()
}

fn texts(ops: &[DrawOp]) -> Vec<String> {
    ops.iter()
        .filter_map(|op| match op {
            DrawOp::Text { text, .. } => Some(text_of(text)),
            DrawOp::Image { .. } => None,
        })
        .collect()
}

#[test]
fn wrap_keeps_every_word_in_order() {
    let input = "  the quick brown fox\tjumps over\nthe lazy dog again and again  ";
    let lines = wrap_text(&chars(input), 279_400, 3_000_000);
    let joined: Vec<String> = lines
        .iter()
        .flat_map(|l| text_of(l).split_whitespace().map(|w| w.to_string()).collect::<Vec<_>>())
        .collect();
    let expected: Vec<String> = input.split_whitespace().map(|w| w.to_string()).collect();
    assert_eq!(joined, expected);
    assert!(lines.len() > 1);
}

#[test]
fn wrap_lines_fit_unless_single_word() {
    let size: u64 = 279_400;
    let max: u64 = 2_000_000;
    let input = "a bb ccc dddd supercalifragilisticexpialidocious ee f";
    let lines = wrap_text(&chars(input), size, max);
    for l in &lines {
        let n = l.len() as u128;
        let fits = n * size as u128 * 13 <= max as u128 * 25;
        let single = !l.contains(&' ');
        assert!(fits || single);
    }
    assert!(lines.iter().any(|l| text_of(l) == "supercalifragilisticexpialidocious"));
}

#[test]
fn wrap_empty_text_gives_one_empty_line() {
    let lines = wrap_text(&chars("   \n "), 279_400, CONTENT_WIDTH);
    assert_eq!(lines.len(), 1);
    assert!(lines[0].is_empty());
}

#[test]
fn wrap_exact_capacity() {
    // 13 * 10 / 25 per unit: size 10, width 26 gives a capacity of 5 characters.
    let lines = wrap_text(&chars("ab cd ef"), 10, 26);
    let got: Vec<String> = lines.iter().map(|l| text_of(l)).collect();
    assert_eq!(got, vec!["ab cd".to_string(), "ef".to_string()]);
}

#[test]
fn split_words_on_unicode_space() {
    let words = split_words(&chars("a\u{3000}b  c"));
    let got: Vec<String> = words.iter().map(|w| text_of(w)).collect();
    assert_eq!(got, vec!["a", "b", "c"]);
}

#[test]
fn ensure_space_twice_starts_one_page() {
    let mut layout = Layout::new();
    layout.cursor = MARGIN + 10;
    layout.ensure_space(500_000);
    assert_eq!(layout.page_count(), 2);
    assert_eq!(layout.cursor, TOP);
    layout.ensure_space(500_000);
    assert_eq!(layout.page_count(), 2);
    assert_eq!(layout.cursor, TOP);
}

#[test]
fn ensure_space_with_room_keeps_page() {
    let mut layout = Layout::new();
    layout.ensure_space(1_000_000);
    assert_eq!(layout.page_count(), 1);
    assert_eq!(layout.cursor, TOP);
}

#[test]
fn long_paragraph_runs_onto_next_page() {
    let mut layout = Layout::new();
    layout.cursor = MARGIN + 1_000_000;
    let words: Vec<String> = (0..200).map(|i| format!("word{}", i)).collect();
    let text = words.join(" ");
    let expected = wrap_text(&chars(&text), 279_400, CONTENT_WIDTH);
    layout.paragraph(&chars(&text));
    assert!(layout.page_count() >= 2);
    let drawn = texts(&layout.ops);
    let wanted: Vec<String> = expected.iter().map(|l| text_of(l)).collect();
    assert_eq!(drawn, wanted);
    let all: Vec<String> = drawn
        .iter()
        .flat_map(|l| l.split(' ').map(|w| w.to_string()).collect::<Vec<_>>())
        .collect();
    assert_eq!(all, words);
    match &layout.ops[0] {
        DrawOp::Text { page, .. } => assert_eq!(*page, 0),
        _ => panic!("text expected"),
    }
    match layout.ops.last().unwrap() {
        DrawOp::Text { page, .. } => assert_eq!(*page, 1),
        _ => panic!("text expected"),
    }
}

#[test]
fn paragraph_line_positions() {
    let mut layout = Layout::new();
    layout.paragraph(&chars("Hello world"));
    match &layout.ops[0] {
        DrawOp::Text { page, x, y, font, size, text } => {
            assert_eq!((*page, *x, *y, *font, *size), (0, MARGIN, TOP, FontKind::Regular, 279_400));
            assert_eq!(text_of(text), "Hello world");
        }
        _ => panic!("text expected"),
    }
    // one line of 11 pt (13.75 pt high) and a 6 pt gap
    assert_eq!(layout.cursor, TOP - 349_250 - 152_400);
}

#[test]
fn heading_sizes_by_level() {
    for (level, size) in [(1u32, 609_600u64), (2, 457_200), (3, 355_600), (4, 304_800), (6, 304_800)] {
        let mut layout = Layout::new();
        layout.heading(level, &chars("Title"));
        match &layout.ops[0] {
            DrawOp::Text { size: s, font, .. } => {
                assert_eq!(*s, size);
                assert_eq!(*font, FontKind::Bold);
            }
            _ => panic!("text expected"),
        }
    }
}

#[test]
fn wide_image_is_scaled_to_content_width() {
    let (w, h) = image_size_exec(1000, 500);
    assert_eq!(w, CONTENT_WIDTH);
    assert_eq!(h, 6_480_000);
    // aspect ratio 2:1 kept
    assert_eq!(w, 2 * h);
}

#[test]
fn tall_image_is_scaled_to_largest_height() {
    let (w, h) = image_size_exec(800, 2000);
    assert_eq!(h, MAX_IMAGE_HEIGHT);
    assert_eq!(w, 3_456_000);
    let ratio = w as f64 / h as f64;
    assert!((ratio - 0.4).abs() < 1e-6);
}

#[test]
fn small_image_keeps_its_size() {
    let (w, h) = image_size_exec(100, 50);
    assert_eq!((w, h), (1_905_000, 952_500));
}

#[test]
fn image_is_drawn_below_cursor() {
    let mut layout = Layout::new();
    layout.image(100, 50);
    match &layout.ops[0] {
        DrawOp::Image { page, x, y, width, height, scale_num, scale_den } => {
            assert_eq!((*page, *x, *width, *height), (0, MARGIN, 1_905_000, 952_500));
            assert_eq!((*scale_num, *scale_den), (1, 1));
            assert_eq!(*y, TOP - 952_500);
        }
        _ => panic!("image expected"),
    }
    assert_eq!(layout.cursor, TOP - 952_500 - 152_400);
}

#[test]
fn image_that_does_not_fit_goes_to_next_page() {
    let mut layout = Layout::new();
    layout.cursor = MARGIN + 100_000;
    layout.image(100, 50);
    assert_eq!(layout.page_count(), 2);
    match &layout.ops[0] {
        DrawOp::Image { page, y, .. } => {
            assert_eq!(*page, 1);
            assert_eq!(*y, TOP - 952_500);
        }
        _ => panic!("image expected"),
    }
}

#[test]
fn list_draws_bullets_and_indents() {
    let mut layout = Layout::new();
    layout.list(&vec![chars("first"), chars("second")]);
    let drawn = texts(&layout.ops);
    assert_eq!(drawn, vec!["\u{2022}", "first", "\u{2022}", "second"]);
    match (&layout.ops[0], &layout.ops[1]) {
        (DrawOp::Text { x: bx, y: by, .. }, DrawOp::Text { x: tx, y: ty, .. }) => {
            assert_eq!(*bx, MARGIN);
            assert_eq!(*tx, MARGIN + 432_000);
            assert_eq!(by, ty);
        }
        _ => panic!("text expected"),
    }
}

#[test]
fn code_block_splits_long_lines() {
    let mut layout = Layout::new();
    let long: String = std::iter::repeat('x').take(200).collect();
    let text = format!("fn main() {{\r\n{}\n\n}}\n", long);
    layout.code_block(&chars(&text));
    let drawn = texts(&layout.ops);
    assert_eq!(drawn.len(), 6);
    assert_eq!(drawn[0], "fn main() {");
    assert_eq!(drawn[1].len(), 87);
    assert_eq!(drawn[2].len(), 87);
    assert_eq!(drawn[3].len(), 26);
    assert_eq!(drawn[4], "");
    assert_eq!(drawn[5], "}");
    match &layout.ops[0] {
        DrawOp::Text { x, font, .. } => {
            assert_eq!(*x, MARGIN + 288_000);
            assert_eq!(*font, FontKind::Mono);
        }
        _ => panic!("text expected"),
    }
}

#[test]
fn rule_moves_cursor_only() {
    let mut layout = Layout::new();
    layout.rule();
    assert!(layout.ops.is_empty());
    assert_eq!(layout.cursor, TOP - 203_200);
}

#[test]
fn wide_image_scale_is_content_width_over_width() {
    assert_eq!(image_scale_exec(1000, 500), (12_960_000, 19_050_000));
    assert_eq!(image_scale_exec(800, 2000), (MAX_IMAGE_HEIGHT, 38_100_000));
    assert_eq!(image_scale_exec(100, 50), (1, 1));
}

#[test]
fn narrow_tall_image_keeps_aspect_ratio() {
    let (n, d) = image_scale_exec(1, 10001);
    assert_eq!((n, d), (MAX_IMAGE_HEIGHT, 190_519_050));
    let s = n as f64 / d as f64;
    let w = 19_050.0 * s;
    let h = 190_519_050.0 * s;
    assert!((h - MAX_IMAGE_HEIGHT as f64).abs() < 1e-6);
    assert!(((w / h) - 1.0 / 10001.0).abs() < 1e-12);
    // the room taken is the exact size rounded up
    assert_eq!(image_size_exec(1, 10001), (864, MAX_IMAGE_HEIGHT));
}

#[test]
fn flat_wide_image_keeps_aspect_ratio() {
    let (n, d) = image_scale_exec(10001, 1);
    assert_eq!((n, d), (CONTENT_WIDTH, 190_519_050));
    let s = n as f64 / d as f64;
    assert!((190_519_050.0 * s - CONTENT_WIDTH as f64).abs() < 1e-6);
    assert_eq!(image_size_exec(10001, 1), (CONTENT_WIDTH, 1296));
}

#[test]
fn blank_code_line_keeps_its_height() {
    let mut with_blank = Layout::new();
    with_blank.code_block(&chars("a\n\nb"));
    let mut without = Layout::new();
    without.code_block(&chars("a\nb"));
    assert_eq!(texts(&with_blank.ops), vec!["a", "", "b"]);
    assert_eq!(without.cursor - with_blank.cursor, 241_300 * 5 / 4);
}
