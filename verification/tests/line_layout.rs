use velum_core::line_breaking::BreakType;
use velum_core::line_layout::{
    break_type_name, calculate_visual_order, get_line_count, is_rtl_char, is_white_char,
    layout_document, layout_paragraph, widest_of, LayoutOptions, LineLayoutInfo,
};

fn options(max_width: u32) -> LayoutOptions {
    LayoutOptions { max_width, bidi_enabled: true, trim_trailing: true }
}

#[test]
fn a_short_paragraph_is_one_line() {
    let text = "This is a test paragraph for layout.";
    let result = layout_paragraph(text, options(100));
    assert_eq!(result.text, text);
    assert_eq!(result.max_width, 100);
    assert!(!result.has_bidi);
    assert_eq!(
        result.lines,
        vec![LineLayoutInfo {
            line_number: 0,
            start: 0,
            end: 36,
            width: 36,
            break_type: BreakType::HardBreak,
            char_count: 36,
            is_bidi: false,
            trailing_whitespace: 0,
        }]
    );
}

#[test]
fn an_empty_paragraph_has_no_lines() {
    let result = layout_paragraph("", options(100));
    assert!(result.lines.is_empty());
    assert!(!result.has_bidi);
}

#[test]
fn a_long_paragraph_takes_several_lines() {
    let text = "This is a longer paragraph that should definitely require multiple lines to display properly within the given width constraint.";
    let result = layout_paragraph(text, options(80));
    assert_eq!(result.lines.len(), 2);
    assert_eq!(result.lines[0].line_number, 0);
    assert_eq!(result.lines[1].line_number, 1);
    assert_eq!(result.lines[0].break_type, BreakType::SoftBreak);
    assert_eq!(result.lines[0].end, result.lines[1].start);
    assert_eq!(result.lines[1].end, 127);
    assert!(result.lines[0].width <= 80);
    assert_eq!(result.lines[0].trailing_whitespace, 1);
    assert_eq!(get_line_count(text, 80), 2);
    assert_eq!(get_line_count(text, 200), 1);
    assert_eq!(get_line_count("", 80), 0);
}

#[test]
fn a_document_has_one_paragraph_more_than_terminators() {
    let text = "First paragraph.\nSecond paragraph.\nThird paragraph.";
    let result = layout_document(text, options(100));
    assert_eq!(result.paragraphs.len(), 3);
    assert_eq!(result.paragraphs[0].text, "First paragraph.");
    assert_eq!(result.paragraphs[1].text, "Second paragraph.");
    assert_eq!(result.paragraphs[2].text, "Third paragraph.");
    assert_eq!(result.total_width, 17);
    let empty = layout_document("", options(100));
    assert_eq!(empty.paragraphs.len(), 1);
    assert!(empty.paragraphs[0].lines.is_empty());
    assert_eq!(empty.total_width, 0);
    let ends_with_terminator = layout_document("a\n", options(100));
    assert_eq!(ends_with_terminator.paragraphs.len(), 2);
    assert_eq!(ends_with_terminator.paragraphs[1].text, "");
}

#[test]
fn right_to_left_text_is_found_when_asked_for() {
    let text = "abc שלום";
    let result = layout_paragraph(text, options(100));
    assert!(result.has_bidi);
    assert!(result.lines[0].is_bidi);
    let plain = layout_paragraph(
        text,
        LayoutOptions { max_width: 100, bidi_enabled: false, trim_trailing: true },
    );
    assert!(!plain.has_bidi);
    assert!(!plain.lines[0].is_bidi);
    let mixed = layout_paragraph("latin latin مرحبا", options(6));
    assert!(mixed.has_bidi);
    assert!(!mixed.lines[0].is_bidi);
    assert!(mixed.lines[2].is_bidi);
}

#[test]
fn right_to_left_ranges() {
    assert!(is_rtl_char('\u{0590}'));
    assert!(is_rtl_char('\u{05FF}'));
    assert!(is_rtl_char('\u{0600}'));
    assert!(is_rtl_char('\u{077F}'));
    assert!(is_rtl_char('\u{08A0}'));
    assert!(is_rtl_char('\u{FB50}'));
    assert!(is_rtl_char('\u{FEFF}'));
    assert!(is_rtl_char('\u{10800}'));
    assert!(is_rtl_char('\u{10FFF}'));
    assert!(!is_rtl_char('\u{058F}'));
    assert!(!is_rtl_char('\u{0700}'));
    assert!(!is_rtl_char('\u{11000}'));
    assert!(!is_rtl_char('a'));
}

#[test]
fn white_space_is_what_the_standard_library_says() {
    let mut c = 0u32;
    while c <= 0x10FFFF {
        if let Some(ch) = char::from_u32(c) {
            assert_eq!(is_white_char(ch), ch.is_whitespace());
        }
        c += 1;
    }
}

#[test]
fn trailing_white_space_is_measured_when_asked_for() {
    let result = layout_paragraph("Test   ", options(100));
    assert_eq!(result.lines[0].trailing_whitespace, 3);
    assert_eq!(result.lines[0].width, 7);
    assert_eq!(result.lines[0].char_count, 7);
    let tabbed = layout_paragraph("Test \t", options(100));
    assert_eq!(tabbed.lines[0].trailing_whitespace, 5);
    let blank = layout_paragraph("   ", options(100));
    assert_eq!(blank.lines[0].trailing_whitespace, 3);
    let untrimmed = layout_paragraph(
        "Test   ",
        LayoutOptions { max_width: 100, bidi_enabled: true, trim_trailing: false },
    );
    assert_eq!(untrimmed.lines[0].trailing_whitespace, 0);
}

#[test]
fn an_empty_line_is_placed_where_the_last_line_ended() {
    let result = layout_paragraph("ab\n\ncd", options(100));
    assert_eq!(result.lines.len(), 3);
    assert_eq!(
        result.lines[1],
        LineLayoutInfo {
            line_number: 1,
            start: 2,
            end: 2,
            width: 0,
            break_type: BreakType::HardBreak,
            char_count: 0,
            is_bidi: false,
            trailing_whitespace: 0,
        }
    );
    assert_eq!(result.lines[2].start, 4);
    assert_eq!(result.lines[2].end, 6);
    let leading = layout_paragraph("\nx", options(100));
    assert_eq!(leading.lines[0].start, 0);
    assert_eq!(leading.lines[0].end, 0);
}

#[test]
fn wide_text_stays_within_the_width() {
    let text = "这是一个测试段落，用于测试中文分行功能是否正常工作。";
    let result = layout_paragraph(text, options(50));
    assert_eq!(result.lines.len(), 2);
    for line in &result.lines {
        assert!(line.width <= 50);
    }
    assert_eq!(widest_of(&result.lines), 50);
    assert_eq!(widest_of(&vec![]), 0);
}

#[test]
fn visual_order_is_the_stored_order() {
    assert_eq!(calculate_visual_order("Hello"), vec![(0, 5)]);
    assert_eq!(calculate_visual_order("é"), vec![(0, 1)]);
    assert_eq!(calculate_visual_order("שלום עולם"), vec![(0, 9)]);
    assert!(calculate_visual_order("").is_empty());
}

#[test]
fn names_of_line_ends() {
    assert_eq!(break_type_name(BreakType::HardBreak), "HardBreak");
    assert_eq!(break_type_name(BreakType::SoftBreak), "SoftBreak");
    assert_eq!(break_type_name(BreakType::Hyphenated), "Hyphenated");
}

#[test]
fn test_basic_paragraph_layout() {
    let text = "This is a test paragraph for layout.";
    let result = layout_paragraph(text, options(100));
    let total_height = result.lines.len() as f32 * 1.2 * 14.0;

    assert!(result.lines.len() >= 1);
    assert!(total_height > 0.0);
}

#[test]
fn test_empty_paragraph() {
    let text = "";
    let result = layout_paragraph(text, options(100));

    assert!(result.lines.is_empty() || result.lines.len() == 0);
}

#[test]
fn test_multiline_paragraph() {
    let text = "This is a longer paragraph that should definitely require multiple lines to display properly within the given width constraint.";
    let result = layout_paragraph(text, options(80));

    assert!(result.lines.len() > 1);
}

#[test]
fn test_paragraph_with_newlines() {
    let text = "First paragraph.\nSecond paragraph.\nThird paragraph.";
    let result = layout_document(text, options(100));

    assert!(result.paragraphs.len() >= 3);
}

#[test]
fn test_cjk_text_layout() {
    let text = "这是一个测试段落，用于测试中文分行功能是否正常工作。";
    let result = layout_paragraph(text, options(50));

    assert!(result.lines.len() >= 1);
    for line in &result.lines {
        assert!(line.width as f32 <= 50.0 + 1.0);
    }
}

#[test]
fn test_visual_order() {
    let text = "Hello";
    let order = calculate_visual_order(text);
    assert!(!order.is_empty());
}

#[test]
fn test_line_layout_info() {
    let text = "Test line";
    let result = layout_paragraph(text, options(100));

    if let Some(line) = result.lines.first() {
        assert_eq!(line.line_number, 0);
        assert!(line.width as f32 > 0.0);
        assert!(line.char_count > 0);
    }
    assert_eq!(result.lines.len(), 1);
}

#[test]
fn test_trailing_whitespace() {
    let text = "Test   ";
    let result = layout_paragraph(text, options(100));

    if let Some(line) = result.lines.first() {
        assert!(line.trailing_whitespace as f32 >= 0.0);
    }
    assert_eq!(result.lines.len(), 1);
}

#[test]
fn test_layout_paragraph() {
    let result = layout_paragraph("Test paragraph", options(100));
    assert!(!result.lines.is_empty());
}

#[test]
fn lines_are_described_with_the_width_they_come_with() {
    let chars: Vec<char> = "ab  cd".chars().collect();
    let lines = vec![
        velum_core::line_breaking::Line {
            start: 0,
            end: 4,
            width: 900,
            break_type: BreakType::SoftBreak,
        },
        velum_core::line_breaking::Line {
            start: 4,
            end: 6,
            width: 0,
            break_type: BreakType::Hyphenated,
        },
    ];
    let (infos, has_bidi) = velum_core::line_layout::describe_lines(&chars, &lines, options(3));
    assert!(!has_bidi);
    assert_eq!(infos.len(), 2);
    assert_eq!(infos[0].width, 900);
    assert_eq!(infos[0].trailing_whitespace, 2);
    assert_eq!(infos[0].char_count, 4);
    assert_eq!(infos[1].width, 0);
    assert_eq!(infos[1].break_type, BreakType::Hyphenated);
    assert_eq!(infos[1].trailing_whitespace, 0);
}
