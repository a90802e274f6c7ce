use velum_core::line_breaking::{
    break_chars, width_of, BreakType, Line, LineBreaker, DEFAULT_MAX_WIDTH,
};

#[test]
fn test_line_breaker_creation() {
    let breaker = LineBreaker::new();
    assert!(breaker.config.max_width > 0);
    assert_eq!(breaker.config.max_width, DEFAULT_MAX_WIDTH);
}

#[test]
fn test_line_breaker_with_width() {
    let breaker = LineBreaker::with_width(100);
    assert_eq!(breaker.config.max_width, 100);
}

#[test]
fn test_calculate_text_width() {
    let mut breaker = LineBreaker::new();
    let width = breaker.calculate_text_width("hello");
    assert!(width > 0);
    assert_eq!(width, 5);
}

#[test]
fn test_break_lines() {
    let mut breaker = LineBreaker::with_width(100);
    let lines = breaker.break_lines("Hello world", None);
    assert!(!lines.is_empty());
    assert_eq!(
        lines,
        vec![Line { start: 0, end: 11, width: 11, break_type: BreakType::HardBreak }]
    );
}

#[test]
fn test_empty_text() {
    let mut breaker = LineBreaker::new();
    let lines = breaker.break_lines("", None);
    assert!(lines.is_empty());
}

#[test]
fn widths_of_characters() {
    assert_eq!(width_of('a'), 1);
    assert_eq!(width_of(' '), 1);
    assert_eq!(width_of('\t'), 4);
    assert_eq!(width_of('\n'), 0);
    assert_eq!(width_of('\u{7f}'), 0);
    assert_eq!(width_of('é'), 1);
    assert_eq!(width_of('中'), 2);
    assert_eq!(width_of('한'), 2);
    assert_eq!(width_of('Ａ'), 2);
    let mut breaker = LineBreaker::new();
    assert_eq!(breaker.calculate_text_width("a\t中\n"), 7);
    assert_eq!(breaker.calculate_text_width(""), 0);
}

#[test]
fn lines_end_after_the_last_space_that_fits() {
    let mut breaker = LineBreaker::with_width(10);
    let lines = breaker.break_lines("Hello wider world", None);
    assert_eq!(
        lines,
        vec![
            Line { start: 0, end: 6, width: 6, break_type: BreakType::SoftBreak },
            Line { start: 6, end: 12, width: 6, break_type: BreakType::SoftBreak },
            Line { start: 12, end: 17, width: 5, break_type: BreakType::HardBreak },
        ]
    );
    let lines = breaker.break_lines("Hello wide world", None);
    assert_eq!(
        lines,
        vec![
            Line { start: 0, end: 6, width: 6, break_type: BreakType::SoftBreak },
            Line { start: 6, end: 16, width: 10, break_type: BreakType::HardBreak },
        ]
    );
    assert_eq!(breaker.config.max_width, 10);
}

#[test]
fn a_word_longer_than_the_line_is_cut_where_the_width_runs_out() {
    let mut breaker = LineBreaker::with_width(4);
    let lines = breaker.break_lines("abcdefghij", None);
    assert_eq!(
        lines,
        vec![
            Line { start: 0, end: 4, width: 4, break_type: BreakType::SoftBreak },
            Line { start: 4, end: 8, width: 4, break_type: BreakType::SoftBreak },
            Line { start: 8, end: 10, width: 2, break_type: BreakType::HardBreak },
        ]
    );
}

#[test]
fn line_terminators_end_lines_and_are_left_out() {
    let mut breaker = LineBreaker::with_width(20);
    let lines = breaker.break_lines("one\n\ntwo\n", None);
    assert_eq!(
        lines,
        vec![
            Line { start: 0, end: 3, width: 3, break_type: BreakType::HardBreak },
            Line { start: 4, end: 4, width: 0, break_type: BreakType::HardBreak },
            Line { start: 5, end: 8, width: 3, break_type: BreakType::HardBreak },
        ]
    );
    assert!(lines[1].is_empty());
    assert!(!lines[0].is_empty());
}

#[test]
fn a_given_width_overrides_the_one_set() {
    let mut breaker = LineBreaker::with_width(100);
    let lines = breaker.break_lines("aaaa bbbb", Some(5));
    assert_eq!(lines.len(), 2);
    assert_eq!(lines[0].end, 5);
    assert_eq!(breaker.config.max_width, 100);
    breaker.set_max_width(3);
    assert_eq!(breaker.break_lines("aaaa bbbb", None).len(), 4);
}

#[test]
fn wide_characters_count_double() {
    let mut breaker = LineBreaker::new();
    let text = "这是一个测试段落，用于测试中文分行功能是否正常工作。";
    let lines = breaker.break_lines(text, Some(50));
    assert_eq!(lines.len(), 2);
    for line in &lines {
        assert!(line.width <= 50);
    }
    assert_eq!(lines[0].end, 25);
    assert_eq!(lines[1].width, 2);
}

#[test]
fn a_character_wider_than_the_line_stands_alone() {
    let mut breaker = LineBreaker::with_width(1);
    let lines = breaker.break_lines("a中b", None);
    assert_eq!(
        lines,
        vec![
            Line { start: 0, end: 1, width: 1, break_type: BreakType::SoftBreak },
            Line { start: 1, end: 2, width: 2, break_type: BreakType::SoftBreak },
            Line { start: 2, end: 3, width: 1, break_type: BreakType::HardBreak },
        ]
    );
    let lines = break_chars(&vec!['a', 'b'], 0);
    assert_eq!(lines.len(), 2);
    assert_eq!(lines[1], Line { start: 1, end: 2, width: 1, break_type: BreakType::SoftBreak });
}
