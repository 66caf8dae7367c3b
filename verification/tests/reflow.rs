use tui::layout::{Alignment, Constraint};
use tui::style::Style;
use tui::text::StyledGrapheme;
use tui_tree_widget::compose::{compose_mode, ComposeMode};
use tui_tree_widget::reflow::{is_blank, wrap, LineComposer, WordWrapper};

/// Each character as a grapheme of its own
fn graphemes(text: &str) -> Vec<StyledGrapheme<'_>> {
    text.char_indices()
        .map(|(at, c)| StyledGrapheme { symbol: &text[at..at + c.len_utf8()], style: Style::default() })
        .collect()
}

fn text_of(line: &[StyledGrapheme<'_>]) -> String {
    line.iter().map(|grapheme| grapheme.symbol).collect()
}

fn run_composer(trim: bool, text: &str, width: u16) -> (Vec<String>, Vec<u16>) {
    let input = text.split('\n').map(|line| (graphemes(line), Alignment::Left)).collect();
    let mut composer = WordWrapper::new(input, width, trim);
    let mut lines = vec![];
    let mut widths = vec![];
    while let Some((styled, width, _)) = composer.next_line() {
        lines.push(text_of(styled));
        widths.push(width);
    }
    (lines, widths)
}

#[test]
fn one_line_that_fits() {
    for length in 1..40 {
        let text = "a".repeat(length);
        let (lines, widths) = run_composer(true, &text, 40);
        assert_eq!(lines, [text]);
        assert_eq!(widths, [length as u16]);
    }
}

#[test]
fn short_lines_stay() {
    let text = "abcdefg\nhijklmno\npabcdefg\nhijklmn\nopabcdefghijk\nlmnopabcd\n\n\nefghijklmno";
    let (lines, _) = run_composer(true, text, 20);
    let expected: Vec<&str> = text.split('\n').collect();
    assert_eq!(lines, expected);
}

#[test]
fn a_long_word_is_broken_at_the_width() {
    let text = "abcdefghijklmnopabcdefghijklmnopabcdefghijklmnopabcdefghijklmno";
    let (lines, widths) = run_composer(true, text, 20);
    assert_eq!(lines, [&text[..20], &text[20..40], &text[40..60], &text[60..]]);
    assert_eq!(widths, [20, 20, 20, 3]);
}

#[test]
fn a_long_sentence_is_broken_between_words() {
    let text =
        "abcd efghij klmnopabcd efgh ijklmnopabcdefg hijkl mnopab c d e f g h i j k l m n o";
    let text_multi_space =
        "abcd efghij    klmnopabcd efgh     ijklmnopabcdefg hijkl mnopab c d e f g h i j k l \
        m n o";
    let expected = [
        "abcd efghij",
        "klmnopabcd efgh",
        "ijklmnopabcdefg",
        "hijkl mnopab c d e f",
        "g h i j k l m n o",
    ];
    assert_eq!(run_composer(true, text, 20).0, expected);
    assert_eq!(run_composer(true, text_multi_space, 20).0, expected);
}

#[test]
fn no_room_gives_no_line() {
    let (lines, _) = run_composer(true, "abcd efghij klmnopabcd efgh ijklmnopabcdefg hijkl mnopab ", 0);
    assert!(lines.is_empty());
}

#[test]
fn room_for_one_column() {
    let text = "abcd efghij klmnopabcd efgh ijklmnopabcdefg hijkl mnopab ";
    let (lines, _) = run_composer(true, text, 1);
    let expected: Vec<String> =
        text.chars().filter(|c| !c.is_whitespace()).map(|c| c.to_string()).collect();
    assert_eq!(lines, expected);
}

#[test]
fn symbols_wider_than_the_room_are_left_out() {
    let text = "コンピュータ上で文字を扱う場合、典型的には文字\naaaによる通信を行う場合にその両端点では、";
    let (lines, _) = run_composer(true, text, 1);
    assert_eq!(lines, ["", "a", "a", "a"]);
}

#[test]
fn words_of_mixed_length() {
    let text = "abcd efghij klmnopabcdefghijklmnopabcdefghijkl mnopab cdefghi j klmno";
    let (lines, _) = run_composer(true, text, 20);
    assert_eq!(
        lines,
        ["abcd efghij", "klmnopabcdefghijklmn", "opabcdefghijkl", "mnopab cdefghi j", "klmno"]
    );
}

#[test]
fn symbols_of_two_columns() {
    let text = "コンピュータ上で文字を扱う場合、典型的には文字による通信を行う場合にその両端点では、";
    let (lines, widths) = run_composer(true, text, 20);
    assert_eq!(
        lines,
        [
            "コンピュータ上で文字",
            "を扱う場合、典型的に",
            "は文字による通信を行",
            "う場合にその両端点で",
            "は、",
        ]
    );
    assert_eq!(widths, [20, 20, 20, 20, 4]);
}

#[test]
fn whitespace_at_a_break_is_dropped() {
    let (lines, _) = run_composer(true, "AAAAAAAAAAAAAAAAAAAA    AAA", 20);
    assert_eq!(lines, ["AAAAAAAAAAAAAAAAAAAA", "AAA"]);
}

#[test]
fn nothing_but_whitespace() {
    let (lines, _) = run_composer(true, &" ".repeat(70), 20);
    assert_eq!(lines, [""]);
    let (lines, _) = run_composer(true, &format!("a{}", " ".repeat(70)), 20);
    assert_eq!(lines, ["a", ""]);
}

#[test]
fn two_column_symbols_between_whitespace() {
    let text = "コンピュ ータ上で文字を扱う場合、 典型的には文 字による 通信を行 う場合にその両端点では、";
    let (lines, _) = run_composer(true, text, 20);
    assert_eq!(
        lines,
        [
            "コンピュ",
            "ータ上で文字を扱う場",
            "合、 典型的には文",
            "字による 通信を行",
            "う場合にその両端点で",
            "は、",
        ]
    );
}

#[test]
fn no_break_at_the_no_break_space() {
    let (lines, _) = run_composer(true, "AAAAAAAAAAAAAAA AAAA\u{00a0}AAA", 20);
    assert_eq!(lines, ["AAAAAAAAAAAAAAA", "AAAA\u{00a0}AAA"]);
    assert!(is_blank(" "));
    assert!(is_blank(" \t"));
    assert!(is_blank(""));
    assert!(!is_blank("\u{00a0}"));
    assert!(is_blank("\u{00a0} "));
    assert!(!is_blank("a"));
    assert!(!is_blank(" a"));
}

#[test]
fn indentation_is_kept_without_trim() {
    let (lines, _) = run_composer(false, "AAAAAAAAAAAAAAAAAAAA    AAA", 20);
    assert_eq!(lines, ["AAAAAAAAAAAAAAAAAAAA", "   AAA"]);
    let (lines, _) = run_composer(false, "AAA AAA AAAAA AA AAAAAA\n B\n  C\n   D", 10);
    assert_eq!(lines, ["AAA AAA", "AAAAA AA", "AAAAAA", " B", "  C", "   D"]);
    let text = "               4 Indent\n                 must wrap!";
    let (lines, _) = run_composer(false, text, 10);
    assert_eq!(lines, ["          ", "    4", "Indent", "          ", "      must", "wrap!"]);
}

#[test]
fn lines_keep_their_alignment() {
    let input = vec![
        (graphemes("one two"), Alignment::Right),
        (graphemes("three"), Alignment::Center),
    ];
    let mut composer = WordWrapper::new(input, 4, true);
    let mut seen = vec![];
    while let Some((line, width, alignment)) = composer.next_line() {
        seen.push((text_of(line), width, alignment));
    }
    assert_eq!(
        seen,
        [
            ("one".to_owned(), 3, Alignment::Right),
            ("two".to_owned(), 3, Alignment::Right),
            ("thre".to_owned(), 4, Alignment::Center),
            ("e".to_owned(), 1, Alignment::Center),
        ]
    );
    assert!(composer.next_line().is_none());
}

#[test]
fn wrap_of_one_line() {
    let symbols = graphemes("ab cd  ef");
    let lines = wrap(&symbols, 5, true).iter().map(|line| text_of(line)).collect::<Vec<_>>();
    assert_eq!(lines, ["ab cd", "ef"]);
    let lines = wrap(&symbols, 5, false).iter().map(|line| text_of(line)).collect::<Vec<_>>();
    assert_eq!(lines, ["ab cd", " ef"]);
    assert_eq!(wrap(&[].to_vec(), 5, true), [vec![]]);
}

#[test]
fn compose_modes() {
    assert_eq!(compose_mode(3, Constraint::Length(3)).unwrap(), ComposeMode::Fit(3));
    assert_eq!(compose_mode(3, Constraint::Length(5)).unwrap(), ComposeMode::Fill(5, 2));
    assert_eq!(compose_mode(3, Constraint::Length(2)).unwrap(), ComposeMode::Truncate(1));
    assert_eq!(compose_mode(3, Constraint::Length(0)).unwrap(), ComposeMode::Truncate(0));
    assert_eq!(compose_mode(0, Constraint::Length(0)).unwrap(), ComposeMode::Fit(0));
    assert_eq!(compose_mode(3, Constraint::Min(2)).unwrap(), ComposeMode::Fit(3));
    assert_eq!(compose_mode(3, Constraint::Min(4)).unwrap(), ComposeMode::Fill(4, 1));
    assert_eq!(compose_mode(3, Constraint::Max(4)).unwrap(), ComposeMode::Fit(3));
    assert_eq!(compose_mode(3, Constraint::Max(2)).unwrap(), ComposeMode::Truncate(1));
    assert_eq!(compose_mode(0x1_0003, Constraint::Max(4)).unwrap(), ComposeMode::Truncate(2));
    let error = compose_mode(3, Constraint::Percentage(50)).unwrap_err();
    assert_eq!(error.to_string(), "Invalid constraint given: Percentage(50)");
    let error = compose_mode(3, Constraint::Ratio(1, 2)).unwrap_err();
    assert_eq!(error.to_string(), "Invalid constraint given: Ratio(1, 2)");
}

fn width_of_line(line: &[StyledGrapheme<'_>]) -> usize {
    line.iter().map(|grapheme| unicode_width::UnicodeWidthStr::width(grapheme.symbol)).sum()
}

#[test]
fn lines_of_narrow_symbols_keep_within_the_width() {
    let texts = [
        "",
        "a",
        "abcdefghij",
        "ab cd  ef   gh",
        "   abc de",
        "a b c d e f g",
        "abcdefgh ij k lmnopqrstu   v",
        "   ",
    ];
    for text in texts {
        let symbols = graphemes(text);
        for width in 0..12 {
            for trim in [true, false] {
                for line in wrap(&symbols, width, trim) {
                    assert!(width_of_line(&line) <= usize::from(width), "{text:?} {width} {trim}");
                }
            }
        }
    }
}

#[test]
fn a_wide_symbol_can_pass_the_width() {
    let symbols = graphemes("a b字 ");
    let lines = wrap(&symbols, 4, true);
    assert_eq!(lines.iter().map(|line| text_of(line)).collect::<Vec<_>>(), ["a b字"]);
    assert_eq!(width_of_line(&lines[0]), 5);
}

/// Whether the symbols of `part` are symbols of `whole`, in the same order
fn left_of(part: &[&str], whole: &[&str]) -> bool {
    let mut rest = whole.iter();
    part.iter().all(|symbol| rest.any(|other| other == symbol))
}

#[test]
fn wrapped_lines_keep_the_order_of_the_symbols() {
    let texts = ["ab cd  ef   gh", "   abc de", "コンピュータ 上で a 文字", "a b字 c", "abcdefghijkl mn"];
    for text in texts {
        let symbols = graphemes(text);
        let whole: Vec<&str> = symbols.iter().map(|grapheme| grapheme.symbol).collect();
        for width in 0..8 {
            for trim in [true, false] {
                let lines = wrap(&symbols, width, trim);
                let part: Vec<&str> =
                    lines.iter().flatten().map(|grapheme| grapheme.symbol).collect();
                assert!(left_of(&part, &whole), "{text:?} {width} {trim}");
            }
        }
    }
    assert!(left_of(&["a", "c"], &["a", "b", "c"]));
    assert!(!left_of(&["c", "a"], &["a", "b", "c"]));
    assert!(!left_of(&["a", "a"], &["a", "b", "c"]));
}
