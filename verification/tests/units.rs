use mdformat::blocks::format_lines;
use mdformat::lists::format_lists;
use mdformat::spacing::format_line;
use mdformat::spacing::format_text;
use mdformat::state::get_line_state;
use mdformat::state::LineState;

#[test]
fn test_line_states() {
    assert_eq!(get_line_state("hello", LineState::Empty), LineState::Normal);
    assert_eq!(get_line_state("", LineState::Normal), LineState::Empty);
    assert_eq!(get_line_state("- item", LineState::Empty), LineState::List);
    assert_eq!(get_line_state("* item", LineState::Empty), LineState::List);
    assert_eq!(get_line_state("+ item", LineState::Empty), LineState::List);
    assert_eq!(get_line_state("12. item", LineState::Empty), LineState::List);
    assert_eq!(get_line_state("12.item", LineState::Empty), LineState::Normal);
    assert_eq!(get_line_state("-item", LineState::Empty), LineState::Normal);
    assert_eq!(get_line_state("```rust", LineState::Empty), LineState::CodeStart);
    assert_eq!(get_line_state("# title", LineState::Empty), LineState::Title);
    assert_eq!(get_line_state("> quote", LineState::Empty), LineState::Blockquote);
    assert_eq!(get_line_state("| a | b |", LineState::Empty), LineState::Table);
}

#[test]
fn test_line_states_inside_code() {
    // Inside a fence only the closing delimiter ends the block.
    assert_eq!(get_line_state("# not a title", LineState::CodeStart), LineState::Code);
    assert_eq!(get_line_state("- not a list", LineState::Code), LineState::Code);
    assert_eq!(get_line_state("", LineState::Code), LineState::Code);
    assert_eq!(get_line_state("```", LineState::Code), LineState::CodeEnd);
    assert_eq!(get_line_state("```", LineState::CodeStart), LineState::CodeEnd);
    assert_eq!(get_line_state("text", LineState::CodeEnd), LineState::Normal);
}

#[test]
fn test_format_text_cjk() {
    assert_eq!(format_text("123你好2谢谢"), "123 你好 2 谢谢");
    assert_eq!(format_text("abc"), "abc");
    assert_eq!(format_text("你好"), "你好");
    assert_eq!(format_text("已有 space 不变"), "已有 space 不变");
}

#[test]
fn test_format_text_code_spans() {
    assert_eq!(format_text("`a`b`c`"), "`a` b `c`");
    assert_eq!(format_text("x`code`y"), "x `code` y");
    assert_eq!(format_text("a `code` b"), "a `code` b");
    // a lone backtick opens no span
    assert_eq!(format_text("a`b"), "a`b");
    // spans touching each other get no space between the backticks
    assert_eq!(format_text("`a``b`"), "`a``b`");
}

#[test]
fn test_format_line_matches_format_text() {
    assert_eq!(format_line("接口api测试"), format_text("接口api测试"));
}

#[test]
fn test_format_lines_blocks() {
    let lines = vec!["# t", "text", "| a |", "| b |", "tail"];
    let out = format_lines(lines);
    assert_eq!(out, vec!["# t", "", "text", "", "| a |", "| b |", "", "tail"]);
}

#[test]
fn test_format_lines_collapses_blanks() {
    let lines = vec!["a", "", "", "b"];
    let out = format_lines(lines);
    assert_eq!(out, vec!["a", "", "b"]);
}

#[test]
fn test_format_lists_renumbers() {
    let lines: Vec<String> = ["1. a", "3. b", "2. c"].iter().map(|s| s.to_string()).collect();
    let out = format_lists(&lines);
    assert_eq!(out, vec!["1. a", "2. b", "3. c"]);
}

#[test]
fn test_format_lists_interruption_resets() {
    let lines: Vec<String> =
        ["1. a", "text", "4. b", "4. c"].iter().map(|s| s.to_string()).collect();
    let out = format_lists(&lines);
    assert_eq!(out, vec!["1. a", "text", "1. b", "2. c"]);
}

#[test]
fn test_format_lists_nesting_step() {
    let lines: Vec<String> =
        ["1. L1", "    * L2", "        3. L3"].iter().map(|s| s.to_string()).collect();
    let out = format_lists(&lines);
    assert_eq!(out, vec!["1. L1", "  - L2", "    1. L3"]);
}

#[test]
fn test_format_lists_marker_change_restarts() {
    let lines: Vec<String> =
        ["1. a", "2. b", "- c", "3. d"].iter().map(|s| s.to_string()).collect();
    let out = format_lists(&lines);
    assert_eq!(out, vec!["1. a", "2. b", "- c", "1. d"]);
}

#[test]
fn test_terminate_with_newline() {
    let t = |s: &str| -> String {
        let v: Vec<char> = s.chars().collect();
        mdformat::text::terminate_with_newline(&v).into_iter().collect()
    };
    assert_eq!(t(""), "\n");
    assert_eq!(t("a"), "a\n");
    assert_eq!(t("a\n"), "a\n");
    assert_eq!(t("a\n\n\n"), "a\n");
}

#[test]
fn test_char_classes() {
    assert!(mdformat::chars::is_han('你'));
    assert!(mdformat::chars::is_han('謝'));
    assert!(!mdformat::chars::is_han('a'));
    assert!(!mdformat::chars::is_han('한')); // Hangul is not Han script
    assert!(mdformat::chars::is_ascii_alnum('7'));
    assert!(mdformat::chars::is_ascii_alnum('Z'));
    assert!(!mdformat::chars::is_ascii_alnum('全'));
    assert!(mdformat::chars::is_space('\u{3000}'));
    assert!(!mdformat::chars::is_space('_'));
}
