use mdformat::pipeline::format_markdown;
use mdformat::pipeline::format_structure;

#[test]
fn test_align_table() {
    let fmt_md = format_markdown("|a|b|\n|---|---|\n| column 1 | column 2    |");
    assert_eq!(
        fmt_md,
        "| a        | b        |\n| -------- | -------- |\n| column 1 | column 2 |\n"
    );
}

#[test]
fn test_insert_empty_line_for_title() {
    let fmt_md = format_markdown(
        "# title 1\n## title2\n### title3\n\n```c\n#define ABC\n```\n# title4\n| ---- | ---- |\n# title5",
    );
    assert_eq!(
        fmt_md,
        "# title 1\n\n## title2\n\n### title3\n\n```c\n#define ABC\n```\n\n# title4\n\n| ---- | ---- |\n\n# title5\n"
    );
}

#[test]
fn test_insert_empty_line_for_table() {
    let fmt_md =
        format_markdown("# title 1\ntext\n| aaa | bbb |\n| --- | --- |\n| 123 | 456 |\nline text");
    assert_eq!(
        fmt_md,
        "# title 1\n\ntext\n\n| aaa | bbb |\n| --- | --- |\n| 123 | 456 |\n\nline text\n"
    );
}

#[test]
fn test_insert_space() {
    let fmt_md = format_markdown("# 123你好2谢谢hello`你好call function()`$text谢谢$谢谢");
    assert_eq!(
        fmt_md,
        "# 123 你好 2 谢谢 hello `你好 call function()` $text 谢谢$谢谢\n"
    );

    let fmt_md = format_markdown("123你好2谢谢hello`你好call function()`$text谢谢$谢谢");
    assert_eq!(
        fmt_md,
        "123 你好 2 谢谢 hello `你好 call function()` $text 谢谢$谢谢\n"
    );

    let fmt_md = format_markdown("- 123你好2谢谢hello`你好call function()`$text谢谢$谢谢");
    assert_eq!(
        fmt_md,
        "- 123 你好 2 谢谢 hello `你好 call function()` $text 谢谢$谢谢\n"
    );

    let fmt_md = format_markdown("1. 123你好2谢谢hello`你好call function()`$text谢谢$谢谢");
    assert_eq!(
        fmt_md,
        "1. 123 你好 2 谢谢 hello `你好 call function()` $text 谢谢$谢谢\n"
    );
}

#[test]
fn test_join_empty_lines() {
    let fmt_md = format_markdown("line1\n\n\nline2\n\n  \n  \nline3");
    assert_eq!(fmt_md, "line1\n\nline2\n\nline3\n");
}

#[test]
fn test_code_block() {
    let input = "pre text\n```\n$ brew install ripgrep\n```\nafter text\n";
    let fmt_md = format_markdown(input);
    assert_eq!(
        fmt_md,
        "pre text\n\n```\n$ brew install ripgrep\n```\n\nafter text\n"
    );
}

#[test]
fn test_code_span() {
    let input = "`start`ignored `by` your `.gitignore`/`.ignore`/`.rgignore` files`end`";
    let fmt_md = format_markdown(input);
    assert_eq!(
        fmt_md,
        "`start` ignored `by` your `.gitignore` / `.ignore` / `.rgignore` files `end`\n"
    );
}

#[test]
fn test_format_lists() {
    // Unordered list with mixed markers
    let input1 = "* item 1\n+ item 2\n- item 3";
    let expected1 = "- item 1\n- item 2\n- item 3\n";
    assert_eq!(format_markdown(input1), expected1);

    // Ordered list with incorrect numbering
    let input2 = "1. item 1\n3. item 2\n2. item 3";
    let expected2 = "1. item 1\n2. item 2\n3. item 3\n";
    assert_eq!(format_markdown(input2), expected2);

    // Nested unordered list
    let input3 = "* level 1\n  + level 2\n    - level 3";
    let expected3 = "- level 1\n  - level 2\n    - level 3\n";
    assert_eq!(format_markdown(input3), expected3);

    // Nested ordered list
    let input4 = "1. level 1\n   2. level 2\n      3. level 3";
    let expected4 = "1. level 1\n  1. level 2\n    1. level 3\n";
    assert_eq!(format_markdown(input4), expected4);

    // Mixed nested list
    let input5 = "* level 1\n  1. sub 1\n  2. sub 2\n* level 1";
    let expected5 = "- level 1\n  1. sub 1\n  2. sub 2\n- level 1\n";
    assert_eq!(format_markdown(input5), expected5);

    // List with intermittent text
    let input6 = "1. item 1\n\nnot a list\n\n2. item 2";
    let expected6 = "1. item 1\n\nnot a list\n\n1. item 2\n";
    assert_eq!(format_markdown(input6), expected6);

    // Deeply nested list
    let input7 = "1. L1\n    * L2\n        3. L3\n            + L4";
    let expected7 = "1. L1\n  - L2\n    1. L3\n      - L4\n";
    assert_eq!(format_markdown(input7), expected7);

    // List with extra spacing
    let input8 = "*   item 1\n1.    item 2";
    let expected8 = "- item 1\n1. item 2\n";
    assert_eq!(format_markdown(input8), expected8);

    // List preceded by a normal line, should insert an empty line
    let input9 = "This is a normal line.\n* List item 1\n* List item 2";
    let expected9 = "This is a normal line.\n\n- List item 1\n- List item 2\n";
    assert_eq!(format_markdown(input9), expected9);

    // List preceded by a title, should have an empty line
    let input10 = "# My Title\n* List item 1\n* List item 2";
    let expected10 = "# My Title\n\n- List item 1\n- List item 2\n";
    assert_eq!(format_markdown(input10), expected10);
}

#[test]
fn test_blockquote() {
    let input = "text before\n> quote 1\n> quote 2\ntext after";
    let expected = "text before\n\n> quote 1\n> quote 2\n\ntext after\n";
    assert_eq!(format_markdown(input), expected);

    let input2 = "> quote\n# title";
    let expected2 = "> quote\n\n# title\n";
    assert_eq!(format_markdown(input2), expected2);

    // list before quote
    let input3 = "- list item\n> quote";
    let expected3 = "- list item\n\n> quote\n";
    assert_eq!(format_markdown(input3), expected3);

    // quote before list
    let input4 = "> quote\n- list item";
    let expected4 = "> quote\n\n- list item\n";
    assert_eq!(format_markdown(input4), expected4);

    // code block before quote
    let input5 = "```\ncode\n```\n> quote";
    let expected5 = "```\ncode\n```\n\n> quote\n";
    assert_eq!(format_markdown(input5), expected5);

    // quote before code block
    let input6 = "> quote\n```\ncode\n```";
    let expected6 = "> quote\n\n```\ncode\n```\n";
    assert_eq!(format_markdown(input6), expected6);
}

#[test]
fn test_empty_input_yields_single_newline() {
    assert_eq!(format_markdown(""), "\n");
    assert_eq!(format_markdown("   \n \t \n  "), "\n");
}

#[test]
fn test_trailing_newline_exactly_one() {
    for input in [
        "text",
        "text\n",
        "text\n\n\n",
        "# title",
        "- item",
        "a\nb\nc",
        "|a|b|\n|---|---|",
    ] {
        let out = format_markdown(input);
        assert!(out.ends_with('\n'));
        assert!(!out.ends_with("\n\n"), "two newlines after {input:?}");
    }
}

#[test]
fn test_idempotent_on_samples() {
    for input in [
        "",
        "# title\ntext\n| a | b |\n| --- | --- |\ntail",
        "* item 1\n+ item 2\n1. x\n3. y",
        "123你好2谢谢hello`你好call function()`",
        "pre\n```\ncode  \n\n#not a title\n```\npost",
        "> quote\n# title\n- item\n  - sub",
        "`a`b`c`",
        "line1\n\n\nline2\n\n  \n  \nline3",
    ] {
        let once = format_markdown(input);
        let twice = format_markdown(&once);
        assert_eq!(twice, once, "not idempotent on {input:?}");
    }
}

#[test]
fn test_structure_pass_without_tables() {
    // The passes before the table collaborator: no trailing newline yet.
    assert_eq!(format_structure("a\n\n\nb"), "a\n\nb");
    assert_eq!(format_structure("# t\nx"), "# t\n\nx");
    assert_eq!(format_structure(""), "");
    assert_eq!(format_structure("1. a\n3. b\n2. c"), "1. a\n2. b\n3. c");
}
