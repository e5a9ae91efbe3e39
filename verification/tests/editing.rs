use open_live_writer::editing::{
    active_block, adjust_markdown_list_indent, character_count, cycle_heading_line,
    document_outline, exact_prefix_rest, heading_level, inline_format_state, is_clipboard_url,
    line_end, line_index, line_starts, linkify_selection, looks_like_url, markdown_code_block,
    markdown_link, markdown_table, normalize_url, selected_count, selection_has_wrap,
    set_heading_level, set_heading_line, smart_markdown_enter, strip_block_prefix,
    toggle_block_prefix, toggle_markdown_task, toggle_prefixes, wrap_or_unwrap, ActiveBlock,
    InlineFormatState,
};

#[test]
fn wraps_and_unwraps_inline_markers() {
    let (wrapped, range) = wrap_or_unwrap("hello", 0..5, "**", "**");
    assert_eq!(wrapped, "**hello**");
    assert_eq!(range, 0..9);
    let (unwrapped, range) = wrap_or_unwrap(&wrapped, 0..9, "**", "**");
    assert_eq!(unwrapped, "hello");
    assert_eq!(range, 0..5);
    let (inside, range) = wrap_or_unwrap("text", 4..4, "**", "**");
    assert_eq!(inside, "text****");
    assert_eq!(range, 6..6);
    let (cleared, range) = wrap_or_unwrap("text****", 6..6, "**", "**");
    assert_eq!(cleared, "text");
    assert_eq!(range, 4..4);
}

#[test]
fn cycles_heading_levels() {
    let (line, _) = cycle_heading_line("Title", 0);
    assert_eq!(line, "# Title");
    let (line, _) = cycle_heading_line("# Title", 0);
    assert_eq!(line, "## Title");
    let (line, _) = cycle_heading_line("###### Title", 0);
    assert_eq!(line, "Title");
}

#[test]
fn toggles_prefixes_across_selected_lines() {
    let source = "one\ntwo\nthree";
    let (next, _) = toggle_prefixes(source, 0..source.len(), "- ");
    assert_eq!(next, "- one\n- two\n- three");
    let (next, _) = toggle_prefixes(&next, 0..next.len(), "- ");
    assert_eq!(next, "one\ntwo\nthree");
    let mixed = "- one\ntwo";
    let (next, _) = toggle_prefixes(mixed, 0..mixed.len(), "- ");
    assert_eq!(next, "- one\n- two");
}

#[test]
fn does_not_stack_task_and_bullet_prefixes() {
    let (line, _) = toggle_block_prefix("- [ ] task", "- ", 0);
    assert_eq!(line, "- task");
    let (line, _) = toggle_block_prefix("> quote", "- ", 0);
    assert_eq!(line, "- quote");
}

#[test]
fn smart_enter_continues_markdown_blocks_and_exits_empty_items() {
    let (next, cursor) =
        smart_markdown_enter("- one", 5..5).expect("bullet continuation");
    assert_eq!(next, "- one\n- ");
    assert_eq!(cursor, next.len());

    let (next, cursor) =
        smart_markdown_enter("- [x] done", 10..10).expect("task continuation");
    assert_eq!(next, "- [x] done\n- [ ] ");
    assert_eq!(cursor, next.len());

    let (next, cursor) =
        smart_markdown_enter("9. nine", 7..7).expect("number continuation");
    assert_eq!(next, "9. nine\n10. ");
    assert_eq!(cursor, next.len());

    let (next, cursor) =
        smart_markdown_enter("> quote", 7..7).expect("quote continuation");
    assert_eq!(next, "> quote\n> ");
    assert_eq!(cursor, next.len());

    let (next, cursor) =
        smart_markdown_enter("- one\n- ", 8..8).expect("empty item exits");
    assert_eq!(next, "- one\n");
    assert_eq!(cursor, 6);
}

#[test]
fn smart_enter_splits_a_list_item_at_the_caret() {
    let source = "  - hello world";
    let (next, cursor) =
        smart_markdown_enter(source, 9..9).expect("nested bullet continuation");
    assert_eq!(next, "  - hell\n  - o world");
    assert_eq!(&next[cursor..], "o world");
}

#[test]
fn adjusts_only_markdown_list_indentation() {
    let source = "- one\n- two";
    let (nested, cursor) =
        adjust_markdown_list_indent(source, 0..source.len(), false).expect("indent");
    assert_eq!(nested, "  - one\n  - two");
    assert_eq!(cursor, nested.len());

    let (flat, cursor) =
        adjust_markdown_list_indent(&nested, 0..nested.len(), true).expect("outdent");
    assert_eq!(flat, source);
    assert_eq!(cursor, source.len());

    assert!(adjust_markdown_list_indent("plain", 0..0, false).is_none());
    assert!(adjust_markdown_list_indent("- top", 0..0, true).is_none());
}

#[test]
fn toggles_task_checkbox_without_moving_the_caret() {
    let (checked, cursor) =
        toggle_markdown_task("  - [ ] task", 10).expect("check task");
    assert_eq!(checked, "  - [x] task");
    assert_eq!(cursor, 10);

    let (unchecked, cursor) =
        toggle_markdown_task(&checked, cursor).expect("uncheck task");
    assert_eq!(unchecked, "  - [ ] task");
    assert_eq!(cursor, 10);
    assert!(toggle_markdown_task("- bullet", 4).is_none());
}

#[test]
fn detects_inline_format_at_the_caret_and_selection() {
    let source = "**bold** and *italic* and ~~strike~~ and `code`";
    assert!(inline_format_state(source, 4..4).bold);
    assert!(inline_format_state(source, 2..6).bold);
    assert!(inline_format_state(source, 15..15).italic);
    assert!(inline_format_state(source, 29..29).strike);
    assert!(inline_format_state(source, 42..42).code);
    assert_eq!(
        inline_format_state(source, source.len()..source.len()),
        InlineFormatState::default()
    );

    let nested = "**bold *and italic* text**";
    let state = inline_format_state(nested, 12..12);
    assert!(state.bold);
    assert!(state.italic);

    let escaped = r"\*not italic\*";
    assert!(!inline_format_state(escaped, 5..5).italic);
}

#[test]
fn linkifies_a_clean_text_selection_from_a_url_paste() {
    let (next, cursor) =
        linkify_selection("read this now", 5..9, "www.example.com").expect("link");
    assert_eq!(next, "read [this](https://www.example.com) now");
    assert_eq!(cursor, "read [this](https://www.example.com)".len());
    assert!(linkify_selection("https://old.example", 0..19, "https://new.example").is_none());
    assert!(linkify_selection("two words", 0..9, "not a url").is_none());
}
#[test]
fn builds_tables_and_counts_characters() {
    let table = markdown_table(2, 3);
    assert!(table.contains("| 列 1 | 列 2 | 列 3 |"));
    assert_eq!(table.lines().count(), 4);
    assert_eq!(character_count("hello 世界"), 7);
    assert!(looks_like_url("https://example.com"));
    assert_eq!(normalize_url("www.example.com"), "https://www.example.com");
    let outline = document_outline("# A\n\n## B\ntext");
    assert_eq!(outline.len(), 2);
    assert_eq!(outline[1].level, 2);
}

#[test]
fn finds_lines_by_offset() {
    assert_eq!(line_starts(""), vec![0]);
    assert_eq!(line_starts("a\n\n世\nb"), vec![0, 2, 3, 7]);
    let starts = line_starts("a\n\n世\nb");
    assert_eq!(line_index(&starts, 0), 0);
    assert_eq!(line_index(&starts, 1), 0);
    assert_eq!(line_index(&starts, 2), 1);
    assert_eq!(line_index(&starts, 6), 2);
    assert_eq!(line_index(&starts, 100), 3);
    assert_eq!(line_end(&starts, 0, 8), 1);
    assert_eq!(line_end(&starts, 3, 8), 8);
}

#[test]
fn wrapping_ignores_offsets_inside_a_character() {
    let (text, range) = wrap_or_unwrap("世界", 1..3, "**", "**");
    assert_eq!(text, "世界");
    assert_eq!(range, 1..3);
    let (text, range) = wrap_or_unwrap("世界", 0..99, "**", "**");
    assert_eq!(text, "**世界**");
    assert_eq!(range, 0..10);
}

#[test]
fn unwraps_markers_around_the_selection() {
    let (text, range) = wrap_or_unwrap("a **b** c", 4..5, "**", "**");
    assert_eq!(text, "a b c");
    assert_eq!(range, 2..3);
    assert!(selection_has_wrap("a **b** c", 4..5, "**", "**"));
    assert!(selection_has_wrap("a **b** c", 2..7, "**", "**"));
    assert!(!selection_has_wrap("a **b** c", 0..1, "**", "**"));
    // The same three characters can be both markers at once.
    assert!(selection_has_wrap("***", 0..3, "**", "**"));
    let (text, range) = wrap_or_unwrap("***", 0..3, "**", "**");
    assert_eq!(text, "*******");
    assert_eq!(range, 0..7);
}

#[test]
fn reads_and_sets_headings() {
    assert_eq!(heading_level("# a"), 1);
    assert_eq!(heading_level("######"), 6);
    assert_eq!(heading_level("####### a"), 0);
    assert_eq!(heading_level("#a"), 0);
    assert_eq!(set_heading_line("## Title", 5, 3), ("### Title".to_owned(), 6));
    assert_eq!(set_heading_line("## Title", 1, 0), ("Title".to_owned(), 0));
    assert_eq!(set_heading_line("Title", 99, 1), ("# Title".to_owned(), 7));
    let mut line = "Title".to_owned();
    for _ in 0..7 {
        line = cycle_heading_line(&line, 0).0;
    }
    assert_eq!(line, "Title");
    let (text, cursor) = set_heading_level("a\n\nb\nc", 0..4, 2);
    assert_eq!(text, "## a\n\n## b\nc");
    assert_eq!(cursor, 10);
}

#[test]
fn strips_every_block_prefix() {
    assert_eq!(strip_block_prefix("## a"), ("a", 3));
    assert_eq!(strip_block_prefix("- [X] a"), ("a", 6));
    assert_eq!(strip_block_prefix("+ a"), ("a", 2));
    assert_eq!(strip_block_prefix("> a"), ("a", 2));
    assert_eq!(strip_block_prefix("12) a"), ("a", 4));
    assert_eq!(strip_block_prefix("12)a"), ("12)a", 0));
    assert_eq!(exact_prefix_rest("- a", "- "), Some("a"));
    assert_eq!(exact_prefix_rest("- [ ] a", "- "), None);
    assert_eq!(exact_prefix_rest("a", "- "), None);
}

#[test]
fn toggles_a_prefix_on_one_line_and_moves_the_cursor() {
    assert_eq!(toggle_block_prefix("text", "> ", 4), ("> text".to_owned(), 6));
    assert_eq!(toggle_block_prefix("> text", "> ", 6), ("text".to_owned(), 4));
    assert_eq!(toggle_block_prefix("1. text", "- ", 1), ("- text".to_owned(), 2));
    assert_eq!(toggle_block_prefix("> quote", "# ", 0), ("# quote".to_owned(), 2));
    assert_eq!(toggle_block_prefix("> quote", "# ", 7), ("# quote".to_owned(), 7));
    assert_eq!(toggle_block_prefix("- [ ] task", "# ", 10), ("# task".to_owned(), 6));
    assert_eq!(toggle_block_prefix("text", "# ", 99), ("# text".to_owned(), 6));
    let (text, _) = toggle_prefixes("- a\nb", 0..5, "# ");
    assert_eq!(text, "# a\n# b");
    // A selection that ends behind the line feed touches one line only.
    let (text, cursor) = toggle_prefixes("a\nb", 0..2, "- ");
    assert_eq!(text, "- a\nb");
    assert_eq!(cursor, 4);
    let (text, _) = toggle_prefixes("one\n\ntwo", 0..8, "> ");
    assert_eq!(text, "> one\n\n> two");
    let (text, _) = toggle_prefixes(&text, 0..text.len(), "> ");
    assert_eq!(text, "one\n\ntwo");
}

#[test]
fn builds_links_code_blocks_and_addresses() {
    assert_eq!(markdown_link(" a ", " https://x "), "[a](https://x)");
    assert_eq!(markdown_link("", ""), "[链接](https://example.com)");
    assert_eq!(markdown_code_block(""), "```\n\n```");
    assert_eq!(markdown_code_block(" rust "), "```rust\n\n```");
    assert!(looks_like_url(" mailto:a@b "));
    assert!(!looks_like_url("ftp://a"));
    assert_eq!(normalize_url(" http://a "), "http://a");
    assert!(is_clipboard_url("www.a"));
    assert!(!is_clipboard_url("https://a b"));
    assert!(!is_clipboard_url("https://a\n"));
}

#[test]
fn tables_are_held_between_one_and_eight() {
    assert_eq!(
        markdown_table(0, 1),
        "| 列 1 |\n| --- |\n| 内容 |"
    );
    assert_eq!(markdown_table(99, 99).lines().count(), 10);
    assert!(markdown_table(1, 99).starts_with("| 列 1 | 列 2 | 列 3 | 列 4 | 列 5 | 列 6 | 列 7 | 列 8 |"));
}

#[test]
fn outlines_with_offsets_and_counts() {
    let outline = document_outline("# A\n\n##  B \ntext\n###");
    assert_eq!(outline.len(), 3);
    assert_eq!(outline[0].offset, 0);
    assert_eq!(outline[1].title, "B");
    assert_eq!(outline[1].offset, 5);
    assert_eq!(outline[2].title, "");
    assert_eq!(outline[2].offset, 17);
    assert_eq!(character_count(" a\u{3000}b\n"), 2);
    assert_eq!(selected_count("世 界", 0..4), 1);
    assert_eq!(selected_count("世 界", 1..4), 0);
}

#[test]
fn names_the_block_of_a_line() {
    assert_eq!(active_block("## a"), ActiveBlock::Heading(2));
    assert_eq!(active_block("- [x] a"), ActiveBlock::Task);
    assert_eq!(active_block("* a"), ActiveBlock::Bullet);
    assert_eq!(active_block("> a"), ActiveBlock::Quote);
    assert_eq!(active_block("3) a"), ActiveBlock::Numbered);
    assert_eq!(active_block("a"), ActiveBlock::Paragraph);
}

#[test]
fn enter_keeps_out_of_plain_text_and_markers() {
    assert!(smart_markdown_enter("plain", 5..5).is_none());
    assert!(smart_markdown_enter("- one", 1..1).is_none());
    assert!(smart_markdown_enter("- one", 0..5).is_none());
    assert!(smart_markdown_enter("99999999999999999999. a", 23..23).is_none());
    let (next, cursor) = smart_markdown_enter("18446744073709551615) a", 23..23).unwrap();
    assert_eq!(next, "18446744073709551615) a\n18446744073709551615) ");
    assert_eq!(cursor, next.len());
}

#[test]
fn enter_twice_leaves_a_list() {
    let (next, cursor) = smart_markdown_enter("  * one\nrest", 7..7).unwrap();
    assert_eq!(next, "  * one\n  * \nrest");
    let (next, cursor) = smart_markdown_enter(&next, cursor..cursor).unwrap();
    assert_eq!(next, "  * one\n\nrest");
    assert_eq!(cursor, 8);
}

#[test]
fn outdents_tabs_and_single_spaces() {
    let (next, cursor) = adjust_markdown_list_indent("\t- a\n - b", 0..8, true).unwrap();
    assert_eq!(next, "- a\n- b");
    assert_eq!(cursor, 6);
    assert!(adjust_markdown_list_indent("- a\ntext", 0..8, false).is_none());
    assert!(adjust_markdown_list_indent("> quote", 0..7, false).is_none());
}

#[test]
fn a_capital_tick_comes_back_small() {
    let (next, _) = toggle_markdown_task("- [X] a", 0).unwrap();
    assert_eq!(next, "- [ ] a");
    let (next, _) = toggle_markdown_task(&next, 0).unwrap();
    assert_eq!(next, "- [x] a");
}

#[test]
fn enter_splits_where_the_caret_is() {
    let (next, cursor) = smart_markdown_enter("- hello world", 7..7).unwrap();
    assert_eq!(next, "- hello\n-  world");
    assert_eq!(&next[cursor..], " world");
    let (next, _) = smart_markdown_enter("  - hello world", 6..6).unwrap();
    assert_eq!(next, "  - he\n  - llo world");
    let (next, cursor) = smart_markdown_enter("  - foo bar", 7..7).unwrap();
    assert_eq!(next, "  - foo\n  -  bar");
    assert_eq!(&next[cursor..], " bar");
    let (next, _) = smart_markdown_enter("x\n  - hello world", 11..11).unwrap();
    assert_eq!(next, "x\n  - hello\n  -  world");
    let (next, _) = smart_markdown_enter("  - hello world", 10..10).unwrap();
    assert_eq!(next, "  - hello \n  - world");
    let (next, _) = smart_markdown_enter("  - a b", 4..4).unwrap();
    assert_eq!(next, "  - \n  - a b");
}
