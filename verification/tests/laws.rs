use open_live_writer::bytes::utf16_units;
use open_live_writer::document::{decode_markdown, disk_bytes, normalize_newlines, FileEncoding};
use open_live_writer::editing::{
    adjust_markdown_list_indent, cycle_heading_line, document_outline, heading_level, inline_format_state, line_starts,
    linkify_selection, looks_like_url, normalize_url, selection_has_wrap, set_heading_level,
    set_heading_line, smart_markdown_enter, toggle_block_prefix, toggle_markdown_task, toggle_prefixes, wrap_or_unwrap,
};
use open_live_writer::editor::{EditorState, PublishKind, PublishStart};
use open_live_writer::http::HttpReply;
use open_live_writer::markdown::{parse_blocks, parse_inline, strip_inline, Block};
use open_live_writer::notion::{rich_text_of_pieces, NotionPublish, NotionStage, NotionStep};
use open_live_writer::preview::{inline_preview, InlineSegment};
use open_live_writer::publishing::{document_title, extract_xml_tag, xml_escape, NotionConfig};
use open_live_writer::ribbon::{ribbon, RibbonCommand, RibbonState, RibbonTab};
use open_live_writer::storage::{
    media_candidate, new_draft_id, sanitize_file_name, sanitize_name, WorkspaceMode,
};

#[test]
fn lines_start_one_after_the_other() {
    for text in ["", "a", "\n", "a\n世\n\nb"] {
        let starts = line_starts(text);
        assert_eq!(starts[0], 0);
        assert!(starts.windows(2).all(|pair| pair[0] < pair[1]));
        assert!(starts.iter().all(|start| *start <= text.len()));
        assert_eq!(starts.len(), text.split('\n').count());
    }
}

#[test]
fn wrapping_is_seen_and_undone() {
    for (text, range) in [
        ("世界 hello", 0..6),
        ("世界 hello", 7..7),
        ("世界 hello", 7..12),
        ("a ~~~ b", 2..5),
    ] {
        let (wrapped, again) = wrap_or_unwrap(text, range.clone(), "~~", "~~");
        assert!(selection_has_wrap(&wrapped, again.clone(), "~~", "~~"));
        assert!(inline_format_state(&wrapped, again.clone()).strike);
        assert!(wrapped.is_char_boundary(again.start) && wrapped.is_char_boundary(again.end));
        let (back, range_back) = wrap_or_unwrap(&wrapped, again, "~~", "~~");
        assert_eq!(back, text);
        assert_eq!(range_back, range);
    }
    assert_eq!(wrap_or_unwrap("*", 0..1, "*", "*"), ("***".to_owned(), 0..3));
    assert_eq!(wrap_or_unwrap("***", 0..3, "*", "*"), ("*".to_owned(), 0..1));
}

#[test]
fn no_marker_means_no_format() {
    let state = inline_format_state("plain text", 3..5);
    assert!(!state.bold && !state.italic && !state.strike && !state.code);
}

#[test]
fn the_last_heading_level_counts() {
    for level in 1..=6u8 {
        let (line, _) = set_heading_line("## Title", 0, level);
        assert_eq!(heading_level(&line), level);
        assert_eq!(set_heading_line(&line, 0, 2).0, "## Title");
    }
    let mut line = "plain".to_owned();
    for _ in 0..7 {
        line = cycle_heading_line(&line, 0).0;
    }
    assert_eq!(line, "plain");
}

#[test]
fn prefixes_replace_each_other_and_go_again() {
    for prefix in ["- ", "* ", "+ ", "- [ ] ", "> ", "1. "] {
        for at in 0..=4 {
            let (once, cursor) = toggle_block_prefix("word", prefix, at);
            assert_eq!(once, format!("{prefix}word"));
            assert_eq!(cursor, at + prefix.len());
            assert_eq!(toggle_block_prefix(&once, prefix, cursor), ("word".to_owned(), at));
        }
    }
    for line in ["> quote", "- quote", "- [x] quote", "12) quote"] {
        assert_eq!(toggle_block_prefix(line, "# ", 0).0, "# quote");
        assert_eq!(toggle_block_prefix(line, "+ ", 0).0, "+ quote");
    }
    assert_eq!(toggle_block_prefix("## quote", "# ", 0).0, "### quote");
    assert_eq!(toggle_block_prefix("###### quote", "# ", 0).0, "quote");
    let text = "one\n \ntwo\nrest";
    let (once, _) = toggle_prefixes(text, 0..8, "> ");
    assert_eq!(once, "> one\n \n> two\nrest");
    let (twice, cursor) = toggle_prefixes(&once, 0..12, "> ");
    assert_eq!(twice, text);
    assert!(cursor <= twice.len());
}

#[test]
fn cursors_stay_within_the_text() {
    let (next, cursor) = smart_markdown_enter("- 世 界\n", 5..5).unwrap();
    assert!(next.is_char_boundary(cursor));
    let (next, cursor) = linkify_selection("a 世 b", 2..5, "https://x").unwrap();
    assert_eq!(&next[..cursor], "a [世](https://x)");
    let (next, cursor) = set_heading_level("a\nb", 0..3, 6);
    assert_eq!(cursor, next.len());
}

#[test]
fn enter_puts_the_marker_at_the_cursor() {
    let text = "  - foo 世界 bar\n2) x";
    for at in 4..text.len() + 1 {
        let marker = match at {
            4..=18 => "\n  - ",
            22..=23 => "\n3) ",
            _ => "",
        };
        match smart_markdown_enter(text, at..at) {
            Some((next, cursor)) => {
                assert_eq!(next, format!("{}{marker}{}", &text[..at], &text[at..]));
                assert_eq!(cursor, at + marker.len());
            }
            None => assert!(marker.is_empty() || !text.is_char_boundary(at)),
        }
    }
}

#[test]
fn a_list_is_indented_and_outdented_as_a_whole() {
    for text in ["- a", "- a\n  \n 1. 世", "- a\n\n* b\n", "\n- a\n\n"] {
        let (nested, cursor) = adjust_markdown_list_indent(text, 0..text.len(), false).unwrap();
        assert_eq!(cursor, nested.len());
        assert_ne!(nested, text);
        assert_eq!(
            adjust_markdown_list_indent(&nested, 0..nested.len(), true),
            Some((text.to_owned(), text.len()))
        );
    }
}

#[test]
fn a_task_changes_in_one_place() {
    for (text, at, place) in [("世\n- [ ] a", 99, 7), ("\t- [x] 世", 0, 4), ("- [X] a\nb", 3, 3)] {
        let (next, cursor) = toggle_markdown_task(text, at).unwrap();
        assert_eq!(cursor, at.min(text.len()));
        let changed: Vec<usize> = (0..text.len())
            .filter(|i| text.as_bytes()[*i] != next.as_bytes()[*i])
            .collect();
        assert_eq!(changed, vec![place]);
        assert_eq!(next.len(), text.len());
        let (back, cursor_back) = toggle_markdown_task(&next, cursor).unwrap();
        assert_eq!(back, text.replace("[X]", "[x]"));
        assert_eq!(cursor_back, cursor);
    }
}

#[test]
fn the_outline_is_complete_and_in_order() {
    let text = "# a\ntext\n#b\n### c\n######";
    let outline = document_outline(text);
    let levels: Vec<u8> = outline.iter().map(|item| item.level).collect();
    assert_eq!(levels, vec![1, 3, 6]);
    assert!(outline.windows(2).all(|pair| pair[0].offset < pair[1].offset));
    for item in &outline {
        let line = text[item.offset..].split('\n').next().unwrap();
        assert_eq!(heading_level(line), item.level);
    }
}

#[test]
fn addresses_are_completed_once() {
    for value in [" www.a ", "https://a", "plain"] {
        let full = normalize_url(value);
        assert_eq!(normalize_url(&full), full);
        assert_eq!(looks_like_url(value), looks_like_url(&full));
    }
}

#[test]
fn code_units_tell_texts_apart() {
    assert_ne!(utf16_units("𝄞"), utf16_units("𝄟"));
    assert_ne!(utf16_units("a"), utf16_units("ab"));
}

#[test]
fn nothing_blank_is_shown() {
    let blocks = parse_blocks("> \n\n- \n\n&nbsp;\n\n<!-- -->\n\ntext\n\n1. \n\n   - x");
    for block in &blocks {
        match block {
            Block::Paragraph(text) | Block::Quote(text) | Block::Html(text) => {
                assert!(!text.trim().is_empty())
            }
            Block::Bullet { text, .. } | Block::Numbered { text, .. } => {
                assert!(!text.trim().is_empty())
            }
            _ => {}
        }
    }
    assert!(parse_inline("**a**[](u)![](v)").iter().all(|piece| !piece.text.is_empty()));
}

#[test]
fn preview_and_export_show_the_same_text() {
    let markdown = "a **b `c`** [d](u) *e*";
    let plain = strip_inline(markdown);
    let mut shown = String::new();
    for segment in inline_preview(markdown) {
        match segment {
            InlineSegment::Text { text, runs } => {
                assert_eq!(runs.first().unwrap().start, 0);
                assert_eq!(runs.last().unwrap().end, text.len());
                assert!(runs.windows(2).all(|pair| pair[0].end == pair[1].start));
                shown.push_str(&text);
            }
            InlineSegment::Link { text, .. } => shown.push_str(&text),
            InlineSegment::Image { .. } => {}
        }
    }
    assert_eq!(shown, plain);
    let mut exported = String::new();
    for part in rich_text_of_pieces(&parse_inline(markdown)) {
        exported.push_str(part.get("text").unwrap().get("content").unwrap().as_str().unwrap());
    }
    assert_eq!(exported, plain);
}

#[test]
fn escaped_text_comes_out_of_its_tag() {
    let value = "<a href=\"x\">'&amp;'</a>";
    let escaped = xml_escape(value);
    assert!(!escaped.contains(['<', '>', '"', '\'']));
    let plain = escaped
        .replace("&lt;", "<")
        .replace("&gt;", ">")
        .replace("&quot;", "\"")
        .replace("&apos;", "'")
        .replace("&amp;", "&");
    assert_eq!(plain, value);
    let xml = format!("<x><string>{escaped}</string></x>");
    assert_eq!(extract_xml_tag(&xml, "string").unwrap(), escaped);
}

#[test]
fn titles_have_one_to_a_hundred_characters() {
    for markdown in ["", "# ", "text", "#  \n\nx"] {
        let title = document_title(markdown);
        assert!((1..=100).contains(&title.chars().count()));
    }
    assert_eq!(document_title(&"长".repeat(300)).chars().count(), 100);
}

#[test]
fn publications_end_and_are_signed() {
    let config = NotionConfig { token: "t".into(), parent_page_id: "p".into() };
    let (mut publish, request) = NotionPublish::start(&config, "T", "x").unwrap();
    let mut requests = vec![request];
    let replies = [
        (404, ""),
        (404, ""),
        (200, "{}"),
        (200, r#"{"properties":{"N":{"type":"title"}}}"#),
        (200, r#"{"id":"i","url":"u"}"#),
    ];
    let mut done = false;
    for (status, body) in replies {
        assert!(!done);
        match publish.resume(HttpReply::Response { status, body: body.as_bytes().to_vec() }) {
            NotionStep::Send(next) => requests.push(next),
            NotionStep::Done(_) => done = true,
            NotionStep::Failed(message) => panic!("{}", message),
        }
    }
    assert!(done);
    assert_eq!(publish.stage, NotionStage::Finished);
    assert_eq!(requests.len(), 5);
    for request in requests {
        assert!(request.uri.starts_with("https://api.notion.com/v1/"));
        assert_eq!(request.headers[0].value, "Bearer t");
    }
}

#[test]
fn line_endings_are_normal_once() {
    let normal = normalize_newlines("a\r\n\rb\n\r".to_owned());
    assert!(!normal.contains('\r'));
    assert_eq!(normalize_newlines(normal.clone()), normal);
}

#[test]
fn gbk_files_stay_gbk() {
    let bytes = disk_bytes("中文\n文", "\r\n", FileEncoding::Gbk).unwrap();
    let document = decode_markdown(&bytes).unwrap();
    assert_eq!(document.encoding, FileEncoding::Gbk);
    assert_eq!(document.line_ending, "\r\n");
    assert_eq!(document.content, "中文\n文");
    assert_eq!(
        disk_bytes(&document.content, &document.line_ending, document.encoding).unwrap(),
        bytes
    );
}

#[test]
fn a_file_of_two_line_endings_comes_out_with_one() {
    let document = decode_markdown(b"a\r\nb\nc").unwrap();
    assert_eq!(
        disk_bytes(&document.content, &document.line_ending, document.encoding).unwrap(),
        b"a\r\nb\r\nc".to_vec()
    );
}

#[test]
fn names_differ_and_stay() {
    assert_ne!(media_candidate("a.png", 1), media_candidate("a.png", 2));
    assert_ne!(media_candidate("a.png", 2), media_candidate("a.png", 3));
    assert_ne!(new_draft_id(1, 2), new_draft_id(1, 3));
    let name = sanitize_file_name("a*b?.png");
    assert_eq!(sanitize_name(Some(name.clone())), name);
    for path in ["", "/", "..", "a/..", ".", "a/", "a//", "a/.", "x/a:b", "...", "C:\\a.png", " / "] {
        let name = sanitize_file_name(path);
        assert!(!name.trim().is_empty());
        assert!(!name.contains(['<', '>', ':', '"', '/', '\\', '|', '?', '*']));
        assert_eq!(sanitize_file_name(&name), name);
    }
}

#[test]
fn states_keep_their_promises() {
    let mut state = EditorState::new("x", WorkspaceMode::Edit, false, false);
    for _ in 0..3 {
        state.cycle_workspace();
    }
    assert_eq!(state.workspace_mode, WorkspaceMode::Edit);
    state.toggle_settings();
    state.toggle_settings();
    assert_eq!(state.status, "就绪 · Markdown 模式");
    assert_eq!(state.begin_publish(PublishKind::Notion, true, ""), PublishStart::Send);
    let status = state.status.clone();
    assert_eq!(state.begin_publish(PublishKind::Typecho, true, ""), PublishStart::Busy);
    assert_eq!(state.status, status);
}

#[test]
fn the_first_tab_offers_both_places() {
    for bits in 0..4 {
        let state = RibbonState {
            preview: false,
            settings_visible: false,
            notion_configured: bits & 1 == 1,
            typecho_configured: bits & 2 == 2,
        };
        let commands: Vec<RibbonCommand> = ribbon(RibbonTab::Home, state)
            .iter()
            .flat_map(|group| group.columns.iter().flatten().map(|button| button.command))
            .collect();
        assert!(commands.contains(&RibbonCommand::PublishNotion));
        assert!(commands.contains(&RibbonCommand::PublishTypecho));
    }
}
