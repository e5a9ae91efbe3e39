use open_live_writer::document::{FileEncoding, LoadedDocument};
use open_live_writer::editing::OutlineItem;
use open_live_writer::editor::{
    answer_action, effective_notion_config, effective_typecho_config, entered_settings,
    fills_field, image_snippet, is_markdown_extension, pasted_image_name,
    publish_title, save_as_name, settings_hint, test_failure, test_message, window_title, word_status,
    AnswerAction, DiscardDecision, EditorDialog, EditorState, PublishKind, PublishStart, Workspace,
};
use open_live_writer::input::{
    current_line, document_edit, link_fields, selected_text, PendingText,
};
use open_live_writer::markdown::{parse_inline, Block};
use open_live_writer::names::PreviewImage;
use open_live_writer::preview::{
    code_label, heading_size, inline_preview, inline_segments_of, markdown_preview, outline_label,
    preview_block, preview_blocks, InlineSegment, PreviewBlock,
};
use open_live_writer::publishing::{NotionConfig, StoredPublishSettings, TypechoConfig};
use open_live_writer::ribbon::{
    ribbon, text_command, ButtonSize, RibbonCommand, RibbonState, RibbonTab, TextCommand,
};
use open_live_writer::storage::{DocumentMeta, WorkspaceMode};

fn editor() -> EditorState {
    EditorState::new("start", WorkspaceMode::Split, false, false)
}

#[test]
fn a_change_makes_the_document_dirty() {
    let mut state = editor();
    assert_eq!(state.status, "就绪 · Markdown 模式");
    assert_eq!(state.observe_content("start"), None);
    assert!(!state.dirty);
    let generation = state.observe_content("more").unwrap();
    assert!(state.dirty);
    assert_eq!(state.status, "正在编辑 · 尚未保存");
    assert!(!state.preview_due(generation + 1, "x"));
    assert!(state.preview_due(generation, "more"));
    assert_eq!(state.preview_content("field"), "more");
    assert!(state.backup_due("more"));
    state.backed_up("more");
    assert!(!state.backup_due("more"));
    assert_eq!(state.give_up_document(), DiscardDecision::Ask);
    assert!(!state.may_close());
    state.saved("more", "a.md");
    assert_eq!(state.status, "已保存 · a.md");
    assert!(state.may_close());
    assert_eq!(state.give_up_document(), DiscardDecision::Proceed);
}

#[test]
fn saving_hides_the_settings() {
    let mut state = editor();
    state.toggle_settings();
    let status = state.status.clone();
    state.hide_settings();
    assert!(!state.settings_visible);
    assert_eq!(state.status, status);
    assert_eq!(settings_hint(true), "环境变量优先于这里保存的凭据。");
    assert_eq!(settings_hint(false), "凭据仅保存到系统安全存储。");
}

#[test]
fn documents_replace_each_other() {
    let mut state = editor();
    state.observe_content("x");
    let meta = DocumentMeta { typecho_post_id: Some("7".into()), ..DocumentMeta::default() };
    state.replace_document(
        LoadedDocument::new("a\r\nb".into(), FileEncoding::Utf16Le),
        true,
        meta,
    );
    assert!(!state.dirty);
    assert!(state.has_path);
    assert_eq!(state.line_ending, "\r\n");
    assert_eq!(state.file_encoding, FileEncoding::Utf16Le);
    assert_eq!(state.status, "已加载 · Markdown");
    assert_eq!(state.last_observed_content, "a\nb");
    state.restore_autosave("c".into());
    assert!(state.dirty);
    assert!(!state.has_path);
    assert_eq!(state.status, "已恢复自动备份 · 尚未保存");
    state.new_document_now();
    assert_eq!(state.status, "新文章 · 尚未保存");
    assert_eq!(state.last_observed_content, "");
    state.open_draft("d".into(), "D");
    assert_eq!(state.status, "已打开草稿 · D");
    state.show_drafts(false);
    assert_eq!(state.status, "暂无本地草稿");
    state.show_drafts(true);
    assert_eq!(state.dialog, EditorDialog::Drafts);
    state.draft_saved("d", "1.md");
    assert_eq!(state.status, "草稿已保存 · 1.md · 尚未保存为文件");
    state.draft_failed("e");
    assert_eq!(state.status, "草稿保存失败：e");
    state.save_failed("e");
    assert_eq!(state.status, "保存失败：e");
    state.media_relocated("z");
    assert_eq!(state.last_observed_content, "z");
}

#[test]
fn answers_lead_to_actions() {
    assert_eq!(answer_action(Some(0), true), AnswerAction::Save);
    assert_eq!(answer_action(Some(0), false), AnswerAction::SaveAs);
    assert_eq!(answer_action(Some(1), true), AnswerAction::Discard);
    assert_eq!(answer_action(Some(2), true), AnswerAction::Stay);
    assert_eq!(answer_action(None, true), AnswerAction::Stay);
    let mut state = editor();
    state.observe_content("x");
    state.confirm_close();
    assert!(state.may_close());
}

#[test]
fn the_window_shows_modes_and_settings() {
    let mut state = editor();
    state.cycle_workspace();
    assert_eq!(state.workspace_mode, WorkspaceMode::Preview);
    assert!(state.preview);
    assert_eq!(state.status, "预览 模式");
    state.toggle_settings();
    assert_eq!(state.status, "发布设置 · 环境变量优先，凭据保存在系统安全存储");
    state.close_settings();
    assert_eq!(state.status, "预览模式 · Markdown 已渲染");
    state.close_settings();
    state.jump_to_text();
    assert_eq!(state.workspace_mode, WorkspaceMode::Split);
    state.toggle_focus();
    assert_eq!(state.status, "专注模式");
    state.toggle_focus();
    assert_eq!(state.status, "已退出专注模式");
    state.toggle_outline();
    assert!(state.outline_visible);
    state.set_workspace_mode(WorkspaceMode::Edit);
    state.observe_content("ab c");
    let label = state.document_label(None);
    assert_eq!(label, "未命名文章.md *");
    assert_eq!(window_title(&label), "未命名文章.md * — Open Live Writer");
    assert_eq!(
        state.status_line(&label, "ab c", Some(5)),
        "未命名文章.md * · 编辑 · 3 字 · backup 5"
    );
    assert_eq!(state.status_line("a", "", None), "a · 编辑 · 0 字");
    assert_eq!(word_status("世 界"), "2 字");
}

#[test]
fn dialogs_open_and_close() {
    let mut state = editor();
    state.show_dialog(EditorDialog::Table);
    state.choose_table(1, 1);
    assert_eq!(state.insert_chosen_table(), "| 列 1 |\n| --- |\n| 内容 |");
    assert_eq!(state.dialog, EditorDialog::Closed);
    assert_eq!(state.status, "已插入表格");
    state.show_video_dialog();
    assert_eq!(state.dialog, EditorDialog::Link);
    assert_eq!(state.confirm_link("a", "b"), "[a](b)");
    assert_eq!(state.status, "已插入链接");
    state.show_recent();
    state.close_dialog();
    state.edited("e");
    state.chosen("c");
    state.set_status("s");
    assert_eq!(state.status, "s");
}

#[test]
fn one_publication_at_a_time() {
    let mut state = editor();
    assert!(state.open_publish_dialog(PublishKind::Typecho));
    assert!(!state.publish_update_existing);
    assert_eq!(state.confirm_publish(), Some(PublishKind::Typecho));
    assert_eq!(state.confirm_publish(), None);
    assert_eq!(
        state.begin_publish(PublishKind::Typecho, false, ""),
        PublishStart::CopyAndShowSettings
    );
    assert_eq!(state.status, "未配置 Typecho，请先填写发布设置");
    assert_eq!(
        state.begin_publish(PublishKind::Notion, false, ""),
        PublishStart::ShowSettings
    );
    assert_eq!(
        state.begin_publish(PublishKind::Notion, true, "！"),
        PublishStart::Send
    );
    assert_eq!(state.status, "正在发布到 Notion…！");
    assert_eq!(
        state.begin_publish(PublishKind::Typecho, true, ""),
        PublishStart::Busy
    );
    assert!(!state.open_publish_dialog(PublishKind::Notion));
    assert_eq!(state.status, "正在发布，请稍候");
    state.notion_published("id", "url", "！");
    assert_eq!(state.status, "已发布到 Notion！ · url");
    assert_eq!(state.document_meta.notion_page_id.as_deref(), Some("id"));
    assert_eq!(state.existing_post(), None);
    state.typecho_published("9", "");
    assert_eq!(state.status, "已提交到 Typecho · 文章 ID：9");
    state.open_publish_dialog(PublishKind::Typecho);
    assert_eq!(state.existing_post().as_deref(), Some("9"));
    assert_eq!(state.publish_failed(PublishKind::Typecho, "e"), "Typecho 发布失败：e");
    assert!(!state.publishing);
}

#[test]
fn the_dialog_to_publish_shows_what_is_known() {
    let mut state = editor();
    let dialog = state.publish_dialog(PublishKind::Notion, false, 0);
    assert_eq!(dialog.title, "发布到 Notion");
    assert_eq!(dialog.update_line, None);
    assert_eq!(dialog.public_line, None);
    assert_eq!(
        dialog.settings_line.as_deref(),
        Some("尚未配置。可以复制 Markdown，或打开设置。")
    );
    assert_eq!(dialog.confirm, None);
    state.typecho_published("9", "");
    state.toggle_update_existing();
    state.toggle_public();
    let dialog = state.publish_dialog(PublishKind::Typecho, true, 2);
    assert_eq!(dialog.update_line.as_deref(), Some("[x] 更新已有文章 (9)"));
    assert_eq!(dialog.public_line.as_deref(), Some("[ ] 保存为草稿"));
    assert_eq!(
        dialog.image_line.as_deref(),
        Some("含 2 处本地/相对图片，发布后可能无法直接显示。")
    );
    assert_eq!(dialog.confirm.as_deref(), Some("发布"));
    state.show_settings();
    assert_eq!(state.workspace(), Workspace::Settings);
    state.close_settings();
    assert_eq!(state.workspace(), Workspace::Split);
}

fn labels(tab: RibbonTab, state: RibbonState) -> Vec<&'static str> {
    let mut labels = Vec::new();
    for group in ribbon(tab, state) {
        for column in &group.columns {
            for button in column {
                labels.push(button.label);
            }
        }
    }
    labels
}

#[test]
fn the_ribbon_offers_commands_by_tab() {
    let state = RibbonState {
        preview: false,
        settings_visible: false,
        notion_configured: false,
        typecho_configured: true,
    };
    let home = ribbon(RibbonTab::Home, state);
    assert_eq!(home.len(), 6);
    assert_eq!(home[1].label, "发布");
    assert_eq!(home[1].columns[0][0].label, "Typecho");
    assert!(!home[1].columns[0][0].badged);
    assert_eq!(home[1].columns[1][0].command, RibbonCommand::PublishNotion);
    assert_eq!(home[2].columns[0][0].size, ButtonSize::Compact);
    let bare = RibbonState { typecho_configured: false, preview: true, settings_visible: true, ..state };
    let home = ribbon(RibbonTab::Home, bare);
    assert_eq!(home[1].columns[0][0].label, "Notion");
    assert!(home[1].columns[0][0].badged);
    assert_eq!(home[5].columns[0][0].label, "编辑");
    assert_eq!(
        labels(RibbonTab::Insert, bare),
        vec![
            "标题", "项目列表", "待办清单", "引用", "代码", "删除线", "Notion 旁注", "图片",
            "超链接", "视频", "表格", "分隔线", "返回编辑"
        ]
    );
    assert_eq!(
        labels(RibbonTab::Blog, state),
        vec!["Notion", "Typecho", "打开草稿", "保存草稿", "设置", "预览"]
    );
    assert_eq!(
        labels(RibbonTab::File, state),
        vec!["新建", "打开", "保存", "打开草稿", "保存草稿", "发布设置"]
    );
}

#[test]
fn commands_for_text_say_what_they_do() {
    assert_eq!(
        text_command(RibbonCommand::Bold),
        Some(TextCommand::Wrap { marker: "**", message: "已插入粗体 Markdown" })
    );
    assert_eq!(
        text_command(RibbonCommand::Tasks),
        Some(TextCommand::Prefix { prefix: "- [ ] ", message: "已切换待办事项" })
    );
    assert_eq!(
        text_command(RibbonCommand::Aside),
        Some(TextCommand::Insert {
            text: "\n<aside>💡 提示</aside>\n",
            message: "已插入 Notion 旁注",
        })
    );
    assert_eq!(text_command(RibbonCommand::Undo), None);
}

#[test]
fn blocks_come_to_the_preview() {
    let blocks = markdown_preview(
        "## a\n\n3. b\n\n- c\n\n- [x] d\n\n<aside></aside>\n\n```rust\ne\n```\n\n![f](g.png)\n\n| h |\n| --- |\n| i |\n\n---",
        true,
    );
    match &blocks[0] {
        PreviewBlock::Heading { size, content } => {
            assert_eq!(*size, 23);
            assert_eq!(content.len(), 1);
        }
        other => panic!("unexpected {:?}", other),
    }
    assert!(matches!(&blocks[1], PreviewBlock::Item { marker, depth: 0, .. } if marker == "3. "));
    assert!(matches!(&blocks[2], PreviewBlock::Item { marker, .. } if marker == "• "));
    assert!(matches!(&blocks[3], PreviewBlock::Task { checked: true, .. }));
    match &blocks[4] {
        PreviewBlock::Aside(content) => match &content[0] {
            InlineSegment::Text { text, .. } => assert_eq!(text, "旁注"),
            other => panic!("unexpected {:?}", other),
        },
        other => panic!("unexpected {:?}", other),
    }
    assert_eq!(
        blocks[5],
        PreviewBlock::Code { label: "rust".into(), text: "e".into() }
    );
    assert_eq!(
        blocks[6],
        PreviewBlock::Image {
            place: PreviewImage::Beside("g.png".into()),
            alt: "f".into(),
        }
    );
    match &blocks[7] {
        PreviewBlock::Table { headers, rows } => {
            assert_eq!(headers.len(), 1);
            assert_eq!(rows.len(), 1);
        }
        other => panic!("unexpected {:?}", other),
    }
    assert_eq!(blocks[8], PreviewBlock::Divider);
    assert!(markdown_preview("", false).is_empty());
    assert_eq!(
        preview_block(&Block::Html("<b>".into()), false),
        PreviewBlock::Html("<b>".into())
    );
    assert_eq!(preview_blocks(&vec![Block::Divider], false).len(), 1);
}

#[test]
fn settings_of_the_environment_come_first() {
    let settings = entered_settings(" t ", "p", " u ", "n", " w ");
    assert_eq!(settings.notion_token, "t");
    assert_eq!(settings.typecho_password, " w ");
    let env = NotionConfig { token: "e".into(), parent_page_id: "f".into() };
    assert_eq!(effective_notion_config(Some(env), &settings).unwrap().token, "e");
    assert_eq!(effective_notion_config(None, &settings).unwrap().token, "t");
    assert!(effective_notion_config(None, &StoredPublishSettings::default()).is_none());
    let env = TypechoConfig { xmlrpc_url: "x".into(), username: "y".into(), password: "z".into() };
    assert_eq!(effective_typecho_config(Some(env), &settings).unwrap().xmlrpc_url, "x");
    assert_eq!(effective_typecho_config(None, &settings).unwrap().xmlrpc_url, "u");
    assert!(fills_field("", "a"));
    assert!(!fills_field("b", "a"));
    assert!(!fills_field("", ""));
    assert_eq!(publish_title(" a ", "# b"), "a");
    assert_eq!(publish_title(" ", "# b"), "b");
    assert_eq!(test_message(PublishKind::Notion, true, "n"), "Notion OK (env): n");
    assert_eq!(test_message(PublishKind::Typecho, false, "n"), "Typecho OK: n");
    assert_eq!(test_failure(PublishKind::Notion, "e"), "Notion test failed: e");
}

#[test]
fn small_texts_of_the_editor() {
    assert_eq!(image_snippet("u"), "![图片](u)");
    assert_eq!(pasted_image_name(5, "png"), "paste-5.png");
    assert!(is_markdown_extension(Some("MD")));
    assert!(!is_markdown_extension(Some("txt")));
    assert_eq!(save_as_name(Some("a.md"), "# b"), "a.md");
    assert_eq!(save_as_name(None, "# b"), "b.md");
    assert_eq!(heading_size(1), 28);
    assert_eq!(heading_size(9), 17);
    assert_eq!(code_label(&None), "code");
    assert_eq!(code_label(&Some("rust".into())), "rust");
    let item = OutlineItem { level: 2, title: String::new(), offset: 0 };
    assert_eq!(outline_label(&item), "H2");
}

#[test]
fn texts_wait_for_the_field() {
    let mut pending = PendingText::new();
    pending.queue_insert("a");
    pending.queue_insert("b");
    assert_eq!(pending.take_insert().as_deref(), Some("ab"));
    pending.queue_insert("c");
    pending.set_document_content("d");
    assert_eq!(pending.take_insert(), None);
    assert_eq!(pending.take_content(), Some(("d".to_owned(), true)));
    assert_eq!(pending.take_content(), None);
    pending.set_content("e");
    assert_eq!(pending.take_content(), Some(("e".to_owned(), false)));
}

#[test]
fn edits_and_selections_of_the_field() {
    assert_eq!(document_edit("a", "a", 0), None);
    assert_eq!(document_edit("a", "bc", 9), Some(2));
    assert_eq!(current_line("a\n世\nb", 3), "世");
    assert_eq!(selected_text("a世b", 1..4), "世");
    assert_eq!(selected_text("a", 0..9), "");
    assert_eq!(
        link_fields("text", "www.x"),
        ("text".to_owned(), "https://www.x".to_owned())
    );
    assert_eq!(
        link_fields("http://a", "b c"),
        (String::new(), "http://a".to_owned())
    );
    assert_eq!(link_fields("text", ""), ("text".to_owned(), String::new()));
}

#[test]
fn inline_text_comes_in_segments() {
    let segments = inline_preview("a **b** [l](u) c ![i](p)");
    assert_eq!(segments.len(), 4);
    match &segments[0] {
        InlineSegment::Text { text, runs } => {
            assert_eq!(text, "a b ");
            assert_eq!(runs.len(), 3);
            assert_eq!((runs[1].start, runs[1].end, runs[1].bold), (2, 3, true));
            assert_eq!((runs[2].start, runs[2].end, runs[2].bold), (3, 4, false));
        }
        _ => panic!("not text"),
    }
    assert_eq!(
        segments[1],
        InlineSegment::Link { text: "l".into(), url: "u".into() }
    );
    assert_eq!(segments[3], InlineSegment::Image { url: "p".into() });
    assert_eq!(inline_segments_of(&parse_inline("")).len(), 0);
}
