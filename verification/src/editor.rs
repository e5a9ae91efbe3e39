//! The editor as a machine: what it knows of the document and of itself, and what each command and
//! each answer makes of it. Files, prompts and requests are the business of its caller.

use vstd::prelude::*;

use crate::document::{ending_of, normalized, FileEncoding, LoadedDocument};
use crate::editing::{
    character_count, clamp_of, link_text, markdown_link, markdown_table, table_lines,
    visible_count,
};
use crate::lines::unlines;
use crate::names::{default_markdown_filename, markdown_name};
use crate::number::{decimal, to_decimal};
use crate::publishing::{
    document_title, entered_notion, entered_typecho, notion_view, title_of, typecho_view,
    NotionConfig, StoredPublishSettings, TypechoConfig,
};
use crate::storage::{mode_label, next_mode, DocumentMeta, WorkspaceMode};
use crate::text::{
    ascii_lower, blank, chars_of, concat2, concat3, eq_ignore_case, is_blank, push_text, same_text,
    trim, trim_of,
};
use crate::tree::opt_text;

verus! {

/// The dialog that is open, if one is.
#[derive(Clone, Debug, PartialEq, Eq)]
pub enum EditorDialog {
    Closed,
    Link,
    Table,
    Heading,
    PublishNotion,
    PublishTypecho,
    Drafts,
    Recent,
    Lightbox { url: String, alt: String },
}

/// Where an article can be published.
#[derive(Clone, Copy, Debug, PartialEq, Eq, Structural)]
pub enum PublishKind {
    Notion,
    Typecho,
}

/// What waits for the answer to a question about unsaved changes.
#[derive(Clone, Copy, Debug, PartialEq, Eq, Structural)]
pub enum PendingOperation {
    New,
    Open,
    OpenDraft,
}

/// What the editor knows.
pub struct EditorState {
    /// The document has a file.
    pub has_path: bool,
    pub preview: bool,
    pub workspace_mode: WorkspaceMode,
    pub focus_mode: bool,
    pub outline_visible: bool,
    pub settings_visible: bool,
    pub dialog: EditorDialog,
    /// The document was changed since it was loaded or saved.
    pub dirty: bool,
    pub status: String,
    /// The text of the document as it was seen last.
    pub last_observed_content: String,
    /// The editor closes without asking.
    pub close_confirmed: bool,
    pub line_ending: String,
    pub file_encoding: FileEncoding,
    /// The text that was backed up or drafted last.
    pub last_draft_content: Option<String>,
    pub publishing: bool,
    pub publish_update_existing: bool,
    pub publish_public: bool,
    pub document_meta: DocumentMeta,
    pub preview_source: String,
    /// The number of the change that the preview waits for.
    pub preview_generation: u64,
    pub table_rows: usize,
    pub table_cols: usize,
}

/// The mathematical model of what is known of where a document was published.
pub ghost struct MetaView {
    pub notion_page_id: Option<Seq<char>>,
    pub notion_url: Option<Seq<char>>,
    pub typecho_post_id: Option<Seq<char>>,
}

pub open spec fn meta_view(meta: DocumentMeta) -> MetaView {
    MetaView {
        notion_page_id: opt_text(meta.notion_page_id),
        notion_url: opt_text(meta.notion_url),
        typecho_post_id: opt_text(meta.typecho_post_id),
    }
}

/// The mathematical model of what the editor knows.
pub ghost struct EditorView {
    pub has_path: bool,
    pub preview: bool,
    pub workspace_mode: WorkspaceMode,
    pub focus_mode: bool,
    pub outline_visible: bool,
    pub settings_visible: bool,
    pub dialog: EditorDialog,
    pub dirty: bool,
    pub status: Seq<char>,
    pub observed: Seq<char>,
    pub close_confirmed: bool,
    pub line_ending: Seq<char>,
    pub encoding: FileEncoding,
    pub last_draft: Option<Seq<char>>,
    pub publishing: bool,
    pub update_existing: bool,
    pub public: bool,
    pub meta: MetaView,
    pub preview_source: Seq<char>,
    pub generation: u64,
    pub table_rows: usize,
    pub table_cols: usize,
}

impl View for EditorState {
    type V = EditorView;

    open spec fn view(&self) -> EditorView {
        EditorView {
            has_path: self.has_path,
            preview: self.preview,
            workspace_mode: self.workspace_mode,
            focus_mode: self.focus_mode,
            outline_visible: self.outline_visible,
            settings_visible: self.settings_visible,
            dialog: self.dialog,
            dirty: self.dirty,
            status: self.status@,
            observed: self.last_observed_content@,
            close_confirmed: self.close_confirmed,
            line_ending: self.line_ending@,
            encoding: self.file_encoding,
            last_draft: opt_text(self.last_draft_content),
            publishing: self.publishing,
            update_existing: self.publish_update_existing,
            public: self.publish_public,
            meta: meta_view(self.document_meta),
            preview_source: self.preview_source@,
            generation: self.preview_generation,
            table_rows: self.table_rows,
            table_cols: self.table_cols,
        }
    }
}

/// The editor with a message.
pub open spec fn saying(e: EditorView, status: Seq<char>) -> EditorView {
    EditorView { status, ..e }
}

/// The number of the next change.
pub open spec fn next_generation(generation: u64) -> u64 {
    if generation == u64::MAX {
        0
    } else {
        (generation + 1) as u64
    }
}

/// The editor once its text has changed.
pub open spec fn after_change(e: EditorView, content: Seq<char>) -> EditorView {
    EditorView {
        observed: content,
        dirty: true,
        status: "正在编辑 · 尚未保存"@,
        generation: next_generation(e.generation),
        ..e
    }
}

/// The editor with another document in place of the one that it had.
pub open spec fn with_document(
    e: EditorView,
    content: Seq<char>,
    line_ending: Seq<char>,
    encoding: FileEncoding,
    has_path: bool,
    meta: MetaView,
) -> EditorView {
    EditorView {
        observed: content,
        line_ending,
        encoding,
        has_path,
        dirty: false,
        close_confirmed: false,
        last_draft: None,
        meta,
        preview_source: content,
        status: "已加载 · Markdown"@,
        ..e
    }
}

pub open spec fn no_meta() -> MetaView {
    MetaView { notion_page_id: None, notion_url: None, typecho_post_id: None }
}

/// The message that goes with what the editor shows.
pub open spec fn resting_status(e: EditorView) -> Seq<char> {
    if e.settings_visible {
        "发布设置 · 环境变量优先，凭据保存在系统安全存储"@
    } else if e.preview {
        if e.dirty {
            "预览模式 · 尚未保存"@
        } else {
            "预览模式 · Markdown 已渲染"@
        }
    } else if e.dirty {
        "正在编辑 · 尚未保存"@
    } else {
        "就绪 · Markdown 模式"@
    }
}

/// The editor with the settings shown or hidden.
pub open spec fn settings_toggled(e: EditorView) -> EditorView {
    let shown = EditorView { settings_visible: !e.settings_visible, ..e };
    saying(shown, resting_status(shown))
}

/// The editor in another mode.
pub open spec fn in_mode(e: EditorView, mode: WorkspaceMode) -> EditorView {
    EditorView {
        settings_visible: false,
        workspace_mode: mode,
        preview: mode == WorkspaceMode::Preview,
        ..e
    }
}

/// What to do with a command that gives up the document.
#[derive(Clone, Copy, Debug, PartialEq, Eq, Structural)]
pub enum DiscardDecision {
    /// Do it.
    Proceed,
    /// Ask about the unsaved changes first.
    Ask,
}

/// What to do with the answer to the question about unsaved changes.
#[derive(Clone, Copy, Debug, PartialEq, Eq, Structural)]
pub enum AnswerAction {
    /// Save to the file of the document, and go on if that succeeds.
    Save,
    /// Ask for a file, save to it, and go on if that succeeds.
    SaveAs,
    /// Go on without saving.
    Discard,
    /// Do nothing.
    Stay,
}

/// What to do with the answer: the first choice saves, the second discards, and all else stays.
pub open spec fn action_for(choice: Option<usize>, has_path: bool) -> AnswerAction {
    match choice {
        Some(n) => if n == 0 {
            if has_path {
                AnswerAction::Save
            } else {
                AnswerAction::SaveAs
            }
        } else if n == 1 {
            AnswerAction::Discard
        } else {
            AnswerAction::Stay
        },
        None => AnswerAction::Stay,
    }
}

/// What to do with the answer to the question about unsaved changes.
pub fn answer_action(choice: Option<usize>, has_path: bool) -> (r: AnswerAction)
    ensures
        r == action_for(choice, has_path),
{
    match choice {
        Some(n) => if n == 0 {
            if has_path {
                AnswerAction::Save
            } else {
                AnswerAction::SaveAs
            }
        } else if n == 1 {
            AnswerAction::Discard
        } else {
            AnswerAction::Stay
        },
        None => AnswerAction::Stay,
    }
}

/// What the command to publish does.
#[derive(Clone, Copy, Debug, PartialEq, Eq, Structural)]
pub enum PublishStart {
    /// Nothing: a publication is under way.
    Busy,
    /// Send the article.
    Send,
    /// Nothing but to show the settings.
    ShowSettings,
    /// Copy the article to the clipboard and show the settings.
    CopyAndShowSettings,
}

/// The name of a place to publish.
pub open spec fn kind_name(kind: PublishKind) -> Seq<char> {
    match kind {
        PublishKind::Notion => "Notion"@,
        PublishKind::Typecho => "Typecho"@,
    }
}

fn name_of(kind: PublishKind) -> (r: &'static str)
    ensures
        r@ == kind_name(kind),
{
    match kind {
        PublishKind::Notion => "Notion",
        PublishKind::Typecho => "Typecho",
    }
}

/// The editor once the command to publish was given, and what is to be done.
pub open spec fn publish_begun(
    e: EditorView,
    kind: PublishKind,
    configured: bool,
    warning: Seq<char>,
) -> (EditorView, PublishStart) {
    if e.publishing {
        (e, PublishStart::Busy)
    } else if configured {
        (
            EditorView {
                settings_visible: false,
                publishing: true,
                status: "正在发布到 "@ + kind_name(kind) + "…"@ + warning,
                ..e
            },
            PublishStart::Send,
        )
    } else {
        match kind {
            PublishKind::Notion => (
                EditorView {
                    settings_visible: true,
                    status: "未配置 Notion，请先填写发布设置；也可复制 Markdown"@,
                    ..e
                },
                PublishStart::ShowSettings,
            ),
            PublishKind::Typecho => (
                EditorView {
                    settings_visible: true,
                    status: "未配置 Typecho，请先填写发布设置"@,
                    ..e
                },
                PublishStart::CopyAndShowSettings,
            ),
        }
    }
}

/// The editor once the dialog to publish was asked for.
pub open spec fn publish_dialog_opened(e: EditorView, kind: PublishKind) -> EditorView {
    if e.publishing {
        saying(e, "正在发布，请稍候"@)
    } else {
        EditorView {
            settings_visible: false,
            update_existing: match kind {
                PublishKind::Notion => e.meta.notion_page_id is Some,
                PublishKind::Typecho => e.meta.typecho_post_id is Some,
            },
            public: true,
            dialog: match kind {
                PublishKind::Notion => EditorDialog::PublishNotion,
                PublishKind::Typecho => EditorDialog::PublishTypecho,
            },
            ..e
        }
    }
}

/// What the window shows below the ribbon.
#[derive(Clone, Copy, Debug, PartialEq, Eq, Structural)]
pub enum Workspace {
    Settings,
    Edit,
    Split,
    Preview,
}

/// The settings come before the document; the mode decides what is shown of that.
pub open spec fn workspace_of(e: EditorView) -> Workspace {
    if e.settings_visible {
        Workspace::Settings
    } else {
        match e.workspace_mode {
            WorkspaceMode::Edit => Workspace::Edit,
            WorkspaceMode::Split => Workspace::Split,
            WorkspaceMode::Preview => Workspace::Preview,
        }
    }
}

/// What the dialog to publish shows.
#[derive(Clone, Debug, PartialEq, Eq)]
pub struct PublishDialog {
    pub title: String,
    /// The choice between changing the article that exists and making another one.
    pub update_line: Option<String>,
    /// The choice between an article for all and a draft.
    pub public_line: Option<String>,
    /// What is said of images that others will not see.
    pub image_line: Option<String>,
    /// What is said where there are no settings.
    pub settings_line: Option<String>,
    /// The label of the button that publishes; without one there is a button for the settings.
    pub confirm: Option<String>,
}

/// The mathematical model of what the dialog to publish shows.
pub ghost struct PublishDialogView {
    pub title: Seq<char>,
    pub update_line: Option<Seq<char>>,
    pub public_line: Option<Seq<char>>,
    pub image_line: Option<Seq<char>>,
    pub settings_line: Option<Seq<char>>,
    pub confirm: Option<Seq<char>>,
}

impl View for PublishDialog {
    type V = PublishDialogView;

    open spec fn view(&self) -> PublishDialogView {
        PublishDialogView {
            title: self.title@,
            update_line: opt_text(self.update_line),
            public_line: opt_text(self.public_line),
            image_line: opt_text(self.image_line),
            settings_line: opt_text(self.settings_line),
            confirm: opt_text(self.confirm),
        }
    }
}

/// What the dialog to publish shows, with this number of images that others will not see.
pub open spec fn publish_dialog_of(
    e: EditorView,
    kind: PublishKind,
    configured: bool,
    images: nat,
) -> PublishDialogView {
    let existing = match kind {
        PublishKind::Notion => e.meta.notion_page_id,
        PublishKind::Typecho => e.meta.typecho_post_id,
    };
    PublishDialogView {
        title: "发布到 "@ + kind_name(kind),
        update_line: match existing {
            Some(id) => Some(
                (if e.update_existing {
                    "[x]"@
                } else {
                    "[ ]"@
                }) + " 更新已有文章 ("@ + id + ")"@,
            ),
            None => None,
        },
        public_line: match kind {
            PublishKind::Notion => None,
            PublishKind::Typecho => Some(
                if e.public {
                    "[x] 公开发布"@
                } else {
                    "[ ] 保存为草稿"@
                },
            ),
        },
        image_line: if images > 0 {
            Some("含 "@ + decimal(images) + " 处本地/相对图片，发布后可能无法直接显示。"@)
        } else {
            None
        },
        settings_line: if configured {
            None
        } else {
            Some("尚未配置。可以复制 Markdown，或打开设置。"@)
        },
        confirm: if configured {
            Some(
                if e.publishing {
                    "正在发布…"@
                } else {
                    "发布"@
                },
            )
        } else {
            None
        },
    }
}

/// The editor once its document was saved to a file.
pub open spec fn after_save(e: EditorView, content: Seq<char>, file: Seq<char>) -> EditorView {
    EditorView {
        has_path: true,
        dirty: false,
        observed: content,
        status: "已保存 · "@ + file,
        ..e
    }
}

/// The editor may quit or close without a question.
pub open spec fn closes_at_once(e: EditorView) -> bool {
    !e.dirty || e.close_confirmed
}

/// What to do with a command that gives up the document.
pub open spec fn discard_decision(e: EditorView) -> DiscardDecision {
    if e.dirty {
        DiscardDecision::Ask
    } else {
        DiscardDecision::Proceed
    }
}

/// The text is to be backed up.
pub open spec fn needs_backup(e: EditorView, content: Seq<char>) -> bool {
    e.dirty && e.last_draft != Some(content)
}

/// The editor once its text was backed up.
pub open spec fn after_backup(e: EditorView, content: Seq<char>) -> EditorView {
    EditorView { last_draft: Some(content), ..e }
}

/// The editor once its text was saved as a draft.
pub open spec fn after_draft(e: EditorView, content: Seq<char>, file: Seq<char>) -> EditorView {
    EditorView {
        last_draft: Some(content),
        status: "草稿已保存 · "@ + file + " · 尚未保存为文件"@,
        ..e
    }
}

/// The editor with a text that belongs to no file.
pub open spec fn with_loose_text(e: EditorView, content: Seq<char>) -> EditorView {
    with_document(
        e,
        normalized(content),
        ending_of(content),
        FileEncoding::Utf8,
        false,
        no_meta(),
    )
}

/// The editor with the text of the automatic backup.
pub open spec fn with_backup(e: EditorView, content: Seq<char>) -> EditorView {
    EditorView {
        dirty: true,
        status: "已恢复自动备份 · 尚未保存"@,
        ..with_loose_text(e, content)
    }
}

/// The editor with a draft.
pub open spec fn with_opened_draft(e: EditorView, content: Seq<char>, title: Seq<char>) -> EditorView {
    EditorView {
        dialog: EditorDialog::Closed,
        status: "已打开草稿 · "@ + title,
        ..with_loose_text(e, content)
    }
}

/// The editor with the preview of a text, if no later change has come.
pub open spec fn with_preview(e: EditorView, generation: u64, content: Seq<char>) -> EditorView {
    if e.generation == generation {
        EditorView { preview_source: content, ..e }
    } else {
        e
    }
}

/// The text that the preview shows.
pub open spec fn previewed_text(e: EditorView, content: Seq<char>) -> Seq<char> {
    if e.preview_source.len() == 0 {
        content
    } else {
        e.preview_source
    }
}

/// The place that the dialog publishes to, if it is about that.
pub open spec fn place_of_dialog(dialog: EditorDialog) -> Option<PublishKind> {
    match dialog {
        EditorDialog::PublishNotion => Some(PublishKind::Notion),
        EditorDialog::PublishTypecho => Some(PublishKind::Typecho),
        _ => None,
    }
}

/// The post to change, if one is to be changed.
pub open spec fn post_to_change(e: EditorView) -> Option<Seq<char>> {
    if e.update_existing {
        e.meta.typecho_post_id
    } else {
        None
    }
}

/// The editor once its article is on Notion.
pub open spec fn on_notion(
    e: EditorView,
    id: Seq<char>,
    url: Seq<char>,
    warning: Seq<char>,
) -> EditorView {
    EditorView {
        publishing: false,
        meta: MetaView { notion_page_id: Some(id), notion_url: Some(url), ..e.meta },
        status: "已发布到 Notion"@ + warning + " · "@ + url,
        ..e
    }
}

/// The editor once its article is on Typecho.
pub open spec fn on_typecho(e: EditorView, id: Seq<char>, warning: Seq<char>) -> EditorView {
    EditorView {
        publishing: false,
        meta: MetaView { typecho_post_id: Some(id), ..e.meta },
        status: "已提交到 Typecho"@ + warning + " · 文章 ID："@ + id,
        ..e
    }
}

/// The editor once the publication of its article failed.
pub open spec fn after_failure(e: EditorView, kind: PublishKind, error: Seq<char>) -> EditorView {
    EditorView { publishing: false, status: kind_name(kind) + " 发布失败："@ + error, ..e }
}

/// The editor with all but the document hidden or shown.
pub open spec fn focus_toggled(e: EditorView) -> EditorView {
    EditorView {
        focus_mode: !e.focus_mode,
        status: if e.focus_mode {
            "已退出专注模式"@
        } else {
            "专注模式"@
        },
        ..e
    }
}

/// The editor with the outline shown or hidden.
pub open spec fn outline_toggled(e: EditorView) -> EditorView {
    EditorView { outline_visible: !e.outline_visible, ..e }
}

/// The editor with the other choice between changing an article and making one.
pub open spec fn update_toggled(e: EditorView) -> EditorView {
    EditorView { update_existing: !e.update_existing, ..e }
}

/// The editor with the other choice between an article for all and a draft.
pub open spec fn public_toggled(e: EditorView) -> EditorView {
    EditorView { public: !e.public, ..e }
}

/// The editor with the text beside the preview.
pub open spec fn beside_preview(e: EditorView) -> EditorView {
    EditorView { workspace_mode: WorkspaceMode::Split, preview: false, ..e }
}

/// The editor with a first document.
pub open spec fn first_state(
    initial: Seq<char>,
    workspace_mode: WorkspaceMode,
    focus_mode: bool,
    outline_visible: bool,
) -> EditorView {
    EditorView {
        has_path: false,
        preview: workspace_mode == WorkspaceMode::Preview,
        workspace_mode,
        focus_mode,
        outline_visible,
        settings_visible: false,
        dialog: EditorDialog::Closed,
        dirty: false,
        status: "就绪 · Markdown 模式"@,
        observed: initial,
        close_confirmed: false,
        line_ending: "\n"@,
        encoding: FileEncoding::Utf8,
        last_draft: None,
        publishing: false,
        update_existing: false,
        public: true,
        meta: no_meta(),
        preview_source: initial,
        generation: 0,
        table_rows: 2,
        table_cols: 2,
    }
}

/// The editor in the next mode.
pub open spec fn in_next_mode(e: EditorView) -> EditorView {
    saying(
        in_mode(e, next_mode(e.workspace_mode)),
        mode_label(next_mode(e.workspace_mode)) + " 模式"@,
    )
}

/// The editor with the drafts shown, if there are any.
pub open spec fn with_drafts_shown(e: EditorView, any: bool) -> EditorView {
    if any {
        EditorView { dialog: EditorDialog::Drafts, ..e }
    } else {
        saying(e, "暂无本地草稿"@)
    }
}

/// The editor with the settings hidden.
pub open spec fn settings_closed(e: EditorView) -> EditorView {
    if e.settings_visible {
        settings_toggled(e)
    } else {
        e
    }
}

/// The line below the document.
pub open spec fn status_line_of(
    label: Seq<char>,
    mode: WorkspaceMode,
    content: Seq<char>,
    backup_at: Option<u64>,
) -> Seq<char> {
    label + " · "@ + mode_label(mode) + " · "@ + word_status_of(content) + (match backup_at {
        Some(secs) => " · backup "@ + decimal(secs as nat),
        None => Seq::empty(),
    })
}

/// The first of two values, where it is there, and else the second.
pub open spec fn first_some<T>(first: Option<T>, second: Option<T>) -> Option<T> {
    match first {
        Some(value) => Some(value),
        None => second,
    }
}

/// The title to publish under: the one that was entered, or that of the article.
pub open spec fn title_to_publish(entered: Seq<char>, markdown: Seq<char>) -> Seq<char> {
    if is_blank(entered) {
        title_of(markdown)
    } else {
        trim_of(entered)
    }
}

/// The text that shows an image.
pub open spec fn image_markdown(url: Seq<char>) -> Seq<char> {
    "![图片]("@ + url + ")"@
}

/// A file with this extension is a document.
pub open spec fn is_markdown(extension: Option<Seq<char>>) -> bool {
    match extension {
        Some(s) => ascii_lower(s) == ascii_lower("md"@),
        None => false,
    }
}

/// The name to offer when a document is saved under another name.
pub open spec fn other_name(file_name: Option<Seq<char>>, markdown: Seq<char>) -> Seq<char> {
    match file_name {
        Some(name) => name,
        None => markdown_name(title_of(markdown)),
    }
}

/// The line below the settings, by whether the environment configures a service.
pub fn settings_hint(from_env: bool) -> (r: &'static str)
    ensures
        r@ == if from_env {
            "环境变量优先于这里保存的凭据。"@
        } else {
            "凭据仅保存到系统安全存储。"@
        },
{
    if from_env {
        "环境变量优先于这里保存的凭据。"
    } else {
        "凭据仅保存到系统安全存储。"
    }
}

impl EditorState {
    /// The editor with a first document.
    pub fn new(
        initial: &str,
        workspace_mode: WorkspaceMode,
        focus_mode: bool,
        outline_visible: bool,
    ) -> (r: EditorState)
        ensures
            r@ == first_state(initial@, workspace_mode, focus_mode, outline_visible),
    {
        EditorState {
            has_path: false,
            preview: workspace_mode == WorkspaceMode::Preview,
            workspace_mode,
            focus_mode,
            outline_visible,
            settings_visible: false,
            dialog: EditorDialog::Closed,
            dirty: false,
            status: "就绪 · Markdown 模式".to_owned(),
            last_observed_content: initial.to_owned(),
            close_confirmed: false,
            line_ending: "\n".to_owned(),
            file_encoding: FileEncoding::Utf8,
            last_draft_content: None,
            publishing: false,
            publish_update_existing: false,
            publish_public: true,
            document_meta: DocumentMeta {
                notion_page_id: None,
                notion_url: None,
                typecho_post_id: None,
            },
            preview_source: initial.to_owned(),
            preview_generation: 0,
            table_rows: 2,
            table_cols: 2,
        }
    }

    /// Shows a message.
    pub fn set_status(&mut self, message: &str)
        ensures
            final(self)@ == saying(old(self)@, message@),
    {
        self.status = message.to_owned();
    }

    /// Closes the dialog.
    pub fn close_dialog(&mut self)
        ensures
            final(self)@ == (EditorView { dialog: EditorDialog::Closed, ..old(self)@ }),
    {
        self.dialog = EditorDialog::Closed;
    }

    /// Takes note of the text in the field. If it has changed, the preview is to follow, and the
    /// number of the change is returned.
    pub fn observe_content(&mut self, content: &str) -> (r: Option<u64>)
        ensures
            match r {
                Some(generation) => content@ != old(self)@.observed && final(self)@ == after_change(
                    old(self)@,
                    content@,
                ) && generation == final(self)@.generation,
                None => content@ == old(self)@.observed && final(self)@ == old(self)@,
            },
    {
        if same_text(content, &self.last_observed_content) {
            return None;
        }
        self.last_observed_content = content.to_owned();
        self.dirty = true;
        self.status = "正在编辑 · 尚未保存".to_owned();
        Some(self.schedule_preview())
    }

    /// Counts a change that the preview is to follow.
    pub fn schedule_preview(&mut self) -> (r: u64)
        ensures
            final(self)@ == (EditorView {
                generation: next_generation(old(self)@.generation),
                ..old(self)@
            }),
            r == final(self)@.generation,
    {
        self.preview_generation = if self.preview_generation == u64::MAX {
            0
        } else {
            self.preview_generation + 1
        };
        self.preview_generation
    }

    /// Shows a text in the preview, if no later change has come since it was noted.
    pub fn preview_due(&mut self, generation: u64, content: &str) -> (r: bool)
        ensures
            r == (old(self)@.generation == generation),
            final(self)@ == with_preview(old(self)@, generation, content@),
    {
        if self.preview_generation == generation {
            self.preview_source = content.to_owned();
            true
        } else {
            false
        }
    }

    /// Shows the next mode.
    pub fn cycle_workspace(&mut self)
        ensures
            final(self)@ == in_next_mode(old(self)@),
    {
        let mode = self.workspace_mode.cycle();
        self.set_workspace_mode(mode);
        self.status = concat2(mode.label(), " 模式");
    }

    /// Shows a mode.
    pub fn set_workspace_mode(&mut self, mode: WorkspaceMode)
        ensures
            final(self)@ == in_mode(old(self)@, mode),
    {
        self.settings_visible = false;
        self.workspace_mode = mode;
        self.preview = mode == WorkspaceMode::Preview;
    }

    /// Shows the text beside the preview, to go to a place in it.
    pub fn jump_to_text(&mut self)
        ensures
            final(self)@ == beside_preview(old(self)@),
    {
        self.workspace_mode = WorkspaceMode::Split;
        self.preview = false;
    }

    /// Hides or shows all but the document.
    pub fn toggle_focus(&mut self)
        ensures
            final(self)@ == focus_toggled(old(self)@),
    {
        self.focus_mode = !self.focus_mode;
        self.status = if self.focus_mode {
            "专注模式".to_owned()
        } else {
            "已退出专注模式".to_owned()
        };
    }

    /// Shows or hides the outline.
    pub fn toggle_outline(&mut self)
        ensures
            final(self)@ == outline_toggled(old(self)@),
    {
        self.outline_visible = !self.outline_visible;
    }

    /// Shows or hides the settings.
    pub fn toggle_settings(&mut self)
        ensures
            final(self)@ == settings_toggled(old(self)@),
    {
        self.settings_visible = !self.settings_visible;
        self.status = if self.settings_visible {
            "发布设置 · 环境变量优先，凭据保存在系统安全存储".to_owned()
        } else if self.preview {
            if self.dirty {
                "预览模式 · 尚未保存".to_owned()
            } else {
                "预览模式 · Markdown 已渲染".to_owned()
            }
        } else if self.dirty {
            "正在编辑 · 尚未保存".to_owned()
        } else {
            "就绪 · Markdown 模式".to_owned()
        };
    }

    /// Hides the settings.
    pub fn close_settings(&mut self)
        ensures
            final(self)@ == settings_closed(old(self)@),
    {
        if self.settings_visible {
            self.toggle_settings();
        }
    }

    /// Puts another document in place of the one that the editor has.
    pub fn replace_document(&mut self, document: LoadedDocument, has_path: bool, meta: DocumentMeta)
        ensures
            final(self)@ == with_document(
                old(self)@,
                document.content@,
                document.line_ending@,
                document.encoding,
                has_path,
                meta_view(meta),
            ),
    {
        let LoadedDocument { content, line_ending, encoding } = document;
        self.preview_source = content.clone();
        self.last_observed_content = content;
        self.line_ending = line_ending;
        self.file_encoding = encoding;
        self.has_path = has_path;
        self.dirty = false;
        self.close_confirmed = false;
        self.last_draft_content = None;
        self.document_meta = meta;
        self.status = "已加载 · Markdown".to_owned();
    }

    fn replace_with_text(&mut self, content: String)
        ensures
            final(self)@ == with_loose_text(old(self)@, content@),
    {
        let document = LoadedDocument::new(content, FileEncoding::Utf8);
        let meta = DocumentMeta { notion_page_id: None, notion_url: None, typecho_post_id: None };
        self.replace_document(document, false, meta);
    }

    /// Brings back the text of the automatic backup, which is still to be saved.
    pub fn restore_autosave(&mut self, content: String)
        ensures
            final(self)@ == with_backup(old(self)@, content@),
    {
        self.replace_with_text(content);
        self.dirty = true;
        self.status = "已恢复自动备份 · 尚未保存".to_owned();
    }

    /// Starts an empty document.
    pub fn new_document_now(&mut self)
        ensures
            final(self)@ == saying(
                with_loose_text(old(self)@, Seq::empty()),
                "新文章 · 尚未保存"@,
            ),
    {
        let none = String::new();
        assert(none@ =~= Seq::empty());
        self.replace_with_text(none);
        self.status = "新文章 · 尚未保存".to_owned();
    }

    /// Hides the settings, as a command does that saves the document or the draft.
    pub fn hide_settings(&mut self)
        ensures
            final(self)@ == (EditorView { settings_visible: false, ..old(self)@ }),
    {
        self.settings_visible = false;
    }

    /// Takes a command that gives up the document: with unsaved changes the user is asked first.
    pub fn give_up_document(&mut self) -> (r: DiscardDecision)
        ensures
            final(self)@ == (EditorView { settings_visible: false, ..old(self)@ }),
            r == discard_decision(old(self)@),
    {
        self.settings_visible = false;
        if self.dirty {
            DiscardDecision::Ask
        } else {
            DiscardDecision::Proceed
        }
    }

    /// Whether the editor may quit or close at once.
    pub fn may_close(&self) -> (r: bool)
        ensures
            r == closes_at_once(self@),
    {
        !self.dirty || self.close_confirmed
    }

    /// The user agreed to close.
    pub fn confirm_close(&mut self)
        ensures
            final(self)@ == (EditorView { close_confirmed: true, ..old(self)@ }),
    {
        self.close_confirmed = true;
    }

    /// The text of the document was changed by the editor itself before it was saved.
    pub fn media_relocated(&mut self, content: &str)
        ensures
            final(self)@ == (EditorView { observed: content@, ..old(self)@ }),
    {
        self.last_observed_content = content.to_owned();
    }

    /// The document was saved to a file.
    pub fn saved(&mut self, content: &str, file: &str)
        ensures
            final(self)@ == after_save(old(self)@, content@, file@),
    {
        self.has_path = true;
        self.dirty = false;
        self.last_observed_content = content.to_owned();
        self.status = concat2("已保存 · ", file);
    }

    /// The document could not be saved.
    pub fn save_failed(&mut self, error: &str)
        ensures
            final(self)@ == saying(old(self)@, "保存失败："@ + error@),
    {
        self.status = concat2("保存失败：", error);
    }

    /// Whether the text is to be backed up: it was changed, and not backed up or drafted as it is.
    pub fn backup_due(&self, content: &str) -> (r: bool)
        ensures
            r == needs_backup(self@, content@),
    {
        if !self.dirty {
            return false;
        }
        match &self.last_draft_content {
            Some(draft) => !same_text(draft, content),
            None => true,
        }
    }

    /// The text was backed up.
    pub fn backed_up(&mut self, content: &str)
        ensures
            final(self)@ == after_backup(old(self)@, content@),
    {
        self.last_draft_content = Some(content.to_owned());
    }

    /// The text was saved as a draft. It is still not saved to a file.
    pub fn draft_saved(&mut self, content: &str, file: &str)
        ensures
            final(self)@ == after_draft(old(self)@, content@, file@),
    {
        self.last_draft_content = Some(content.to_owned());
        self.status = concat3("草稿已保存 · ", file, " · 尚未保存为文件");
    }

    /// The text could not be saved as a draft.
    pub fn draft_failed(&mut self, error: &str)
        ensures
            final(self)@ == saying(old(self)@, "草稿保存失败："@ + error@),
    {
        self.status = concat2("草稿保存失败：", error);
    }

    /// Shows the drafts, if there are any.
    pub fn show_drafts(&mut self, any: bool)
        ensures
            final(self)@ == with_drafts_shown(old(self)@, any),
    {
        if any {
            self.dialog = EditorDialog::Drafts;
        } else {
            self.status = "暂无本地草稿".to_owned();
        }
    }

    /// Puts a draft in place of the document.
    pub fn open_draft(&mut self, content: String, title: &str)
        ensures
            final(self)@ == with_opened_draft(old(self)@, content@, title@),
    {
        self.replace_with_text(content);
        self.dialog = EditorDialog::Closed;
        self.status = concat2("已打开草稿 · ", title);
    }

    /// Opens a dialog that is not about publishing.
    pub fn show_dialog(&mut self, dialog: EditorDialog)
        ensures
            final(self)@ == (EditorView { settings_visible: false, dialog, ..old(self)@ }),
    {
        self.settings_visible = false;
        self.dialog = dialog;
    }

    /// Shows the recent files.
    pub fn show_recent(&mut self)
        ensures
            final(self)@ == (EditorView { dialog: EditorDialog::Recent, ..old(self)@ }),
    {
        self.dialog = EditorDialog::Recent;
    }

    /// Opens the dialog for the link to a video.
    pub fn show_video_dialog(&mut self)
        ensures
            final(self)@ == (EditorView {
                settings_visible: false,
                dialog: EditorDialog::Link,
                status: "插入视频链接"@,
                ..old(self)@
            }),
    {
        self.show_dialog(EditorDialog::Link);
        self.status = "插入视频链接".to_owned();
    }

    /// A text was changed or inserted by a command: the settings give way, and a message tells.
    pub fn edited(&mut self, message: &str)
        ensures
            final(self)@ == (EditorView {
                settings_visible: false,
                status: message@,
                ..old(self)@
            }),
    {
        self.settings_visible = false;
        self.status = message.to_owned();
    }

    /// A choice in a dialog was carried out: the dialog gives way, and a message tells.
    pub fn chosen(&mut self, message: &str)
        ensures
            final(self)@ == (EditorView {
                dialog: EditorDialog::Closed,
                status: message@,
                ..old(self)@
            }),
    {
        self.dialog = EditorDialog::Closed;
        self.status = message.to_owned();
    }

    /// Chooses the size of the table to insert.
    pub fn choose_table(&mut self, rows: usize, cols: usize)
        ensures
            final(self)@ == (EditorView { table_rows: rows, table_cols: cols, ..old(self)@ }),
    {
        self.table_rows = rows;
        self.table_cols = cols;
    }

    /// Closes the dialog with the table to insert.
    pub fn insert_chosen_table(&mut self) -> (r: String)
        ensures
            r@ == unlines(
                table_lines(
                    clamp_of(old(self)@.table_rows as int, 1, 8),
                    clamp_of(old(self)@.table_cols as int, 1, 8),
                ),
            ),
            final(self)@ == (EditorView {
                settings_visible: false,
                dialog: EditorDialog::Closed,
                status: "已插入表格"@,
                ..old(self)@
            }),
    {
        let table = markdown_table(self.table_rows, self.table_cols);
        self.dialog = EditorDialog::Closed;
        self.edited("已插入表格");
        table
    }

    /// Closes the dialog with the link to insert.
    pub fn confirm_link(&mut self, label: &str, url: &str) -> (r: String)
        ensures
            r@ == link_text(label@, url@),
            final(self)@ == (EditorView {
                dialog: EditorDialog::Closed,
                status: "已插入链接"@,
                ..old(self)@
            }),
    {
        self.chosen("已插入链接");
        markdown_link(label, url)
    }

    /// Opens the dialog to publish, unless a publication is under way. Returns whether it opened.
    pub fn open_publish_dialog(&mut self, kind: PublishKind) -> (r: bool)
        ensures
            final(self)@ == publish_dialog_opened(old(self)@, kind),
            r == !old(self)@.publishing,
    {
        if self.publishing {
            self.status = "正在发布，请稍候".to_owned();
            return false;
        }
        self.settings_visible = false;
        self.publish_update_existing = match kind {
            PublishKind::Notion => self.document_meta.notion_page_id.is_some(),
            PublishKind::Typecho => self.document_meta.typecho_post_id.is_some(),
        };
        self.publish_public = true;
        self.dialog = match kind {
            PublishKind::Notion => EditorDialog::PublishNotion,
            PublishKind::Typecho => EditorDialog::PublishTypecho,
        };
        true
    }

    /// What the dialog to publish shows, with this number of images that others will not see.
    pub fn publish_dialog(&self, kind: PublishKind, configured: bool, images: usize) -> (r:
        PublishDialog)
        ensures
            r@ == publish_dialog_of(self@, kind, configured, images as nat),
    {
        let existing = match kind {
            PublishKind::Notion => &self.document_meta.notion_page_id,
            PublishKind::Typecho => &self.document_meta.typecho_post_id,
        };
        let update_line = match existing {
            Some(id) => {
                let box_text = if self.publish_update_existing {
                    "[x]"
                } else {
                    "[ ]"
                };
                let mut line = concat3(box_text, " 更新已有文章 (", id);
                push_text(&mut line, ")");
                Some(line)
            },
            None => None,
        };
        let public_line = match kind {
            PublishKind::Notion => None,
            PublishKind::Typecho => if self.publish_public {
                Some("[x] 公开发布".to_owned())
            } else {
                Some("[ ] 保存为草稿".to_owned())
            },
        };
        let image_line = if images > 0 {
            Some(
                concat3(
                    "含 ",
                    &to_decimal(images as u64),
                    " 处本地/相对图片，发布后可能无法直接显示。",
                ),
            )
        } else {
            None
        };
        let settings_line = if configured {
            None
        } else {
            Some("尚未配置。可以复制 Markdown，或打开设置。".to_owned())
        };
        let confirm = if configured {
            if self.publishing {
                Some("正在发布…".to_owned())
            } else {
                Some("发布".to_owned())
            }
        } else {
            None
        };
        PublishDialog {
            title: concat2("发布到 ", name_of(kind)),
            update_line,
            public_line,
            image_line,
            settings_line,
            confirm,
        }
    }

    /// Chooses between changing the article that exists and making another one.
    pub fn toggle_update_existing(&mut self)
        ensures
            final(self)@ == update_toggled(old(self)@),
    {
        self.publish_update_existing = !self.publish_update_existing;
    }

    /// Chooses between an article for all and a draft.
    pub fn toggle_public(&mut self)
        ensures
            final(self)@ == public_toggled(old(self)@),
    {
        self.publish_public = !self.publish_public;
    }

    /// Leaves the dialog for the settings.
    pub fn show_settings(&mut self)
        ensures
            final(self)@ == (EditorView {
                dialog: EditorDialog::Closed,
                settings_visible: true,
                ..old(self)@
            }),
    {
        self.dialog = EditorDialog::Closed;
        self.settings_visible = true;
    }

    /// Closes the dialog, and says where to publish if it was about that.
    pub fn confirm_publish(&mut self) -> (r: Option<PublishKind>)
        ensures
            final(self)@ == (EditorView { dialog: EditorDialog::Closed, ..old(self)@ }),
            r == place_of_dialog(old(self)@.dialog),
    {
        let kind = match &self.dialog {
            EditorDialog::PublishNotion => Some(PublishKind::Notion),
            EditorDialog::PublishTypecho => Some(PublishKind::Typecho),
            _ => None,
        };
        self.dialog = EditorDialog::Closed;
        kind
    }

    /// Starts a publication, or says why there is none.
    pub fn begin_publish(&mut self, kind: PublishKind, configured: bool, warning: &str) -> (r:
        PublishStart)
        ensures
            (final(self)@, r) == publish_begun(old(self)@, kind, configured, warning@),
    {
        if self.publishing {
            return PublishStart::Busy;
        }
        if configured {
            self.settings_visible = false;
            self.publishing = true;
            let mut status = concat3("正在发布到 ", name_of(kind), "…");
            push_text(&mut status, warning);
            self.status = status;
            return PublishStart::Send;
        }
        self.settings_visible = true;
        match kind {
            PublishKind::Notion => {
                self.status = "未配置 Notion，请先填写发布设置；也可复制 Markdown".to_owned();
                PublishStart::ShowSettings
            },
            PublishKind::Typecho => {
                self.status = "未配置 Typecho，请先填写发布设置".to_owned();
                PublishStart::CopyAndShowSettings
            },
        }
    }

    /// The post to change, if one is to be changed.
    pub fn existing_post(&self) -> (r: Option<String>)
        ensures
            opt_text(r) == post_to_change(self@),
    {
        if !self.publish_update_existing {
            return None;
        }
        match &self.document_meta.typecho_post_id {
            Some(id) => Some(id.clone()),
            None => None,
        }
    }

    /// The article is on Notion.
    pub fn notion_published(&mut self, id: &str, url: &str, warning: &str)
        ensures
            final(self)@ == on_notion(old(self)@, id@, url@, warning@),
    {
        self.publishing = false;
        self.document_meta.notion_page_id = Some(id.to_owned());
        self.document_meta.notion_url = Some(url.to_owned());
        let mut status = concat3("已发布到 Notion", warning, " · ");
        push_text(&mut status, url);
        self.status = status;
    }

    /// The article is on Typecho.
    pub fn typecho_published(&mut self, id: &str, warning: &str)
        ensures
            final(self)@ == on_typecho(old(self)@, id@, warning@),
    {
        self.publishing = false;
        self.document_meta.typecho_post_id = Some(id.to_owned());
        let mut status = concat3("已提交到 Typecho", warning, " · 文章 ID：");
        push_text(&mut status, id);
        self.status = status;
    }

    /// The article could not be published. Returns the message.
    pub fn publish_failed(&mut self, kind: PublishKind, error: &str) -> (r: String)
        ensures
            final(self)@ == after_failure(old(self)@, kind, error@),
            r@ == final(self)@.status,
    {
        self.publishing = false;
        let message = concat3(name_of(kind), " 发布失败：", error);
        self.status = message.clone();
        message
    }

    /// What the window shows below the ribbon.
    pub fn workspace(&self) -> (r: Workspace)
        ensures
            r == workspace_of(self@),
    {
        if self.settings_visible {
            Workspace::Settings
        } else {
            match self.workspace_mode {
                WorkspaceMode::Edit => Workspace::Edit,
                WorkspaceMode::Split => Workspace::Split,
                WorkspaceMode::Preview => Workspace::Preview,
            }
        }
    }

    /// The text that the preview shows: the text in the field while there is none for the preview.
    pub fn preview_content(&self, content: &str) -> (r: String)
        ensures
            r@ == previewed_text(self@, content@),
    {
        if chars_of(&self.preview_source).len() == 0 {
            content.to_owned()
        } else {
            self.preview_source.clone()
        }
    }

    /// The title of the document: the name of its file, with a star while it is not saved.
    pub fn document_label(&self, file_name: Option<&str>) -> (r: String)
        ensures
            r@ == document_label_of(
                self@.dirty,
                match file_name {
                    Some(name) => Some(name@),
                    None => None,
                },
            ),
    {
        let name = match file_name {
            Some(name) => name.to_owned(),
            None => "未命名文章.md".to_owned(),
        };
        if self.dirty {
            concat2(&name, " *")
        } else {
            name
        }
    }

    /// The line below the document: its title, the mode, its length, and when it was backed up.
    pub fn status_line(&self, label: &str, content: &str, backup_at: Option<u64>) -> (r: String)
        ensures
            r@ == status_line_of(label@, self@.workspace_mode, content@, backup_at),
    {
        let mut out = concat3(label, " · ", self.workspace_mode.label());
        push_text(&mut out, " · ");
        push_text(&mut out, &word_status(content));
        match backup_at {
            Some(secs) => {
                let backup = concat2(" · backup ", &to_decimal(secs));
                push_text(&mut out, &backup);
            },
            None => {
                assert(out@ + Seq::empty() =~= out@);
            },
        }
        out
    }
}

/// The title of a document.
pub open spec fn document_label_of(dirty: bool, file_name: Option<Seq<char>>) -> Seq<char> {
    let name = match file_name {
        Some(name) => name,
        None => "未命名文章.md"@,
    };
    if dirty {
        name + " *"@
    } else {
        name
    }
}

/// The title of the window.
pub fn window_title(label: &str) -> (r: String)
    ensures
        r@ == label@ + " — Open Live Writer"@,
{
    concat2(label, " — Open Live Writer")
}

/// The length of a document.
pub open spec fn word_status_of(content: Seq<char>) -> Seq<char> {
    decimal(visible_count(content)) + " 字"@
}

/// The length of a document.
pub fn word_status(content: &str) -> (r: String)
    ensures
        r@ == word_status_of(content@),
{
    concat2(&to_decimal(character_count(content) as u64), " 字")
}

/// The title to publish under: the one that was entered, or that of the article.
pub fn publish_title(entered: &str, markdown: &str) -> (r: String)
    ensures
        r@ == title_to_publish(entered@, markdown@),
{
    if blank(entered) {
        document_title(markdown)
    } else {
        trim(entered)
    }
}

/// The settings for Notion: those of the environment come before those that were entered.
pub fn effective_notion_config(env: Option<NotionConfig>, settings: &StoredPublishSettings) -> (r:
    Option<NotionConfig>)
    ensures
        match env {
            Some(config) => r == Some(config),
            None => notion_view(r) == entered_notion(
                settings.notion_token@,
                settings.notion_parent_page_id@,
            ),
        },
        notion_view(r) == first_some(
            notion_view(env),
            entered_notion(settings.notion_token@, settings.notion_parent_page_id@),
        ),
{
    match env {
        Some(config) => Some(config),
        None => settings.notion_config(),
    }
}

/// The settings for Typecho: those of the environment come before those that were entered.
pub fn effective_typecho_config(env: Option<TypechoConfig>, settings: &StoredPublishSettings) -> (r:
    Option<TypechoConfig>)
    ensures
        match env {
            Some(config) => r == Some(config),
            None => typecho_view(r) == entered_typecho(
                settings.typecho_xmlrpc_url@,
                settings.typecho_username@,
                settings.typecho_password@,
            ),
        },
        typecho_view(r) == first_some(
            typecho_view(env),
            entered_typecho(
                settings.typecho_xmlrpc_url@,
                settings.typecho_username@,
                settings.typecho_password@,
            ),
        ),
{
    match env {
        Some(config) => Some(config),
        None => settings.typecho_config(),
    }
}

/// The settings as they stand in the fields. The password is kept as it is.
pub fn entered_settings(
    notion_token: &str,
    notion_parent: &str,
    typecho_url: &str,
    typecho_username: &str,
    typecho_password: &str,
) -> (r: StoredPublishSettings)
    ensures
        r.notion_token@ == trim_of(notion_token@),
        r.notion_parent_page_id@ == trim_of(notion_parent@),
        r.typecho_xmlrpc_url@ == trim_of(typecho_url@),
        r.typecho_username@ == trim_of(typecho_username@),
        r.typecho_password@ == typecho_password@,
{
    StoredPublishSettings {
        notion_token: trim(notion_token),
        notion_parent_page_id: trim(notion_parent),
        typecho_xmlrpc_url: trim(typecho_url),
        typecho_username: trim(typecho_username),
        typecho_password: typecho_password.to_owned(),
    }
}

/// Whether a stored value is to be put into a field: it is not empty, and the field is.
pub fn fills_field(field: &str, stored: &str) -> (r: bool)
    ensures
        r == (field@.len() == 0 && stored@.len() > 0),
{
    chars_of(field).len() == 0 && chars_of(stored).len() > 0
}

/// What is said of a test of a connection.
pub open spec fn test_message_of(kind: PublishKind, from_env: bool, name: Seq<char>) -> Seq<char> {
    kind_name(kind) + (if from_env {
        " OK (env): "@
    } else {
        " OK: "@
    }) + name
}

/// What is said of a test of a connection that succeeded.
pub fn test_message(kind: PublishKind, from_env: bool, name: &str) -> (r: String)
    ensures
        r@ == test_message_of(kind, from_env, name@),
{
    let middle = if from_env {
        " OK (env): "
    } else {
        " OK: "
    };
    concat3(name_of(kind), middle, name)
}

/// What is said of a test of a connection that failed.
pub fn test_failure(kind: PublishKind, error: &str) -> (r: String)
    ensures
        r@ == kind_name(kind) + " test failed: "@ + error@,
{
    concat3(name_of(kind), " test failed: ", error)
}

/// The text that shows an image.
pub fn image_snippet(url: &str) -> (r: String)
    ensures
        r@ == image_markdown(url@),
{
    concat3("![图片](", url, ")")
}

/// The name of an image from the clipboard.
pub fn pasted_image_name(stamp: u64, extension: &str) -> (r: String)
    ensures
        r@ == "paste-"@ + decimal(stamp as nat) + "."@ + extension@,
{
    let mut out = concat3("paste-", &to_decimal(stamp), ".");
    push_text(&mut out, extension);
    out
}

/// Whether a file that was dropped on the editor is a document, by its extension.
pub fn is_markdown_extension(extension: Option<&str>) -> (r: bool)
    ensures
        r == is_markdown(
            match extension {
                Some(s) => Some(s@),
                None => None,
            },
        ),
{
    match extension {
        Some(s) => eq_ignore_case(s, "md"),
        None => false,
    }
}

/// The name to offer when a document is saved under another name: that of its file, or one from its
/// title.
pub fn save_as_name(file_name: Option<&str>, markdown: &str) -> (r: String)
    ensures
        r@ == other_name(
            match file_name {
                Some(name) => Some(name@),
                None => None,
            },
            markdown@,
        ),
{
    match file_name {
        Some(name) => name.to_owned(),
        None => default_markdown_filename(markdown),
    }
}

// ---------------------------------------------------------------------------
// Laws
// ---------------------------------------------------------------------------

/// A document that was changed has unsaved changes, and one that was just loaded has none. Unsaved
/// changes are given up on the second choice alone; without an answer nothing happens.
pub proof fn law_changes_need_an_answer(
    e: EditorView,
    content: Seq<char>,
    line_ending: Seq<char>,
    encoding: FileEncoding,
    has_path: bool,
    meta: MetaView,
    choice: Option<usize>,
)
    ensures
        after_change(e, content).dirty,
        !with_document(e, content, line_ending, encoding, has_path, meta).dirty,
        action_for(None, has_path) == AnswerAction::Stay,
        action_for(choice, has_path) == AnswerAction::Discard <==> choice == Some(1usize),
{
}

/// Showing the settings and hiding them again leaves all but the message as it was.
pub proof fn law_settings_twice(e: EditorView)
    ensures
        settings_toggled(settings_toggled(e)) == saying(e, resting_status(e)),
{
}

/// Three steps through the modes lead back to the first, with the settings hidden.
pub proof fn law_mode_cycle(e: EditorView)
    ensures
        in_mode(
            in_mode(
                in_mode(e, next_mode(e.workspace_mode)),
                next_mode(next_mode(e.workspace_mode)),
            ),
            next_mode(next_mode(next_mode(e.workspace_mode))),
        ) == in_mode(e, e.workspace_mode),
{
}

/// A publication that is under way keeps another one from starting: nothing changes.
pub proof fn law_one_publication(
    e: EditorView,
    kind: PublishKind,
    warning: Seq<char>,
    other: PublishKind,
    configured: bool,
)
    requires
        publish_begun(e, kind, true, warning).1 == PublishStart::Send,
    ensures
        ({
            let begun = publish_begun(e, kind, true, warning).0;
            publish_begun(begun, other, configured, warning) == (begun, PublishStart::Busy)
        }),
{
}

/// The life of a document: once its text has changed it is to be backed up, and the editor neither
/// closes nor gives it up without a question; once it is saved it is not, and the editor does. A backup
/// or a draft of the very text is enough to need no other one, but it does not count as saving.
pub proof fn law_life_of_document(
    e: EditorView,
    content: Seq<char>,
    other: Seq<char>,
    file: Seq<char>,
)
    ensures
        ({
            let changed = after_change(e, content);
            let saved = after_save(changed, content, file);
            let backed = after_backup(changed, content);
            let drafted = after_draft(changed, content, file);
            &&& changed.observed == content
            &&& !e.close_confirmed ==> !closes_at_once(changed)
            &&& discard_decision(changed) == DiscardDecision::Ask
            &&& needs_backup(changed, content) <==> e.last_draft != Some(content)
            &&& closes_at_once(saved) && discard_decision(saved) == DiscardDecision::Proceed
            &&& !needs_backup(saved, other)
            &&& saved.has_path && saved.observed == content
            &&& saved.meta == e.meta && saved.encoding == e.encoding && saved.line_ending
                == e.line_ending
            &&& !needs_backup(backed, content) && !needs_backup(drafted, content)
            &&& other != content ==> needs_backup(backed, other) && needs_backup(drafted, other)
            &&& discard_decision(backed) == DiscardDecision::Ask && discard_decision(drafted)
                == DiscardDecision::Ask
            &&& drafted.has_path == e.has_path
        }),
{
}

/// A document that was opened is the one that the editor has: its text, its encoding and line ending,
/// and what is known of where it was published. Nothing of the document before is left.
pub proof fn law_opened_document(
    e: EditorView,
    content: Seq<char>,
    line_ending: Seq<char>,
    encoding: FileEncoding,
    has_path: bool,
    meta: MetaView,
)
    ensures
        ({
            let opened = with_document(e, content, line_ending, encoding, has_path, meta);
            &&& opened.observed == content
            &&& previewed_text(opened, content) == content
            &&& opened.line_ending == line_ending
            &&& opened.encoding == encoding
            &&& opened.has_path == has_path
            &&& opened.meta == meta
            &&& opened.last_draft is None
            &&& closes_at_once(opened) && discard_decision(opened) == DiscardDecision::Proceed
            &&& !opened.close_confirmed
            &&& opened.workspace_mode == e.workspace_mode && opened.preview == e.preview
        }),
{
}

/// A draft, a backup and a new document belong to no file and were published nowhere. A backup that
/// was restored is still to be saved.
pub proof fn law_loose_documents(e: EditorView, content: Seq<char>, title: Seq<char>)
    ensures
        ({
            let draft = with_opened_draft(e, content, title);
            let backup = with_backup(e, content);
            let fresh = with_loose_text(e, Seq::empty());
            &&& draft.observed == normalized(content) && backup.observed == normalized(content)
            &&& draft.line_ending == ending_of(content) && backup.line_ending == ending_of(content)
            &&& !draft.has_path && !backup.has_path && !fresh.has_path
            &&& draft.encoding == FileEncoding::Utf8 && backup.encoding == FileEncoding::Utf8
            &&& draft.meta.typecho_post_id is None && draft.meta.notion_page_id is None
            &&& backup.meta.typecho_post_id is None && backup.meta.notion_page_id is None
            &&& fresh.meta.typecho_post_id is None && fresh.meta.notion_page_id is None
            &&& draft.dialog == EditorDialog::Closed
            &&& discard_decision(backup) == DiscardDecision::Ask
            &&& discard_decision(draft) == DiscardDecision::Proceed
            &&& fresh.observed == normalized(Seq::empty())
        }),
{
}

/// The preview follows the latest change and no earlier one, and shows the text of the field as long as
/// it has none of its own.
pub proof fn law_preview_follows_latest(
    e: EditorView,
    first: Seq<char>,
    second: Seq<char>,
    field: Seq<char>,
)
    ensures
        ({
            let a = after_change(e, first);
            let b = after_change(a, second);
            &&& with_preview(b, b.generation, second).preview_source == second
            &&& with_preview(b, a.generation, first) == b
            &&& second.len() > 0 ==> previewed_text(with_preview(b, b.generation, second), field)
                == second
            &&& e.preview_source.len() == 0 ==> previewed_text(e, field) == field
        }),
{
}

/// What the dialog to publish offers at first: the article for all, and the change of the one that
/// exists where there is one. Confirming it publishes to the place that it was opened for.
pub proof fn law_publish_dialog_opens(e: EditorView, kind: PublishKind)
    ensures
        ({
            let opened = publish_dialog_opened(e, kind);
            &&& e.publishing ==> opened.dialog == e.dialog && opened.public == e.public
                && opened.update_existing == e.update_existing
            &&& !e.publishing ==> {
                &&& place_of_dialog(opened.dialog) == Some(kind)
                &&& opened.public
                &&& kind == PublishKind::Notion ==> (opened.update_existing
                    <==> e.meta.notion_page_id is Some)
                &&& kind == PublishKind::Typecho ==> (opened.update_existing
                    <==> e.meta.typecho_post_id is Some)
                &&& opened.meta == e.meta && opened.observed == e.observed && opened.dirty
                    == e.dirty
            }
            &&& place_of_dialog(EditorDialog::Closed) is None
        }),
{
}

/// What the dialog to publish says: whether the article that exists is changed, with its identifier;
/// whether it is public; how many images others will not see; and that settings are missing.
pub proof fn law_publish_dialog_says(
    e: EditorView,
    kind: PublishKind,
    configured: bool,
    images: nat,
)
    ensures
        ({
            let dialog = publish_dialog_of(e, kind, configured, images);
            let id = if kind == PublishKind::Notion {
                e.meta.notion_page_id
            } else {
                e.meta.typecho_post_id
            };
            &&& dialog.title == if kind == PublishKind::Notion {
                "发布到 "@ + "Notion"@
            } else {
                "发布到 "@ + "Typecho"@
            }
            &&& dialog.update_line is Some <==> id is Some
            &&& id is Some ==> dialog.update_line.unwrap() == (if e.update_existing {
                "[x]"@
            } else {
                "[ ]"@
            }) + " 更新已有文章 ("@ + id.unwrap() + ")"@
            &&& dialog.public_line is Some <==> kind == PublishKind::Typecho
            &&& kind == PublishKind::Typecho && e.public ==> dialog.public_line
                == Some("[x] 公开发布"@)
            &&& kind == PublishKind::Typecho && !e.public ==> dialog.public_line
                == Some("[ ] 保存为草稿"@)
            &&& dialog.image_line is Some <==> images > 0
            &&& images > 0 ==> dialog.image_line.unwrap() == "含 "@ + decimal(images)
                + " 处本地/相对图片，发布后可能无法直接显示。"@
            &&& dialog.settings_line is Some <==> !configured
            &&& dialog.confirm is Some <==> configured
            &&& configured && e.publishing ==> dialog.confirm == Some("正在发布…"@)
            &&& configured && !e.publishing ==> dialog.confirm == Some("发布"@)
        }),
{
}

/// A publication starts where there are settings and none is under way; without settings they are
/// shown, and nothing is published. While it is under way only one runs.
pub proof fn law_publication_begins(
    e: EditorView,
    kind: PublishKind,
    configured: bool,
    warning: Seq<char>,
)
    ensures
        ({
            let (begun, start) = publish_begun(e, kind, configured, warning);
            &&& start == PublishStart::Send <==> !e.publishing && configured
            &&& start == PublishStart::Busy <==> e.publishing
            &&& begun.publishing <==> e.publishing || configured
            &&& start == PublishStart::CopyAndShowSettings <==> !e.publishing && !configured && kind
                == PublishKind::Typecho
            &&& !e.publishing && !configured ==> begun.settings_visible
            &&& !e.publishing && configured ==> !begun.settings_visible && begun.status == if kind
                == PublishKind::Notion {
                "正在发布到 "@ + "Notion"@ + "…"@ + warning
            } else {
                "正在发布到 "@ + "Typecho"@ + "…"@ + warning
            }
            &&& begun.meta == e.meta && begun.dirty == e.dirty && begun.observed == e.observed
                && begun.public == e.public && begun.update_existing == e.update_existing
        }),
{
}

/// An article that was published is known by where it is, and another one can be published after it.
/// What is known of the other place stays.
pub proof fn law_publication_ends(
    e: EditorView,
    kind: PublishKind,
    id: Seq<char>,
    url: Seq<char>,
    text: Seq<char>,
)
    ensures
        ({
            let notion = on_notion(e, id, url, text);
            let typecho = on_typecho(e, id, text);
            let failed = after_failure(e, kind, text);
            &&& !notion.publishing && !typecho.publishing && !failed.publishing
            &&& notion.meta.notion_page_id == Some(id) && notion.meta.notion_url == Some(url)
                && notion.meta.typecho_post_id == e.meta.typecho_post_id
            &&& typecho.meta.typecho_post_id == Some(id) && typecho.meta.notion_page_id
                == e.meta.notion_page_id && typecho.meta.notion_url == e.meta.notion_url
            &&& failed.meta == e.meta
            &&& notion.dirty == e.dirty && typecho.dirty == e.dirty && failed.dirty == e.dirty
            &&& failed.status == (if kind == PublishKind::Notion {
                "Notion"@
            } else {
                "Typecho"@
            }) + " 发布失败："@ + text
        }),
{
}

/// An article that was published on Typecho is changed, and not made again, when it is published again
/// as the dialog offers it; and it is made again where the user asks for that.
pub proof fn law_published_article_is_changed(e: EditorView, id: Seq<char>, warning: Seq<char>)
    ensures
        ({
            let again = publish_dialog_opened(on_typecho(e, id, warning), PublishKind::Typecho);
            &&& post_to_change(again) == Some(id)
            &&& post_to_change((EditorView { update_existing: false, ..again })) is None
        }),
{
}

/// An article is published under the title that was entered, without the white space around it, and
/// under its own where none was.
pub proof fn law_title_to_publish(entered: Seq<char>, markdown: Seq<char>)
    ensures
        !is_blank(entered) ==> title_to_publish(entered, markdown) == trim_of(entered),
        is_blank(entered) ==> title_to_publish(entered, markdown) == title_of(markdown),
{
}

/// The settings come before the document. Of this, the mode decides what is shown.
pub proof fn law_workspace(e: EditorView, mode: WorkspaceMode)
    ensures
        workspace_of(e) == Workspace::Settings <==> e.settings_visible,
        !in_mode(e, mode).settings_visible,
        in_mode(e, mode).workspace_mode == mode,
        in_mode(e, mode).preview <==> mode == WorkspaceMode::Preview,
        workspace_of(in_mode(e, WorkspaceMode::Edit)) == Workspace::Edit,
        workspace_of(in_mode(e, WorkspaceMode::Split)) == Workspace::Split,
        workspace_of(in_mode(e, WorkspaceMode::Preview)) == Workspace::Preview,
{
}

/// The title of a document is the name of its file, with a star as long as it is not saved.
pub proof fn law_document_label(name: Seq<char>)
    ensures
        document_label_of(false, Some(name)) == name,
        document_label_of(true, Some(name)) == name + seq![' ', '*'],
        document_label_of(false, None) == "未命名文章.md"@,
        document_label_of(true, None) == "未命名文章.md"@ + seq![' ', '*'],
{
    reveal_strlit(" *");
    assert(" *"@ =~= seq![' ', '*']);
}

/// What to do with unsaved changes: the first answer saves them, to the file where there is one.
pub proof fn law_first_answer_saves(has_path: bool)
    ensures
        action_for(Some(0), true) == AnswerAction::Save,
        action_for(Some(0), false) == AnswerAction::SaveAs,
        action_for(Some(1), has_path) == AnswerAction::Discard,
        action_for(Some(2), has_path) == AnswerAction::Stay,
{
}

/// An image is shown by its address, as an image of Markdown. A document has the extension of
/// Markdown, in capital or small letters, and keeps its name where it has one.
pub proof fn law_snippets_and_names(url: Seq<char>, name: Seq<char>, markdown: Seq<char>)
    ensures
        image_markdown(url) == "![图片]("@ + url + seq![')'],
        is_markdown(Some(name)) <==> ascii_lower(name) == seq!['m', 'd'],
        !is_markdown(None),
        other_name(Some(name), markdown) == name,
        other_name(None, markdown) == markdown_name(title_of(markdown)),
{
    reveal_strlit(")");
    reveal_strlit("md");
    assert(")"@ =~= seq![')']);
    assert(ascii_lower("md"@) =~= seq!['m', 'd']);
}

/// The settings of the environment come before those that were entered.
pub proof fn law_environment_comes_first<T>(value: T, other: Option<T>)
    ensures
        first_some(Some(value), other) == Some(value),
        first_some(None, other) == other,
{
}

/// Each choice is changed by its own command and by nothing else, and changed back by giving the command
/// again.
pub proof fn law_choices(e: EditorView)
    ensures
        public_toggled(e).public == !e.public && public_toggled(public_toggled(e)) == e,
        public_toggled(e).update_existing == e.update_existing,
        update_toggled(e).update_existing == !e.update_existing && update_toggled(
            update_toggled(e),
        ) == e,
        update_toggled(e).public == e.public,
        outline_toggled(e).outline_visible == !e.outline_visible && outline_toggled(
            outline_toggled(e),
        ) == e,
        focus_toggled(e).focus_mode == !e.focus_mode && focus_toggled(focus_toggled(e)) == saying(
            e,
            focus_toggled(focus_toggled(e)).status,
        ),
        beside_preview(e).workspace_mode == WorkspaceMode::Split && !beside_preview(e).preview,
        beside_preview(e).observed == e.observed && beside_preview(e).dirty == e.dirty,
{
}

/// What the editor says while nothing happens: what it shows, and whether the document is saved.
pub proof fn law_resting_status(e: EditorView)
    ensures
        e.settings_visible ==> resting_status(e)
            == "发布设置 · 环境变量优先，凭据保存在系统安全存储"@,
        !e.settings_visible && e.preview && e.dirty ==> resting_status(e) == "预览模式 · 尚未保存"@,
        !e.settings_visible && e.preview && !e.dirty ==> resting_status(e)
            == "预览模式 · Markdown 已渲染"@,
        !e.settings_visible && !e.preview && e.dirty ==> resting_status(e) == "正在编辑 · 尚未保存"@,
        !e.settings_visible && !e.preview && !e.dirty ==> resting_status(e)
            == "就绪 · Markdown 模式"@,
{
}

/// What the editor says of what happened: the name of the file or draft, of the place and of the article
/// is in it.
pub proof fn law_messages(e: EditorView, a: Seq<char>, b: Seq<char>, c: Seq<char>)
    ensures
        after_change(e, a).status == "正在编辑 · 尚未保存"@,
        after_save(e, a, b).status == "已保存 · "@ + b,
        after_draft(e, a, b).status == "草稿已保存 · "@ + b + " · 尚未保存为文件"@,
        with_opened_draft(e, a, b).status == "已打开草稿 · "@ + b,
        with_backup(e, a).status == "已恢复自动备份 · 尚未保存"@,
        with_loose_text(e, a).status == "已加载 · Markdown"@,
        on_notion(e, a, b, c).status == "已发布到 Notion"@ + c + " · "@ + b,
        on_typecho(e, a, c).status == "已提交到 Typecho"@ + c + " · 文章 ID："@ + a,
        word_status_of(a) == decimal(visible_count(a)) + " 字"@,
        test_message_of(PublishKind::Notion, true, a) == "Notion"@ + " OK (env): "@ + a,
        test_message_of(PublishKind::Notion, false, a) == "Notion"@ + " OK: "@ + a,
        test_message_of(PublishKind::Typecho, true, a) == "Typecho"@ + " OK (env): "@ + a,
        test_message_of(PublishKind::Typecho, false, a) == "Typecho"@ + " OK: "@ + a,
{
}

/// The editor starts with the text that it is given, saved and not published, and shows what it is asked
/// to show.
pub proof fn law_first_state(initial: Seq<char>, mode: WorkspaceMode, focus: bool, outline: bool)
    ensures
        ({
            let e = first_state(initial, mode, focus, outline);
            &&& e.observed == initial && e.preview_source == initial
            &&& closes_at_once(e) && !e.dirty && !e.has_path && !e.publishing && !e.close_confirmed
            &&& e.workspace_mode == mode && (e.preview <==> mode == WorkspaceMode::Preview)
            &&& e.focus_mode == focus && e.outline_visible == outline
            &&& workspace_of(e) == workspace_of(in_mode(e, mode))
            &&& e.dialog == EditorDialog::Closed
            &&& e.status == resting_status(e) || mode == WorkspaceMode::Preview
            &&& e.line_ending == seq!['\n'] && e.encoding == FileEncoding::Utf8
            &&& e.last_draft is None && post_to_change(e) is None
            &&& e.meta.notion_page_id is None && e.meta.typecho_post_id is None
            &&& e.public
            &&& e.table_rows == 2 && e.table_cols == 2
        }),
{
    reveal_strlit("\n");
    assert("\n"@ =~= seq!['\n']);
}

/// The command for the next mode shows that mode and says its name. Drafts are shown where there are
/// any. Closing the settings hides them, and does nothing where they are hidden.
pub proof fn law_views(e: EditorView)
    ensures
        in_next_mode(e).workspace_mode == next_mode(e.workspace_mode),
        in_next_mode(e).status == mode_label(next_mode(e.workspace_mode)) + " 模式"@,
        !in_next_mode(e).settings_visible,
        with_drafts_shown(e, true).dialog == EditorDialog::Drafts,
        with_drafts_shown(e, false).dialog == e.dialog,
        with_drafts_shown(e, false).status == "暂无本地草稿"@,
        !settings_closed(e).settings_visible,
        !e.settings_visible ==> settings_closed(e) == e,
{
}

/// The line below the document has its title, the mode and its length, and the time of the backup where
/// there is one.
pub proof fn law_status_line(label: Seq<char>, mode: WorkspaceMode, content: Seq<char>, secs: u64)
    ensures
        status_line_of(label, mode, content, None) == label + " · "@ + mode_label(mode) + " · "@
            + decimal(visible_count(content)) + " 字"@,
        status_line_of(label, mode, content, Some(secs)) == status_line_of(
            label,
            mode,
            content,
            None,
        ) + " · backup "@ + decimal(secs as nat),
{
    let line = label + " · "@ + mode_label(mode) + " · "@ + word_status_of(content);
    assert(line + Seq::empty() =~= label + " · "@ + mode_label(mode) + " · "@ + decimal(
        visible_count(content),
    ) + " 字"@);
    assert(line + (" · backup "@ + decimal(secs as nat)) =~= line + Seq::empty() + " · backup "@
        + decimal(secs as nat));
}

} // verus!
