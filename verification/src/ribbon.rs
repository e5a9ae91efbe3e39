//! The ribbon: which commands each tab offers, and what the commands for text do to it.

use vstd::prelude::*;

use crate::names::typecho_is_primary_publish_target;

verus! {

/// A command of the ribbon.
#[derive(Clone, Copy, Debug, PartialEq, Eq, Structural)]
pub enum RibbonCommand {
    NewDocument,
    OpenDocument,
    SaveDocument,
    OpenDraft,
    SaveDraft,
    PublishNotion,
    PublishTypecho,
    ToggleSettings,
    TogglePreview,
    Bold,
    Italic,
    Strike,
    InlineCode,
    Undo,
    Redo,
    Bullets,
    HeadingMenu,
    Tasks,
    Quote,
    Link,
    Image,
    Video,
    Table,
    Divider,
    Aside,
}

/// The size of a button.
#[derive(Clone, Copy, Debug, PartialEq, Eq, Structural)]
pub enum ButtonSize {
    Large,
    Small,
    Compact,
}

/// A button of the ribbon.
#[derive(Clone, Copy, Debug, PartialEq, Eq)]
pub struct RibbonButton {
    pub size: ButtonSize,
    pub icon: &'static str,
    pub label: &'static str,
    pub badged: bool,
    pub command: RibbonCommand,
}

/// A group of buttons under a label, in columns.
#[derive(Clone, Debug, PartialEq, Eq)]
pub struct RibbonGroup {
    pub label: &'static str,
    pub columns: Vec<Vec<RibbonButton>>,
}

/// A tab of the ribbon.
#[derive(Clone, Copy, Debug, PartialEq, Eq, Structural)]
pub enum RibbonTab {
    Home,
    Insert,
    Blog,
    File,
}

/// What the ribbon depends on besides its tab.
#[derive(Clone, Copy, Debug, PartialEq, Eq, Structural)]
pub struct RibbonState {
    pub preview: bool,
    pub settings_visible: bool,
    pub notion_configured: bool,
    pub typecho_configured: bool,
}

/// The mathematical model of a button.
pub ghost struct ButtonView {
    pub size: ButtonSize,
    pub icon: Seq<char>,
    pub label: Seq<char>,
    pub badged: bool,
    pub command: RibbonCommand,
}

/// The mathematical model of a group of buttons.
pub ghost struct GroupView {
    pub label: Seq<char>,
    pub columns: Seq<Seq<ButtonView>>,
}

impl View for RibbonButton {
    type V = ButtonView;

    open spec fn view(&self) -> ButtonView {
        ButtonView {
            size: self.size,
            icon: self.icon@,
            label: self.label@,
            badged: self.badged,
            command: self.command,
        }
    }
}

pub open spec fn column_view(buttons: Seq<RibbonButton>) -> Seq<ButtonView> {
    buttons.map_values(|button: RibbonButton| button@)
}

impl View for RibbonGroup {
    type V = GroupView;

    open spec fn view(&self) -> GroupView {
        GroupView {
            label: self.label@,
            columns: self.columns@.map_values(|column: Vec<RibbonButton>| column_view(column@)),
        }
    }
}

pub open spec fn groups_view(groups: Seq<RibbonGroup>) -> Seq<GroupView> {
    groups.map_values(|group: RibbonGroup| group@)
}

/// A button without a badge.
pub open spec fn plain_button(
    size: ButtonSize,
    icon: Seq<char>,
    label: Seq<char>,
    command: RibbonCommand,
) -> ButtonView {
    ButtonView { size, icon, label, badged: false, command }
}

fn button(size: ButtonSize, icon: &'static str, label: &'static str, command: RibbonCommand) -> (r:
    RibbonButton)
    ensures
        r@ == plain_button(size, icon@, label@, command),
{
    RibbonButton { size, icon, label, badged: false, command }
}

fn column1(a: RibbonButton) -> (r: Vec<RibbonButton>)
    ensures
        column_view(r@) == seq![a@],
{
    let mut v: Vec<RibbonButton> = Vec::new();
    v.push(a);
    assert(column_view(v@) =~= seq![a@]);
    v
}

fn column2(a: RibbonButton, b: RibbonButton) -> (r: Vec<RibbonButton>)
    ensures
        column_view(r@) == seq![a@, b@],
{
    let mut v: Vec<RibbonButton> = Vec::new();
    v.push(a);
    v.push(b);
    assert(column_view(v@) =~= seq![a@, b@]);
    v
}

fn column3(a: RibbonButton, b: RibbonButton, c: RibbonButton) -> (r: Vec<RibbonButton>)
    ensures
        column_view(r@) == seq![a@, b@, c@],
{
    let mut v: Vec<RibbonButton> = Vec::new();
    v.push(a);
    v.push(b);
    v.push(c);
    assert(column_view(v@) =~= seq![a@, b@, c@]);
    v
}

/// The commands for documents on the first tab.
pub open spec fn home_document_group() -> GroupView {
    GroupView {
        label: "文档"@,
        columns: seq![
            seq![
                plain_button(ButtonSize::Large, "icons/new-large.png"@, "新建"@, RibbonCommand::NewDocument),
            ],
            seq![
                plain_button(ButtonSize::Small, "icons/open.png"@, "打开"@, RibbonCommand::OpenDocument),
                plain_button(ButtonSize::Small, "icons/save.png"@, "保存"@, RibbonCommand::SaveDocument),
            ],
            seq![
                plain_button(ButtonSize::Small, "icons/open-draft.png"@, "打开草稿"@, RibbonCommand::OpenDraft),
                plain_button(ButtonSize::Small, "icons/save-draft.png"@, "保存草稿"@, RibbonCommand::SaveDraft),
            ],
        ],
    }
}

fn home_document_buttons() -> (r: RibbonGroup)
    ensures
        r@ == home_document_group(),
{
    let mut columns: Vec<Vec<RibbonButton>> = Vec::new();
    columns.push(
        column1(
            button(ButtonSize::Large, "icons/new-large.png", "新建", RibbonCommand::NewDocument),
        ),
    );
    columns.push(
        column2(
            button(ButtonSize::Small, "icons/open.png", "打开", RibbonCommand::OpenDocument),
            button(ButtonSize::Small, "icons/save.png", "保存", RibbonCommand::SaveDocument),
        ),
    );
    columns.push(
        column2(
            button(ButtonSize::Small, "icons/open-draft.png", "打开草稿", RibbonCommand::OpenDraft),
            button(ButtonSize::Small, "icons/save-draft.png", "保存草稿", RibbonCommand::SaveDraft),
        ),
    );
    let group = RibbonGroup { label: "文档", columns };
    assert(group@.columns =~= home_document_group().columns);
    group
}

/// The commands for inline formats.
pub open spec fn font_group() -> GroupView {
    GroupView {
        label: "字体"@,
        columns: seq![
            seq![
                plain_button(ButtonSize::Compact, "icons/bold.png"@, "粗体"@, RibbonCommand::Bold),
            ],
            seq![
                plain_button(ButtonSize::Compact, "icons/italic.png"@, "斜体"@, RibbonCommand::Italic),
            ],
            seq![
                plain_button(ButtonSize::Compact, "icons/strike.png"@, "删除线"@, RibbonCommand::Strike),
            ],
            seq![
                plain_button(ButtonSize::Compact, "icons/code.png"@, "行内代码"@, RibbonCommand::InlineCode),
            ],
            seq![
                plain_button(ButtonSize::Compact, "icons/undo.png"@, "撤销"@, RibbonCommand::Undo),
            ],
            seq![
                plain_button(ButtonSize::Compact, "icons/redo.png"@, "重做"@, RibbonCommand::Redo),
            ],
        ],
    }
}

fn font_buttons() -> (r: RibbonGroup)
    ensures
        r@ == font_group(),
{
    let mut columns: Vec<Vec<RibbonButton>> = Vec::new();
    columns.push(
        column1(
            button(ButtonSize::Compact, "icons/bold.png", "粗体", RibbonCommand::Bold),
        ),
    );
    columns.push(
        column1(
            button(ButtonSize::Compact, "icons/italic.png", "斜体", RibbonCommand::Italic),
        ),
    );
    columns.push(
        column1(
            button(ButtonSize::Compact, "icons/strike.png", "删除线", RibbonCommand::Strike),
        ),
    );
    columns.push(
        column1(
            button(ButtonSize::Compact, "icons/code.png", "行内代码", RibbonCommand::InlineCode),
        ),
    );
    columns.push(
        column1(
            button(ButtonSize::Compact, "icons/undo.png", "撤销", RibbonCommand::Undo),
        ),
    );
    columns.push(
        column1(
            button(ButtonSize::Compact, "icons/redo.png", "重做", RibbonCommand::Redo),
        ),
    );
    let group = RibbonGroup { label: "字体", columns };
    assert(group@.columns =~= font_group().columns);
    group
}

/// The commands for paragraphs.
pub open spec fn paragraph_group() -> GroupView {
    GroupView {
        label: "段落"@,
        columns: seq![
            seq![
                plain_button(ButtonSize::Large, "icons/paragraph-large.png"@, "列表"@, RibbonCommand::Bullets),
            ],
            seq![
                plain_button(ButtonSize::Small, "icons/heading.png"@, "标题"@, RibbonCommand::HeadingMenu),
                plain_button(ButtonSize::Small, "icons/bullets.png"@, "待办清单"@, RibbonCommand::Tasks),
                plain_button(ButtonSize::Small, "icons/blockquote.png"@, "引用"@, RibbonCommand::Quote),
            ],
        ],
    }
}

fn paragraph_buttons() -> (r: RibbonGroup)
    ensures
        r@ == paragraph_group(),
{
    let mut columns: Vec<Vec<RibbonButton>> = Vec::new();
    columns.push(
        column1(
            button(ButtonSize::Large, "icons/paragraph-large.png", "列表", RibbonCommand::Bullets),
        ),
    );
    columns.push(
        column3(
            button(ButtonSize::Small, "icons/heading.png", "标题", RibbonCommand::HeadingMenu),
            button(ButtonSize::Small, "icons/bullets.png", "待办清单", RibbonCommand::Tasks),
            button(ButtonSize::Small, "icons/blockquote.png", "引用", RibbonCommand::Quote),
        ),
    );
    let group = RibbonGroup { label: "段落", columns };
    assert(group@.columns =~= paragraph_group().columns);
    group
}

/// The commands that insert, on the first tab.
pub open spec fn home_insert_group() -> GroupView {
    GroupView {
        label: "插入"@,
        columns: seq![
            seq![
                plain_button(ButtonSize::Small, "icons/link.png"@, "超链接"@, RibbonCommand::Link),
                plain_button(ButtonSize::Small, "icons/image.png"@, "图片"@, RibbonCommand::Image),
                plain_button(ButtonSize::Small, "icons/video.png"@, "视频"@, RibbonCommand::Video),
            ],
            seq![
                plain_button(ButtonSize::Small, "icons/table.png"@, "表格"@, RibbonCommand::Table),
                plain_button(ButtonSize::Small, "icons/divider.png"@, "分隔线"@, RibbonCommand::Divider),
                plain_button(ButtonSize::Small, "icons/blockquote.png"@, "Notion 旁注"@, RibbonCommand::Aside),
            ],
        ],
    }
}

fn home_insert_buttons() -> (r: RibbonGroup)
    ensures
        r@ == home_insert_group(),
{
    let mut columns: Vec<Vec<RibbonButton>> = Vec::new();
    columns.push(
        column3(
            button(ButtonSize::Small, "icons/link.png", "超链接", RibbonCommand::Link),
            button(ButtonSize::Small, "icons/image.png", "图片", RibbonCommand::Image),
            button(ButtonSize::Small, "icons/video.png", "视频", RibbonCommand::Video),
        ),
    );
    columns.push(
        column3(
            button(ButtonSize::Small, "icons/table.png", "表格", RibbonCommand::Table),
            button(ButtonSize::Small, "icons/divider.png", "分隔线", RibbonCommand::Divider),
            button(ButtonSize::Small, "icons/blockquote.png", "Notion 旁注", RibbonCommand::Aside),
        ),
    );
    let group = RibbonGroup { label: "插入", columns };
    assert(group@.columns =~= home_insert_group().columns);
    group
}

/// The command for the preview on the first tab.
pub open spec fn home_edit_group(preview: bool) -> GroupView {
    GroupView {
        label: "编辑"@,
        columns: seq![
            seq![
                plain_button(ButtonSize::Large, "icons/preview-large.png"@, if preview { "编辑"@ } else { "预览"@ }, RibbonCommand::TogglePreview),
            ],
        ],
    }
}

fn home_edit_buttons(preview: bool) -> (r: RibbonGroup)
    ensures
        r@ == home_edit_group(preview),
{
    let mut columns: Vec<Vec<RibbonButton>> = Vec::new();
    columns.push(
        column1(
            button(ButtonSize::Large, "icons/preview-large.png", if preview { "编辑" } else { "预览" }, RibbonCommand::TogglePreview),
        ),
    );
    let group = RibbonGroup { label: "编辑", columns };
    assert(group@.columns =~= home_edit_group(preview).columns);
    group
}

/// The commands for blocks.
pub open spec fn markdown_blocks_group() -> GroupView {
    GroupView {
        label: "Markdown 块"@,
        columns: seq![
            seq![
                plain_button(ButtonSize::Large, "icons/html-large.png"@, "标题"@, RibbonCommand::HeadingMenu),
            ],
            seq![
                plain_button(ButtonSize::Small, "icons/bullets.png"@, "项目列表"@, RibbonCommand::Bullets),
                plain_button(ButtonSize::Small, "icons/bullets.png"@, "待办清单"@, RibbonCommand::Tasks),
                plain_button(ButtonSize::Small, "icons/blockquote.png"@, "引用"@, RibbonCommand::Quote),
            ],
            seq![
                plain_button(ButtonSize::Small, "icons/code.png"@, "代码"@, RibbonCommand::InlineCode),
                plain_button(ButtonSize::Small, "icons/strike.png"@, "删除线"@, RibbonCommand::Strike),
                plain_button(ButtonSize::Small, "icons/blockquote.png"@, "Notion 旁注"@, RibbonCommand::Aside),
            ],
        ],
    }
}

fn markdown_blocks_buttons() -> (r: RibbonGroup)
    ensures
        r@ == markdown_blocks_group(),
{
    let mut columns: Vec<Vec<RibbonButton>> = Vec::new();
    columns.push(
        column1(
            button(ButtonSize::Large, "icons/html-large.png", "标题", RibbonCommand::HeadingMenu),
        ),
    );
    columns.push(
        column3(
            button(ButtonSize::Small, "icons/bullets.png", "项目列表", RibbonCommand::Bullets),
            button(ButtonSize::Small, "icons/bullets.png", "待办清单", RibbonCommand::Tasks),
            button(ButtonSize::Small, "icons/blockquote.png", "引用", RibbonCommand::Quote),
        ),
    );
    columns.push(
        column3(
            button(ButtonSize::Small, "icons/code.png", "代码", RibbonCommand::InlineCode),
            button(ButtonSize::Small, "icons/strike.png", "删除线", RibbonCommand::Strike),
            button(ButtonSize::Small, "icons/blockquote.png", "Notion 旁注", RibbonCommand::Aside),
        ),
    );
    let group = RibbonGroup { label: "Markdown 块", columns };
    assert(group@.columns =~= markdown_blocks_group().columns);
    group
}

/// The commands for media.
pub open spec fn media_group() -> GroupView {
    GroupView {
        label: "媒体"@,
        columns: seq![
            seq![
                plain_button(ButtonSize::Large, "icons/image-large.png"@, "图片"@, RibbonCommand::Image),
            ],
            seq![
                plain_button(ButtonSize::Small, "icons/link.png"@, "超链接"@, RibbonCommand::Link),
                plain_button(ButtonSize::Small, "icons/video.png"@, "视频"@, RibbonCommand::Video),
            ],
        ],
    }
}

fn media_buttons() -> (r: RibbonGroup)
    ensures
        r@ == media_group(),
{
    let mut columns: Vec<Vec<RibbonButton>> = Vec::new();
    columns.push(
        column1(
            button(ButtonSize::Large, "icons/image-large.png", "图片", RibbonCommand::Image),
        ),
    );
    columns.push(
        column2(
            button(ButtonSize::Small, "icons/link.png", "超链接", RibbonCommand::Link),
            button(ButtonSize::Small, "icons/video.png", "视频", RibbonCommand::Video),
        ),
    );
    let group = RibbonGroup { label: "媒体", columns };
    assert(group@.columns =~= media_group().columns);
    group
}

/// The commands for the structure of a document.
pub open spec fn structure_group(preview: bool) -> GroupView {
    GroupView {
        label: "结构"@,
        columns: seq![
            seq![
                plain_button(ButtonSize::Large, "icons/table-large.png"@, "表格"@, RibbonCommand::Table),
            ],
            seq![
                plain_button(ButtonSize::Small, "icons/divider.png"@, "分隔线"@, RibbonCommand::Divider),
                plain_button(ButtonSize::Small, "icons/preview.png"@, if preview { "返回编辑"@ } else { "实时预览"@ }, RibbonCommand::TogglePreview),
            ],
        ],
    }
}

fn structure_buttons(preview: bool) -> (r: RibbonGroup)
    ensures
        r@ == structure_group(preview),
{
    let mut columns: Vec<Vec<RibbonButton>> = Vec::new();
    columns.push(
        column1(
            button(ButtonSize::Large, "icons/table-large.png", "表格", RibbonCommand::Table),
        ),
    );
    columns.push(
        column2(
            button(ButtonSize::Small, "icons/divider.png", "分隔线", RibbonCommand::Divider),
            button(ButtonSize::Small, "icons/preview.png", if preview { "返回编辑" } else { "实时预览" }, RibbonCommand::TogglePreview),
        ),
    );
    let group = RibbonGroup { label: "结构", columns };
    assert(group@.columns =~= structure_group(preview).columns);
    group
}

/// The commands that publish; a badge marks a place without settings.
pub open spec fn blog_publish_group(notion: bool, typecho: bool) -> GroupView {
    GroupView {
        label: "发布"@,
        columns: seq![
            seq![
                ButtonView {
                    size: ButtonSize::Large,
                    icon: "icons/publish-large.png"@,
                    label: "Notion"@,
                    badged: !notion,
                    command: RibbonCommand::PublishNotion,
                },
            ],
            seq![
                ButtonView {
                    size: ButtonSize::Large,
                    icon: "icons/publish-large.png"@,
                    label: "Typecho"@,
                    badged: !typecho,
                    command: RibbonCommand::PublishTypecho,
                },
            ],
        ],
    }
}

fn blog_publish_buttons(notion: bool, typecho: bool) -> (r: RibbonGroup)
    ensures
        r@ == blog_publish_group(notion, typecho),
{
    let mut columns: Vec<Vec<RibbonButton>> = Vec::new();
    columns.push(
        column1(
            RibbonButton {
                size: ButtonSize::Large,
                icon: "icons/publish-large.png",
                label: "Notion",
                badged: !notion,
                command: RibbonCommand::PublishNotion,
            },
        ),
    );
    columns.push(
        column1(
            RibbonButton {
                size: ButtonSize::Large,
                icon: "icons/publish-large.png",
                label: "Typecho",
                badged: !typecho,
                command: RibbonCommand::PublishTypecho,
            },
        ),
    );
    let group = RibbonGroup { label: "发布", columns };
    assert(group@.columns =~= blog_publish_group(notion, typecho).columns);
    group
}

/// The commands for drafts.
pub open spec fn drafts_group() -> GroupView {
    GroupView {
        label: "草稿"@,
        columns: seq![
            seq![
                plain_button(ButtonSize::Large, "icons/open-large.png"@, "打开草稿"@, RibbonCommand::OpenDraft),
            ],
            seq![
                plain_button(ButtonSize::Large, "icons/save-large.png"@, "保存草稿"@, RibbonCommand::SaveDraft),
            ],
        ],
    }
}

fn drafts_buttons() -> (r: RibbonGroup)
    ensures
        r@ == drafts_group(),
{
    let mut columns: Vec<Vec<RibbonButton>> = Vec::new();
    columns.push(
        column1(
            button(ButtonSize::Large, "icons/open-large.png", "打开草稿", RibbonCommand::OpenDraft),
        ),
    );
    columns.push(
        column1(
            button(ButtonSize::Large, "icons/save-large.png", "保存草稿", RibbonCommand::SaveDraft),
        ),
    );
    let group = RibbonGroup { label: "草稿", columns };
    assert(group@.columns =~= drafts_group().columns);
    group
}

/// The commands around a post.
pub open spec fn post_options_group(settings: bool, preview: bool) -> GroupView {
    GroupView {
        label: "文章选项"@,
        columns: seq![
            seq![
                plain_button(ButtonSize::Large, "icons/settings-large.png"@, if settings { "返回编辑"@ } else { "设置"@ }, RibbonCommand::ToggleSettings),
            ],
            seq![
                plain_button(ButtonSize::Large, "icons/preview-large.png"@, if preview { "编辑"@ } else { "预览"@ }, RibbonCommand::TogglePreview),
            ],
        ],
    }
}

fn post_options_buttons(settings: bool, preview: bool) -> (r: RibbonGroup)
    ensures
        r@ == post_options_group(settings, preview),
{
    let mut columns: Vec<Vec<RibbonButton>> = Vec::new();
    columns.push(
        column1(
            button(ButtonSize::Large, "icons/settings-large.png", if settings { "返回编辑" } else { "设置" }, RibbonCommand::ToggleSettings),
        ),
    );
    columns.push(
        column1(
            button(ButtonSize::Large, "icons/preview-large.png", if preview { "编辑" } else { "预览" }, RibbonCommand::TogglePreview),
        ),
    );
    let group = RibbonGroup { label: "文章选项", columns };
    assert(group@.columns =~= post_options_group(settings, preview).columns);
    group
}

/// The commands for files.
pub open spec fn file_group() -> GroupView {
    GroupView {
        label: "文件"@,
        columns: seq![
            seq![
                plain_button(ButtonSize::Large, "icons/new-large.png"@, "新建"@, RibbonCommand::NewDocument),
            ],
            seq![
                plain_button(ButtonSize::Large, "icons/open-large.png"@, "打开"@, RibbonCommand::OpenDocument),
            ],
            seq![
                plain_button(ButtonSize::Large, "icons/save-large.png"@, "保存"@, RibbonCommand::SaveDocument),
            ],
        ],
    }
}

fn file_buttons() -> (r: RibbonGroup)
    ensures
        r@ == file_group(),
{
    let mut columns: Vec<Vec<RibbonButton>> = Vec::new();
    columns.push(
        column1(
            button(ButtonSize::Large, "icons/new-large.png", "新建", RibbonCommand::NewDocument),
        ),
    );
    columns.push(
        column1(
            button(ButtonSize::Large, "icons/open-large.png", "打开", RibbonCommand::OpenDocument),
        ),
    );
    columns.push(
        column1(
            button(ButtonSize::Large, "icons/save-large.png", "保存", RibbonCommand::SaveDocument),
        ),
    );
    let group = RibbonGroup { label: "文件", columns };
    assert(group@.columns =~= file_group().columns);
    group
}

/// The command for the settings.
pub open spec fn options_group(settings: bool) -> GroupView {
    GroupView {
        label: "选项"@,
        columns: seq![
            seq![
                plain_button(ButtonSize::Large, "icons/settings-large.png"@, if settings { "返回编辑"@ } else { "发布设置"@ }, RibbonCommand::ToggleSettings),
            ],
        ],
    }
}

fn options_buttons(settings: bool) -> (r: RibbonGroup)
    ensures
        r@ == options_group(settings),
{
    let mut columns: Vec<Vec<RibbonButton>> = Vec::new();
    columns.push(
        column1(
            button(ButtonSize::Large, "icons/settings-large.png", if settings { "返回编辑" } else { "发布设置" }, RibbonCommand::ToggleSettings),
        ),
    );
    let group = RibbonGroup { label: "选项", columns };
    assert(group@.columns =~= options_group(settings).columns);
    group
}

/// The group for publishing on the first tab: the large button stands for the one place that has
/// settings, or for Notion.
pub open spec fn home_publish_group(s: RibbonState) -> GroupView {
    let typecho_first = s.typecho_configured && !s.notion_configured;
    let large = ButtonView {
        size: ButtonSize::Large,
        icon: "icons/publish-large.png"@,
        label: if typecho_first {
            "Typecho"@
        } else {
            "Notion"@
        },
        badged: !typecho_first && !s.notion_configured,
        command: if typecho_first {
            RibbonCommand::PublishTypecho
        } else {
            RibbonCommand::PublishNotion
        },
    };
    let small = if typecho_first {
        plain_button(
            ButtonSize::Small,
            "icons/notion.png"@,
            "Notion"@,
            RibbonCommand::PublishNotion,
        )
    } else {
        plain_button(
            ButtonSize::Small,
            "icons/typecho.png"@,
            "Typecho"@,
            RibbonCommand::PublishTypecho,
        )
    };
    GroupView {
        label: "发布"@,
        columns: seq![
            seq![large],
            seq![
                small,
                plain_button(
                    ButtonSize::Small,
                    "icons/settings.png"@,
                    if s.settings_visible {
                        "返回编辑"@
                    } else {
                        "发布设置"@
                    },
                    RibbonCommand::ToggleSettings,
                ),
                plain_button(
                    ButtonSize::Small,
                    "icons/preview.png"@,
                    if s.preview {
                        "返回编辑"@
                    } else {
                        "文章预览"@
                    },
                    RibbonCommand::TogglePreview,
                ),
            ],
        ],
    }
}

fn home_publish_controls(s: RibbonState) -> (r: RibbonGroup)
    ensures
        r@ == home_publish_group(s),
{
    let typecho_first = typecho_is_primary_publish_target(
        s.notion_configured,
        s.typecho_configured,
    );
    let large = RibbonButton {
        size: ButtonSize::Large,
        icon: "icons/publish-large.png",
        label: if typecho_first {
            "Typecho"
        } else {
            "Notion"
        },
        badged: !typecho_first && !s.notion_configured,
        command: if typecho_first {
            RibbonCommand::PublishTypecho
        } else {
            RibbonCommand::PublishNotion
        },
    };
    let small = if typecho_first {
        button(
            ButtonSize::Small,
            "icons/notion.png",
            "Notion",
            RibbonCommand::PublishNotion,
        )
    } else {
        button(
            ButtonSize::Small,
            "icons/typecho.png",
            "Typecho",
            RibbonCommand::PublishTypecho,
        )
    };
    let settings = button(
        ButtonSize::Small,
        "icons/settings.png",
        if s.settings_visible {
            "返回编辑"
        } else {
            "发布设置"
        },
        RibbonCommand::ToggleSettings,
    );
    let preview = button(
        ButtonSize::Small,
        "icons/preview.png",
        if s.preview {
            "返回编辑"
        } else {
            "文章预览"
        },
        RibbonCommand::TogglePreview,
    );
    let mut columns: Vec<Vec<RibbonButton>> = Vec::new();
    columns.push(column1(large));
    columns.push(column3(small, settings, preview));
    let group = RibbonGroup { label: "发布", columns };
    assert(group@.columns =~= home_publish_group(s).columns);
    group
}

/// The groups of a tab.
pub open spec fn ribbon_of(tab: RibbonTab, s: RibbonState) -> Seq<GroupView> {
    match tab {
        RibbonTab::Home => seq![
            home_document_group(),
            home_publish_group(s),
            font_group(),
            paragraph_group(),
            home_insert_group(),
            home_edit_group(s.preview),
        ],
        RibbonTab::Insert => seq![
            markdown_blocks_group(),
            media_group(),
            structure_group(s.preview),
        ],
        RibbonTab::Blog => seq![
            blog_publish_group(s.notion_configured, s.typecho_configured),
            drafts_group(),
            post_options_group(s.settings_visible, s.preview),
        ],
        RibbonTab::File => seq![file_group(), drafts_group(), options_group(s.settings_visible)],
    }
}

/// The groups of a tab.
pub fn ribbon(tab: RibbonTab, s: RibbonState) -> (r: Vec<RibbonGroup>)
    ensures
        groups_view(r@) == ribbon_of(tab, s),
{
    let mut groups: Vec<RibbonGroup> = Vec::new();
    match tab {
        RibbonTab::Home => {
            groups.push(home_document_buttons());
            groups.push(home_publish_controls(s));
            groups.push(font_buttons());
            groups.push(paragraph_buttons());
            groups.push(home_insert_buttons());
            groups.push(home_edit_buttons(s.preview));
        },
        RibbonTab::Insert => {
            groups.push(markdown_blocks_buttons());
            groups.push(media_buttons());
            groups.push(structure_buttons(s.preview));
        },
        RibbonTab::Blog => {
            groups.push(blog_publish_buttons(s.notion_configured, s.typecho_configured));
            groups.push(drafts_buttons());
            groups.push(post_options_buttons(s.settings_visible, s.preview));
        },
        RibbonTab::File => {
            groups.push(file_buttons());
            groups.push(drafts_buttons());
            groups.push(options_buttons(s.settings_visible));
        },
    }
    assert(groups_view(groups@) =~= ribbon_of(tab, s));
    groups
}

/// What a command for text does to the selection, and the message that tells.
#[derive(Clone, Copy, Debug, PartialEq, Eq)]
pub enum TextCommand {
    /// Wrap it in a marker, or unwrap it.
    Wrap { marker: &'static str, message: &'static str },
    /// Toggle a prefix on its lines.
    Prefix { prefix: &'static str, message: &'static str },
    /// Insert a text in its place.
    Insert { text: &'static str, message: &'static str },
}

/// The mathematical model of what a command for text does.
pub ghost enum TextCommandView {
    Wrap { marker: Seq<char>, message: Seq<char> },
    Prefix { prefix: Seq<char>, message: Seq<char> },
    Insert { text: Seq<char>, message: Seq<char> },
}

impl View for TextCommand {
    type V = TextCommandView;

    open spec fn view(&self) -> TextCommandView {
        match *self {
            TextCommand::Wrap { marker, message } => TextCommandView::Wrap {
                marker: marker@,
                message: message@,
            },
            TextCommand::Prefix { prefix, message } => TextCommandView::Prefix {
                prefix: prefix@,
                message: message@,
            },
            TextCommand::Insert { text, message } => TextCommandView::Insert {
                text: text@,
                message: message@,
            },
        }
    }
}

/// What a command does to the selection, if it is one for text.
pub open spec fn text_command_of(command: RibbonCommand) -> Option<TextCommandView> {
    match command {
        RibbonCommand::Bold => Some(
            TextCommandView::Wrap { marker: "**"@, message: "已插入粗体 Markdown"@ },
        ),
        RibbonCommand::Italic => Some(
            TextCommandView::Wrap { marker: "*"@, message: "已插入斜体 Markdown"@ },
        ),
        RibbonCommand::Strike => Some(
            TextCommandView::Wrap { marker: "~~"@, message: "已插入删除线 Markdown"@ },
        ),
        RibbonCommand::InlineCode => Some(
            TextCommandView::Wrap { marker: "`"@, message: "已插入行内代码 Markdown"@ },
        ),
        RibbonCommand::Bullets => Some(
            TextCommandView::Prefix { prefix: "- "@, message: "已切换无序列表"@ },
        ),
        RibbonCommand::Tasks => Some(
            TextCommandView::Prefix { prefix: "- [ ] "@, message: "已切换待办事项"@ },
        ),
        RibbonCommand::Quote => Some(
            TextCommandView::Prefix { prefix: "> "@, message: "已切换引用"@ },
        ),
        RibbonCommand::Divider => Some(
            TextCommandView::Insert { text: "\n---\n"@, message: "已插入分隔线 Markdown"@ },
        ),
        RibbonCommand::Aside => Some(
            TextCommandView::Insert {
                text: "\n<aside>💡 提示</aside>\n"@,
                message: "已插入 Notion 旁注"@,
            },
        ),
        _ => None,
    }
}

/// What a command does to the selection, if it is one for text.
pub fn text_command(command: RibbonCommand) -> (r: Option<TextCommand>)
    ensures
        text_command_of(command) == match r {
            Some(c) => Some(c@),
            None => None,
        },
{
    match command {
        RibbonCommand::Bold => Some(
            TextCommand::Wrap { marker: "**", message: "已插入粗体 Markdown" },
        ),
        RibbonCommand::Italic => Some(
            TextCommand::Wrap { marker: "*", message: "已插入斜体 Markdown" },
        ),
        RibbonCommand::Strike => Some(
            TextCommand::Wrap { marker: "~~", message: "已插入删除线 Markdown" },
        ),
        RibbonCommand::InlineCode => Some(
            TextCommand::Wrap { marker: "`", message: "已插入行内代码 Markdown" },
        ),
        RibbonCommand::Bullets => Some(
            TextCommand::Prefix { prefix: "- ", message: "已切换无序列表" },
        ),
        RibbonCommand::Tasks => Some(
            TextCommand::Prefix { prefix: "- [ ] ", message: "已切换待办事项" },
        ),
        RibbonCommand::Quote => Some(
            TextCommand::Prefix { prefix: "> ", message: "已切换引用" },
        ),
        RibbonCommand::Divider => Some(
            TextCommand::Insert { text: "\n---\n", message: "已插入分隔线 Markdown" },
        ),
        RibbonCommand::Aside => Some(
            TextCommand::Insert {
                text: "\n<aside>💡 提示</aside>\n",
                message: "已插入 Notion 旁注",
            },
        ),
        _ => None,
    }
}

/// The command stands on a tab.
pub open spec fn offers(groups: Seq<GroupView>, command: RibbonCommand) -> bool {
    exists|g: int, c: int, b: int|
        0 <= g < groups.len() && 0 <= c < groups[g].columns.len() && 0 <= b
            < groups[g].columns[c].len() && (#[trigger] groups[g].columns[c][b]).command == command
}

/// Both places to publish are offered on the first tab, whichever of them has settings.
pub proof fn law_home_offers_both_places(s: RibbonState)
    ensures
        offers(ribbon_of(RibbonTab::Home, s), RibbonCommand::PublishNotion),
        offers(ribbon_of(RibbonTab::Home, s), RibbonCommand::PublishTypecho),
{
    let groups = ribbon_of(RibbonTab::Home, s);
    let large = groups[1].columns[0][0];
    let small = groups[1].columns[1][0];
    assert(groups[1].columns[0][0].command == large.command);
    assert(groups[1].columns[1][0].command == small.command);
}

} // verus!
