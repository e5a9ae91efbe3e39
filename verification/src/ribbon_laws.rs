//! What the ribbon offers, under which labels, and what its commands do to a text.

use vstd::prelude::*;

use crate::ribbon::{
    offers, ribbon_of, text_command_of, ButtonView, GroupView, RibbonCommand, RibbonState,
    RibbonTab, TextCommandView,
};

verus! {

/// The label is one that the command has.
pub open spec fn label_fits(button: ButtonView, s: RibbonState) -> bool {
    let l = button.label;
    match button.command {
        RibbonCommand::NewDocument => l == "新建"@,
        RibbonCommand::OpenDocument => l == "打开"@,
        RibbonCommand::SaveDocument => l == "保存"@,
        RibbonCommand::OpenDraft => l == "打开草稿"@,
        RibbonCommand::SaveDraft => l == "保存草稿"@,
        RibbonCommand::PublishNotion => l == "Notion"@,
        RibbonCommand::PublishTypecho => l == "Typecho"@,
        RibbonCommand::ToggleSettings => if s.settings_visible {
            l == "返回编辑"@
        } else {
            l == "发布设置"@ || l == "设置"@
        },
        RibbonCommand::TogglePreview => if s.preview {
            l == "编辑"@ || l == "返回编辑"@
        } else {
            l == "预览"@ || l == "实时预览"@ || l == "文章预览"@
        },
        RibbonCommand::Bold => l == "粗体"@,
        RibbonCommand::Italic => l == "斜体"@,
        RibbonCommand::Strike => l == "删除线"@,
        RibbonCommand::InlineCode => l == "代码"@ || l == "行内代码"@,
        RibbonCommand::Undo => l == "撤销"@,
        RibbonCommand::Redo => l == "重做"@,
        RibbonCommand::Bullets => l == "列表"@ || l == "项目列表"@,
        RibbonCommand::HeadingMenu => l == "标题"@,
        RibbonCommand::Tasks => l == "待办清单"@,
        RibbonCommand::Quote => l == "引用"@,
        RibbonCommand::Link => l == "超链接"@,
        RibbonCommand::Image => l == "图片"@,
        RibbonCommand::Video => l == "视频"@,
        RibbonCommand::Table => l == "表格"@,
        RibbonCommand::Divider => l == "分隔线"@,
        RibbonCommand::Aside => l == "Notion 旁注"@,
    }
}

/// A badge marks a place to publish that has no settings, and nothing else.
pub open spec fn badge_fits(button: ButtonView, s: RibbonState) -> bool {
    button.badged ==> (button.command == RibbonCommand::PublishNotion && !s.notion_configured) || (
    button.command == RibbonCommand::PublishTypecho && !s.typecho_configured)
}

/// Every button of the group does what its label says.
pub open spec fn group_fits(group: GroupView, s: RibbonState) -> bool {
    forall|c: int, b: int|
        0 <= c < group.columns.len() && 0 <= b < group.columns[c].len() ==> label_fits(
            #[trigger] group.columns[c][b],
            s,
        ) && badge_fits(group.columns[c][b], s)
}

/// On every tab, and whatever the editor shows, every button has a label of its command, and a badge
/// only where the settings of a place to publish are missing.
pub proof fn law_buttons_do_what_they_say(tab: RibbonTab, s: RibbonState, k: int)
    requires
        0 <= k < ribbon_of(tab, s).len(),
    ensures
        group_fits(ribbon_of(tab, s)[k], s),
{
}

/// On the tab for publishing, a badge marks each place that has no settings.
pub proof fn law_badges(s: RibbonState)
    ensures
        ({
            let group = ribbon_of(RibbonTab::Blog, s)[0];
            &&& group.columns.len() == 2
            &&& group.columns[0][0].command == RibbonCommand::PublishNotion
            &&& group.columns[0][0].badged <==> !s.notion_configured
            &&& group.columns[1][0].command == RibbonCommand::PublishTypecho
            &&& group.columns[1][0].badged <==> !s.typecho_configured
        }),
{
}

/// The large button of the first tab publishes to Typecho where that alone has settings, and else to
/// Notion.
pub proof fn law_first_place_to_publish(s: RibbonState)
    ensures
        ({
            let large = ribbon_of(RibbonTab::Home, s)[1].columns[0][0];
            large.command == if s.typecho_configured && !s.notion_configured {
                RibbonCommand::PublishTypecho
            } else {
                RibbonCommand::PublishNotion
            }
        }),
{
}

/// The first tab offers what a document needs every day.
pub proof fn law_first_tab(s: RibbonState)
    ensures
        offers(ribbon_of(RibbonTab::Home, s), RibbonCommand::NewDocument),
        offers(ribbon_of(RibbonTab::Home, s), RibbonCommand::OpenDocument),
        offers(ribbon_of(RibbonTab::Home, s), RibbonCommand::SaveDocument),
        offers(ribbon_of(RibbonTab::Home, s), RibbonCommand::OpenDraft),
        offers(ribbon_of(RibbonTab::Home, s), RibbonCommand::SaveDraft),
        offers(ribbon_of(RibbonTab::Home, s), RibbonCommand::Bold),
        offers(ribbon_of(RibbonTab::Home, s), RibbonCommand::Italic),
        offers(ribbon_of(RibbonTab::Home, s), RibbonCommand::Strike),
        offers(ribbon_of(RibbonTab::Home, s), RibbonCommand::InlineCode),
        offers(ribbon_of(RibbonTab::Home, s), RibbonCommand::Undo),
        offers(ribbon_of(RibbonTab::Home, s), RibbonCommand::Redo),
        offers(ribbon_of(RibbonTab::Home, s), RibbonCommand::Bullets),
        offers(ribbon_of(RibbonTab::Home, s), RibbonCommand::HeadingMenu),
        offers(ribbon_of(RibbonTab::Home, s), RibbonCommand::Tasks),
        offers(ribbon_of(RibbonTab::Home, s), RibbonCommand::Quote),
        offers(ribbon_of(RibbonTab::Home, s), RibbonCommand::Link),
        offers(ribbon_of(RibbonTab::Home, s), RibbonCommand::Image),
        offers(ribbon_of(RibbonTab::Home, s), RibbonCommand::Video),
        offers(ribbon_of(RibbonTab::Home, s), RibbonCommand::Table),
        offers(ribbon_of(RibbonTab::Home, s), RibbonCommand::Divider),
        offers(ribbon_of(RibbonTab::Home, s), RibbonCommand::Aside),
        offers(ribbon_of(RibbonTab::Home, s), RibbonCommand::TogglePreview),
        offers(ribbon_of(RibbonTab::Home, s), RibbonCommand::ToggleSettings),
{
    let groups = ribbon_of(RibbonTab::Home, s);
    assert(groups[0].columns[0][0].command == RibbonCommand::NewDocument);
    assert(groups[0].columns[1][0].command == RibbonCommand::OpenDocument);
    assert(groups[0].columns[1][1].command == RibbonCommand::SaveDocument);
    assert(groups[0].columns[2][0].command == RibbonCommand::OpenDraft);
    assert(groups[0].columns[2][1].command == RibbonCommand::SaveDraft);
    assert(groups[2].columns[0][0].command == RibbonCommand::Bold);
    assert(groups[2].columns[1][0].command == RibbonCommand::Italic);
    assert(groups[2].columns[2][0].command == RibbonCommand::Strike);
    assert(groups[2].columns[3][0].command == RibbonCommand::InlineCode);
    assert(groups[2].columns[4][0].command == RibbonCommand::Undo);
    assert(groups[2].columns[5][0].command == RibbonCommand::Redo);
    assert(groups[3].columns[0][0].command == RibbonCommand::Bullets);
    assert(groups[3].columns[1][0].command == RibbonCommand::HeadingMenu);
    assert(groups[3].columns[1][1].command == RibbonCommand::Tasks);
    assert(groups[3].columns[1][2].command == RibbonCommand::Quote);
    assert(groups[4].columns[0][0].command == RibbonCommand::Link);
    assert(groups[4].columns[0][1].command == RibbonCommand::Image);
    assert(groups[4].columns[0][2].command == RibbonCommand::Video);
    assert(groups[4].columns[1][0].command == RibbonCommand::Table);
    assert(groups[4].columns[1][1].command == RibbonCommand::Divider);
    assert(groups[4].columns[1][2].command == RibbonCommand::Aside);
    assert(groups[5].columns[0][0].command == RibbonCommand::TogglePreview);
    assert(groups[1].columns[1][1].command == RibbonCommand::ToggleSettings);
}

/// The second tab offers all that can be put into a document.
pub proof fn law_insert_tab(s: RibbonState)
    ensures
        offers(ribbon_of(RibbonTab::Insert, s), RibbonCommand::HeadingMenu),
        offers(ribbon_of(RibbonTab::Insert, s), RibbonCommand::Bullets),
        offers(ribbon_of(RibbonTab::Insert, s), RibbonCommand::Tasks),
        offers(ribbon_of(RibbonTab::Insert, s), RibbonCommand::Quote),
        offers(ribbon_of(RibbonTab::Insert, s), RibbonCommand::InlineCode),
        offers(ribbon_of(RibbonTab::Insert, s), RibbonCommand::Strike),
        offers(ribbon_of(RibbonTab::Insert, s), RibbonCommand::Aside),
        offers(ribbon_of(RibbonTab::Insert, s), RibbonCommand::Image),
        offers(ribbon_of(RibbonTab::Insert, s), RibbonCommand::Link),
        offers(ribbon_of(RibbonTab::Insert, s), RibbonCommand::Video),
        offers(ribbon_of(RibbonTab::Insert, s), RibbonCommand::Table),
        offers(ribbon_of(RibbonTab::Insert, s), RibbonCommand::Divider),
        offers(ribbon_of(RibbonTab::Insert, s), RibbonCommand::TogglePreview),
{
    let groups = ribbon_of(RibbonTab::Insert, s);
    assert(groups[0].columns[0][0].command == RibbonCommand::HeadingMenu);
    assert(groups[0].columns[1][0].command == RibbonCommand::Bullets);
    assert(groups[0].columns[1][1].command == RibbonCommand::Tasks);
    assert(groups[0].columns[1][2].command == RibbonCommand::Quote);
    assert(groups[0].columns[2][0].command == RibbonCommand::InlineCode);
    assert(groups[0].columns[2][1].command == RibbonCommand::Strike);
    assert(groups[0].columns[2][2].command == RibbonCommand::Aside);
    assert(groups[1].columns[0][0].command == RibbonCommand::Image);
    assert(groups[1].columns[1][0].command == RibbonCommand::Link);
    assert(groups[1].columns[1][1].command == RibbonCommand::Video);
    assert(groups[2].columns[0][0].command == RibbonCommand::Table);
    assert(groups[2].columns[1][0].command == RibbonCommand::Divider);
    assert(groups[2].columns[1][1].command == RibbonCommand::TogglePreview);
}

/// The third tab offers what has to do with publishing.
pub proof fn law_blog_tab(s: RibbonState)
    ensures
        offers(ribbon_of(RibbonTab::Blog, s), RibbonCommand::PublishNotion),
        offers(ribbon_of(RibbonTab::Blog, s), RibbonCommand::PublishTypecho),
        offers(ribbon_of(RibbonTab::Blog, s), RibbonCommand::OpenDraft),
        offers(ribbon_of(RibbonTab::Blog, s), RibbonCommand::SaveDraft),
        offers(ribbon_of(RibbonTab::Blog, s), RibbonCommand::ToggleSettings),
        offers(ribbon_of(RibbonTab::Blog, s), RibbonCommand::TogglePreview),
{
    let groups = ribbon_of(RibbonTab::Blog, s);
    assert(groups[0].columns[0][0].command == RibbonCommand::PublishNotion);
    assert(groups[0].columns[1][0].command == RibbonCommand::PublishTypecho);
    assert(groups[1].columns[0][0].command == RibbonCommand::OpenDraft);
    assert(groups[1].columns[1][0].command == RibbonCommand::SaveDraft);
    assert(groups[2].columns[0][0].command == RibbonCommand::ToggleSettings);
    assert(groups[2].columns[1][0].command == RibbonCommand::TogglePreview);
}

/// The last tab offers what has to do with files.
pub proof fn law_file_tab(s: RibbonState)
    ensures
        offers(ribbon_of(RibbonTab::File, s), RibbonCommand::NewDocument),
        offers(ribbon_of(RibbonTab::File, s), RibbonCommand::OpenDocument),
        offers(ribbon_of(RibbonTab::File, s), RibbonCommand::SaveDocument),
        offers(ribbon_of(RibbonTab::File, s), RibbonCommand::OpenDraft),
        offers(ribbon_of(RibbonTab::File, s), RibbonCommand::SaveDraft),
        offers(ribbon_of(RibbonTab::File, s), RibbonCommand::ToggleSettings),
{
    let groups = ribbon_of(RibbonTab::File, s);
    assert(groups[0].columns[0][0].command == RibbonCommand::NewDocument);
    assert(groups[0].columns[1][0].command == RibbonCommand::OpenDocument);
    assert(groups[0].columns[2][0].command == RibbonCommand::SaveDocument);
    assert(groups[1].columns[0][0].command == RibbonCommand::OpenDraft);
    assert(groups[1].columns[1][0].command == RibbonCommand::SaveDraft);
    assert(groups[2].columns[0][0].command == RibbonCommand::ToggleSettings);
}

/// What the commands for text do: the formats put their marker around the selection, as the editor
/// finds it again; lists and quotes put their mark before the lines; and the others insert their text.
pub proof fn law_text_commands(command: RibbonCommand)
    ensures
        match text_command_of(command) {
            Some(TextCommandView::Wrap { marker, message }) => {
                ||| command == RibbonCommand::Bold && marker == seq!['*', '*']
                ||| command == RibbonCommand::Italic && marker == seq!['*']
                ||| command == RibbonCommand::Strike && marker == seq!['~', '~']
                ||| command == RibbonCommand::InlineCode && marker == seq!['`']
            },
            Some(TextCommandView::Prefix { prefix, message }) => {
                ||| command == RibbonCommand::Bullets && prefix == seq!['-', ' ']
                ||| command == RibbonCommand::Tasks && prefix == seq!['-', ' ', '[', ' ', ']', ' ']
                ||| command == RibbonCommand::Quote && prefix == seq!['>', ' ']
            },
            Some(TextCommandView::Insert { text, message }) => {
                ||| command == RibbonCommand::Divider && text == seq!['\n', '-', '-', '-', '\n']
                ||| command == RibbonCommand::Aside && text == "\n<aside>💡 提示</aside>\n"@
            },
            None => command != RibbonCommand::Bold && command != RibbonCommand::Italic && command
                != RibbonCommand::Strike && command != RibbonCommand::InlineCode && command
                != RibbonCommand::Bullets && command != RibbonCommand::Tasks && command
                != RibbonCommand::Quote && command != RibbonCommand::Divider && command
                != RibbonCommand::Aside,
        },
{
    reveal_strlit("**");
    reveal_strlit("*");
    reveal_strlit("~~");
    reveal_strlit("`");
    reveal_strlit("- ");
    reveal_strlit("- [ ] ");
    reveal_strlit("> ");
    reveal_strlit("\n---\n");
    assert("**"@ =~= seq!['*', '*']);
    assert("*"@ =~= seq!['*']);
    assert("~~"@ =~= seq!['~', '~']);
    assert("`"@ =~= seq!['`']);
    assert("- "@ =~= seq!['-', ' ']);
    assert("- [ ] "@ =~= seq!['-', ' ', '[', ' ', ']', ' ']);
    assert("> "@ =~= seq!['>', ' ']);
    assert("\n---\n"@ =~= seq!['\n', '-', '-', '-', '\n']);
}

} // verus!
