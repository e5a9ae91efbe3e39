//! The models of values say what the values hold: each kind stands for itself, and each part for the
//! part of the same name.

use vstd::prelude::*;

use crate::editing::OutlineItem;
use crate::editor::{EditorState, PublishDialog};
use crate::http::{BodyView, HttpRequest, RequestBody};
use crate::input::PendingText;
use crate::json::{json, jsons, lemma_jsons, Json, JsonView, Member};
use crate::lines::strs;
use crate::markdown::{blocks_view, pieces_view, rows_view, Block, BlockView, RichTextPiece};
use crate::names::PreviewImage;
use crate::notion::{NotionPublish, NotionStage, NotionStep, StageView, StepView};
use crate::preview::{
    cell_rows_view, cells_view, previews_view, segments_view, InlineSegment, PreviewBlock,
    PreviewView, SegmentView,
};
use crate::publishing::LocalImage;
use crate::ribbon::{RibbonButton, RibbonGroup, TextCommand, TextCommandView};
use crate::storage::{DataPath, DraftEntry, DraftIndex};
use crate::tree::opt_text;

verus! {

/// Blocks.
pub proof fn law_model_of_block(block: Block)
    ensures
        match block {
            Block::Heading { level, text } => block@ == (BlockView::Heading { level, text: text@ }),
            Block::Paragraph(text) => block@ == BlockView::Paragraph(text@),
            Block::Bullet { text, depth } => block@ == (BlockView::Bullet { text: text@, depth }),
            Block::Numbered { marker, text, depth } => block@ == (BlockView::Numbered {
                marker: marker@,
                text: text@,
                depth,
            }),
            Block::Task { checked, text, depth } => block@ == (BlockView::Task {
                checked,
                text: text@,
                depth,
            }),
            Block::Quote(text) => block@ == BlockView::Quote(text@),
            Block::Aside(text) => block@ == BlockView::Aside(text@),
            Block::Code { text, language } => block@ == (BlockView::Code {
                text: text@,
                language: opt_text(language),
            }),
            Block::Image { alt, url } => block@ == (BlockView::Image { alt: alt@, url: url@ }),
            Block::Video { url } => block@ == (BlockView::Video { url: url@ }),
            Block::Table { headers, rows } => block@ == (BlockView::Table {
                headers: strs(headers@),
                rows: rows_view(rows@),
            }),
            Block::Divider => block@ is Divider,
            Block::Html(text) => block@ == BlockView::Html(text@),
        },
{
}

/// Rows of values, one for one and in order.
pub proof fn law_models_in_order(
    texts: Seq<String>,
    rows: Seq<Vec<String>>,
    blocks: Seq<Block>,
    pieces: Seq<RichTextPiece>,
    k: int,
)
    ensures
        strs(texts).len() == texts.len(),
        0 <= k < texts.len() ==> strs(texts)[k] == texts[k]@,
        rows_view(rows).len() == rows.len(),
        0 <= k < rows.len() ==> rows_view(rows)[k] == strs(rows[k]@),
        blocks_view(blocks).len() == blocks.len(),
        0 <= k < blocks.len() ==> blocks_view(blocks)[k] == blocks[k]@,
        pieces_view(pieces).len() == pieces.len(),
        0 <= k < pieces.len() ==> pieces_view(pieces)[k] == pieces[k]@,
{
}

/// Pieces of text, and texts that may be missing.
pub proof fn law_model_of_piece(piece: RichTextPiece, text: String)
    ensures
        piece@.text == piece.text@,
        piece@.styles == piece.styles@,
        piece@.link == opt_text(piece.link),
        piece@.image == opt_text(piece.image),
        opt_text(Some(text)) == Some(text@),
        opt_text(None) is None,
{
}

/// Segments of the preview.
pub proof fn law_model_of_segment(segment: InlineSegment, segments: Seq<InlineSegment>, k: int)
    ensures
        match segment {
            InlineSegment::Text { text, runs } => segment@ == (SegmentView::Text {
                text: text@,
                runs: runs@,
            }),
            InlineSegment::Link { text, url } => segment@ == (SegmentView::Link {
                text: text@,
                url: url@,
            }),
            InlineSegment::Image { url } => segment@ == (SegmentView::Image { url: url@ }),
        },
        segments_view(segments).len() == segments.len(),
        0 <= k < segments.len() ==> segments_view(segments)[k] == segments[k]@,
{
}

/// Places of images.
pub proof fn law_model_of_place(place: PreviewImage)
    ensures
        match place {
            PreviewImage::File(path) => place@ == (0int, path@),
            PreviewImage::Url(url) => place@ == (1int, url@),
            PreviewImage::Beside(path) => place@ == (2int, path@),
        },
{
}

/// Blocks of the preview.
pub proof fn law_model_of_preview(block: PreviewBlock)
    ensures
        match block {
            PreviewBlock::Heading { size, content } => block@ == (PreviewView::Heading {
                size,
                content: segments_view(content@),
            }),
            PreviewBlock::Paragraph(content) => block@ == PreviewView::Paragraph(
                segments_view(content@),
            ),
            PreviewBlock::Item { marker, depth, content } => block@ == (PreviewView::Item {
                marker: marker@,
                depth,
                content: segments_view(content@),
            }),
            PreviewBlock::Task { checked, depth, content } => block@ == (PreviewView::Task {
                checked,
                depth,
                content: segments_view(content@),
            }),
            PreviewBlock::Quote(content) => block@ == PreviewView::Quote(segments_view(content@)),
            PreviewBlock::Aside(content) => block@ == PreviewView::Aside(segments_view(content@)),
            PreviewBlock::Code { label, text } => block@ == (PreviewView::Code {
                label: label@,
                text: text@,
            }),
            PreviewBlock::Image { place, alt } => block@ == (PreviewView::Image {
                place: place@,
                alt: alt@,
            }),
            PreviewBlock::Video { url } => block@ == (PreviewView::Video { url: url@ }),
            PreviewBlock::Table { headers, rows } => block@ == (PreviewView::Table {
                headers: cells_view(headers@),
                rows: cell_rows_view(rows@),
            }),
            PreviewBlock::Divider => block@ is Divider,
            PreviewBlock::Html(text) => block@ == PreviewView::Html(text@),
        },
{
}

/// Rows of what the preview shows, one for one and in order.
pub proof fn law_previews_in_order(
    cells: Seq<Vec<InlineSegment>>,
    rows: Seq<Vec<Vec<InlineSegment>>>,
    blocks: Seq<PreviewBlock>,
    k: int,
)
    ensures
        cells_view(cells).len() == cells.len(),
        0 <= k < cells.len() ==> cells_view(cells)[k] == segments_view(cells[k]@),
        cell_rows_view(rows).len() == rows.len(),
        0 <= k < rows.len() ==> cell_rows_view(rows)[k] == cells_view(rows[k]@),
        previews_view(blocks).len() == blocks.len(),
        0 <= k < blocks.len() ==> previews_view(blocks)[k] == blocks[k]@,
{
}

/// JSON values.
pub proof fn law_model_of_json(b: bool, n: u64, text: String, values: Vec<Json>, k: int)
    ensures
        json(Json::Bool(b)) == JsonView::Bool(b),
        json(Json::Number(n)) == JsonView::Number(n as nat),
        json(Json::Text(text)) == JsonView::Text(text@),
        json(Json::Array(values)) == JsonView::Array(jsons(values@)),
        jsons(values@).len() == values@.len(),
        0 <= k < values@.len() ==> jsons(values@)[k] == json(values@[k]),
{
    lemma_jsons(values@);
}

/// The members of a JSON object: of those with the same key the last one counts.
pub proof fn law_model_of_object(before: Seq<Member>, member: Member, key: Seq<char>)
    ensures
        ({
            let all = crate::json::members(before.push(member));
            &&& all.dom().contains(member.key@) && all[member.key@] == json(member.value)
            &&& key != member.key@ ==> (all.dom().contains(key) <==> crate::json::members(
                before,
            ).dom().contains(key))
            &&& key != member.key@ && all.dom().contains(key) ==> all[key] == crate::json::members(
                before,
            )[key]
        }),
{
    assert(before.push(member).drop_last() =~= before);
}

/// Requests.
pub proof fn law_model_of_request(request: HttpRequest, k: int)
    ensures
        request@.method == request.method,
        request@.uri == request.uri@,
        request@.headers.len() == request.headers@.len(),
        0 <= k < request.headers@.len() ==> request@.headers[k] == (
            request.headers@[k].name@,
            request.headers@[k].value@,
        ),
        match request.body {
            RequestBody::Empty => request@.body is Empty,
            RequestBody::Json(value) => request@.body == BodyView::Json(json(value)),
            RequestBody::Text(text) => request@.body == BodyView::Text(text@),
        },
{
}

/// Publications.
pub proof fn law_model_of_publication(p: NotionPublish, step: NotionStep)
    ensures
        p@.token == p.token@,
        p@.target == p.target@,
        p@.title == p.title@,
        p@.markdown == p.markdown@,
        p@.page_missing == p.page_missing,
        match p.stage {
            NotionStage::Page => p@.stage is Page,
            NotionStage::Database => p@.stage is Database,
            NotionStage::DataSource { database_status, database_text } => p@.stage == (
            StageView::DataSource { database_status, database_text: database_text@ }),
            NotionStage::TitleProperty { data_source } => p@.stage == (StageView::TitleProperty {
                data_source: data_source@,
            }),
            NotionStage::Row => p@.stage is Row,
            NotionStage::Finished => p@.stage is Finished,
        },
        match step {
            NotionStep::Send(request) => step@ == StepView::Send(request@),
            NotionStep::Done(page) => step@ == StepView::Done(page.id@, page.url@),
            NotionStep::Failed(message) => step@ == StepView::Failed(message@),
        },
{
}

/// Drafts, paths, images and entries of the outline.
pub proof fn law_model_of_stored(
    draft: DraftEntry,
    index: DraftIndex,
    path: DataPath,
    image: LocalImage,
    item: OutlineItem,
    k: int,
)
    ensures
        draft@.id == draft.id@,
        draft@.title == draft.title@,
        draft@.updated_at == draft.updated_at,
        draft@.excerpt == draft.excerpt@,
        index@.len() == index.drafts@.len(),
        0 <= k < index@.len() ==> index@[k] == index.drafts@[k]@,
        path@ == (path.root, strs(path.parts@)),
        image@ == (image.alt@, image.url@),
        item@ == (item.level as int, item.title@, item.offset as int),
{
}

/// Buttons and commands.
pub proof fn law_model_of_button(button: RibbonButton, group: RibbonGroup, command: TextCommand, c: int, b: int)
    ensures
        button@.size == button.size,
        button@.icon == button.icon@,
        button@.label == button.label@,
        button@.badged == button.badged,
        button@.command == button.command,
        group@.label == group.label@,
        group@.columns.len() == group.columns@.len(),
        0 <= c < group.columns@.len() ==> group@.columns[c].len() == group.columns@[c]@.len(),
        0 <= c < group.columns@.len() && 0 <= b < group.columns@[c]@.len() ==> group@.columns[c][b]
            == group.columns@[c]@[b]@,
        match command {
            TextCommand::Wrap { marker, message } => command@ == (TextCommandView::Wrap {
                marker: marker@,
                message: message@,
            }),
            TextCommand::Prefix { prefix, message } => command@ == (TextCommandView::Prefix {
                prefix: prefix@,
                message: message@,
            }),
            TextCommand::Insert { text, message } => command@ == (TextCommandView::Insert {
                text: text@,
                message: message@,
            }),
        },
{
}

/// The text that waits, and the dialog to publish.
pub proof fn law_model_of_dialogs(pending: PendingText, dialog: PublishDialog)
    ensures
        pending@.content == opt_text(pending.content),
        pending@.insert == opt_text(pending.insert),
        pending@.refocus == pending.refocus,
        dialog@.title == dialog.title@,
        dialog@.update_line == opt_text(dialog.update_line),
        dialog@.public_line == opt_text(dialog.public_line),
        dialog@.image_line == opt_text(dialog.image_line),
        dialog@.settings_line == opt_text(dialog.settings_line),
        dialog@.confirm == opt_text(dialog.confirm),
{
}

/// The editor.
pub proof fn law_model_of_editor(e: EditorState)
    ensures
        e@.has_path == e.has_path,
        e@.preview == e.preview,
        e@.workspace_mode == e.workspace_mode,
        e@.focus_mode == e.focus_mode,
        e@.outline_visible == e.outline_visible,
        e@.settings_visible == e.settings_visible,
        e@.dialog == e.dialog,
        e@.dirty == e.dirty,
        e@.status == e.status@,
        e@.observed == e.last_observed_content@,
        e@.close_confirmed == e.close_confirmed,
        e@.line_ending == e.line_ending@,
        e@.encoding == e.file_encoding,
        e@.last_draft == opt_text(e.last_draft_content),
        e@.publishing == e.publishing,
        e@.update_existing == e.publish_update_existing,
        e@.public == e.publish_public,
        e@.meta.notion_page_id == opt_text(e.document_meta.notion_page_id),
        e@.meta.notion_url == opt_text(e.document_meta.notion_url),
        e@.meta.typecho_post_id == opt_text(e.document_meta.typecho_post_id),
        e@.preview_source == e.preview_source@,
        e@.generation == e.preview_generation,
        e@.table_rows == e.table_rows,
        e@.table_cols == e.table_cols,
{
}

} // verus!
