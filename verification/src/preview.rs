//! What the preview shows: inline text in segments that wrap as a whole, and the labels of blocks.

use vstd::prelude::*;
use vstd::utf8::encode_utf8;

use crate::editing::OutlineItem;
use crate::bytes::lossy_text;
use crate::lines::strs;
use crate::markdown::{
    blocks_view, document_blocks, inline_pieces, parse_blocks, parse_inline, pieces_text,
    pieces_view, rows_view, Block, BlockView, InlineStyle, PieceView, RichTextPiece,
};
use crate::names::{image_place, percent_bytes, preview_image_source, PreviewImage};
use crate::number::{decimal, to_decimal};
use crate::text::{
    blank, byte_len, chars_of, concat2, is_blank, lemma_byte_len_concat, push_text, str_len,
};
use crate::tree::opt_text;

verus! {

/// A run of characters with the same styles, in bytes of the text of its segment.
#[derive(Clone, Copy, Debug, PartialEq, Eq, Structural)]
pub struct StyledRun {
    pub start: usize,
    pub end: usize,
    pub bold: bool,
    pub italic: bool,
    pub strike: bool,
    pub code: bool,
}

/// A segment of inline text: text that wraps as a whole, a link, or an image.
#[derive(Clone, Debug, PartialEq, Eq)]
pub enum InlineSegment {
    Text { text: String, runs: Vec<StyledRun> },
    Link { text: String, url: String },
    Image { url: String },
}

/// The mathematical model of a segment.
pub ghost enum SegmentView {
    Text { text: Seq<char>, runs: Seq<StyledRun> },
    Link { text: Seq<char>, url: Seq<char> },
    Image { url: Seq<char> },
}

impl View for InlineSegment {
    type V = SegmentView;

    open spec fn view(&self) -> SegmentView {
        match *self {
            InlineSegment::Text { text, runs } => SegmentView::Text { text: text@, runs: runs@ },
            InlineSegment::Link { text, url } => SegmentView::Link { text: text@, url: url@ },
            InlineSegment::Image { url } => SegmentView::Image { url: url@ },
        }
    }
}

pub open spec fn segments_view(segments: Seq<InlineSegment>) -> Seq<SegmentView> {
    segments.map_values(|segment: InlineSegment| segment@)
}

/// Segments that are complete, and the text that the last one is growing from.
pub ghost struct Flow {
    pub done: Seq<SegmentView>,
    pub text: Seq<char>,
    pub runs: Seq<StyledRun>,
}

pub open spec fn has_style(styles: Seq<InlineStyle>, style: InlineStyle) -> bool {
    exists|k: int| 0 <= k < styles.len() && styles[k] == style
}

/// The run of a piece that starts at some byte.
pub open spec fn run_of(start: nat, text: Seq<char>, styles: Seq<InlineStyle>) -> StyledRun {
    StyledRun {
        start: start as usize,
        end: (start + byte_len(text)) as usize,
        bold: has_style(styles, InlineStyle::Bold),
        italic: has_style(styles, InlineStyle::Italic),
        strike: has_style(styles, InlineStyle::Strike),
        code: has_style(styles, InlineStyle::Code),
    }
}

/// The segments with the growing one completed, if it has a text.
pub open spec fn completed(f: Flow) -> Seq<SegmentView> {
    if f.text.len() == 0 {
        f.done
    } else {
        f.done.push(SegmentView::Text { text: f.text, runs: f.runs })
    }
}

/// A flow with no growing text.
pub open spec fn fresh(done: Seq<SegmentView>) -> Flow {
    Flow { done, text: Seq::empty(), runs: Seq::empty() }
}

/// The flow with one more piece.
pub open spec fn flow_step(f: Flow, piece: PieceView) -> Flow {
    match piece.image {
        Some(url) => fresh(completed(f).push(SegmentView::Image { url })),
        None => match piece.link {
            Some(url) => fresh(completed(f).push(SegmentView::Link { text: piece.text, url })),
            None => Flow {
                done: f.done,
                text: f.text + piece.text,
                runs: f.runs.push(run_of(byte_len(f.text), piece.text, piece.styles)),
            },
        },
    }
}

pub open spec fn flow_of(pieces: Seq<PieceView>) -> Flow
    decreases pieces.len(),
{
    if pieces.len() == 0 {
        fresh(Seq::empty())
    } else {
        flow_step(flow_of(pieces.drop_last()), pieces.last())
    }
}

/// The segments of inline text in pieces: images and links stand alone, and what is between them
/// wraps as a whole.
pub open spec fn segments_of(pieces: Seq<PieceView>) -> Seq<SegmentView> {
    completed(flow_of(pieces))
}

fn styles_have(styles: &Vec<InlineStyle>, style: InlineStyle) -> (r: bool)
    ensures
        r == has_style(styles@, style),
{
    let mut i: usize = 0;
    while i < styles.len()
        invariant
            i <= styles.len(),
            forall|k: int| 0 <= k < i ==> styles@[k] != style,
        decreases styles.len() - i,
    {
        if styles[i] == style {
            return true;
        }
        i = i + 1;
    }
    false
}

fn push_segment(segments: &mut Vec<InlineSegment>, segment: InlineSegment)
    ensures
        segments_view(final(segments)@) == segments_view(old(segments)@).push(segment@),
{
    assert(segments_view(segments@.push(segment)) =~= segments_view(segments@).push(segment@));
    segments.push(segment);
}

fn flush_inline_text(segments: &mut Vec<InlineSegment>, text: String, runs: Vec<StyledRun>)
    ensures
        segments_view(final(segments)@) == completed(
            (Flow { done: segments_view(old(segments)@), text: text@, runs: runs@ }),
        ),
{
    if chars_of(&text).len() > 0 {
        push_segment(segments, InlineSegment::Text { text, runs });
    }
}

/// The segments of inline text in pieces.
pub fn inline_segments_of(pieces: &Vec<RichTextPiece>) -> (r: Vec<InlineSegment>)
    ensures
        segments_view(r@) == segments_of(pieces_view(pieces@)),
{
    let ghost all = pieces_view(pieces@);
    let mut segments: Vec<InlineSegment> = Vec::new();
    let mut text = String::new();
    let mut runs: Vec<StyledRun> = Vec::new();
    let mut i: usize = 0;
    proof {
        assert(all.take(0) =~= Seq::empty());
        assert(segments_view(segments@) =~= Seq::empty());
        assert(text@ =~= Seq::empty());
        assert(runs@ =~= Seq::empty());
    }
    while i < pieces.len()
        invariant
            i <= pieces.len(),
            all == pieces_view(pieces@),
            flow_of(all.take(i as int)) == (Flow {
                done: segments_view(segments@),
                text: text@,
                runs: runs@,
            }),
        decreases pieces.len() - i,
    {
        let piece = &pieces[i];
        assert(all.take(i + 1).drop_last() =~= all.take(i as int));
        assert(all.take(i + 1).last() == piece@);
        if let Some(url) = &piece.image {
            flush_inline_text(&mut segments, text, runs);
            push_segment(&mut segments, InlineSegment::Image { url: url.clone() });
            text = String::new();
            runs = Vec::new();
            proof {
                assert(text@ =~= Seq::empty());
                assert(runs@ =~= Seq::empty());
            }
        } else if let Some(url) = &piece.link {
            flush_inline_text(&mut segments, text, runs);
            push_segment(
                &mut segments,
                InlineSegment::Link { text: piece.text.clone(), url: url.clone() },
            );
            text = String::new();
            runs = Vec::new();
            proof {
                assert(text@ =~= Seq::empty());
                assert(runs@ =~= Seq::empty());
            }
        } else {
            let start: usize = str_len(&text);
            proof {
                lemma_byte_len_concat(text@, piece.text@);
            }
            push_text(&mut text, &piece.text);
            let end: usize = str_len(&text);
            runs.push(
                StyledRun {
                    start,
                    end,
                    bold: styles_have(&piece.styles, InlineStyle::Bold),
                    italic: styles_have(&piece.styles, InlineStyle::Italic),
                    strike: styles_have(&piece.styles, InlineStyle::Strike),
                    code: styles_have(&piece.styles, InlineStyle::Code),
                },
            );
        }
        i = i + 1;
    }
    assert(all.take(i as int) =~= all);
    flush_inline_text(&mut segments, text, runs);
    segments
}

/// The segments of inline Markdown.
pub fn inline_preview(markdown: &str) -> (r: Vec<InlineSegment>)
    ensures
        segments_view(r@) == shown(markdown@),
{
    inline_segments_of(&parse_inline(markdown))
}

/// The size of the letters of a heading.
pub fn heading_size(level: u8) -> (r: u32)
    ensures
        r == size_of_heading(level),
{
    if level == 1 {
        28
    } else if level == 2 {
        23
    } else if level == 3 {
        20
    } else {
        17
    }
}

/// The label of a code block: its language, if it has one.
pub fn code_label(language: &Option<String>) -> (r: String)
    ensures
        r@ == match opt_text(*language) {
            Some(s) => s,
            None => "code"@,
        },
{
    match language {
        Some(s) => s.clone(),
        None => "code".to_owned(),
    }
}

/// The label of a heading in the outline, by its level, title and place.
pub open spec fn label_in_outline(item: (int, Seq<char>, int)) -> Seq<char> {
    if item.1.len() == 0 {
        "H"@ + decimal(item.0 as nat)
    } else {
        item.1
    }
}

/// The label of a heading in the outline: its title or, without one, its level.
pub fn outline_label(item: &OutlineItem) -> (r: String)
    ensures
        r@ == label_in_outline(item@),
{
    if chars_of(&item.title).len() == 0 {
        concat2("H", &to_decimal(item.level as u64))
    } else {
        item.title.clone()
    }
}

// ---------------------------------------------------------------------------
// Blocks
// ---------------------------------------------------------------------------

/// A block as the preview shows it.
#[derive(Clone, Debug, PartialEq, Eq)]
pub enum PreviewBlock {
    Heading { size: u32, content: Vec<InlineSegment> },
    Paragraph(Vec<InlineSegment>),
    Item { marker: String, depth: usize, content: Vec<InlineSegment> },
    Task { checked: bool, depth: usize, content: Vec<InlineSegment> },
    Quote(Vec<InlineSegment>),
    Aside(Vec<InlineSegment>),
    Code { label: String, text: String },
    Image { place: PreviewImage, alt: String },
    Video { url: String },
    Table { headers: Vec<Vec<InlineSegment>>, rows: Vec<Vec<Vec<InlineSegment>>> },
    Divider,
    Html(String),
}

/// The mathematical model of a block as the preview shows it.
pub ghost enum PreviewView {
    Heading { size: u32, content: Seq<SegmentView> },
    Paragraph(Seq<SegmentView>),
    Item { marker: Seq<char>, depth: usize, content: Seq<SegmentView> },
    Task { checked: bool, depth: usize, content: Seq<SegmentView> },
    Quote(Seq<SegmentView>),
    Aside(Seq<SegmentView>),
    Code { label: Seq<char>, text: Seq<char> },
    Image { place: (int, Seq<char>), alt: Seq<char> },
    Video { url: Seq<char> },
    Table { headers: Seq<Seq<SegmentView>>, rows: Seq<Seq<Seq<SegmentView>>> },
    Divider,
    Html(Seq<char>),
}

pub open spec fn cells_view(cells: Seq<Vec<InlineSegment>>) -> Seq<Seq<SegmentView>> {
    cells.map_values(|cell: Vec<InlineSegment>| segments_view(cell@))
}

pub open spec fn cell_rows_view(rows: Seq<Vec<Vec<InlineSegment>>>) -> Seq<Seq<Seq<SegmentView>>> {
    rows.map_values(|row: Vec<Vec<InlineSegment>>| cells_view(row@))
}

impl View for PreviewBlock {
    type V = PreviewView;

    open spec fn view(&self) -> PreviewView {
        match *self {
            PreviewBlock::Heading { size, content } => PreviewView::Heading {
                size,
                content: segments_view(content@),
            },
            PreviewBlock::Paragraph(content) => PreviewView::Paragraph(segments_view(content@)),
            PreviewBlock::Item { marker, depth, content } => PreviewView::Item {
                marker: marker@,
                depth,
                content: segments_view(content@),
            },
            PreviewBlock::Task { checked, depth, content } => PreviewView::Task {
                checked,
                depth,
                content: segments_view(content@),
            },
            PreviewBlock::Quote(content) => PreviewView::Quote(segments_view(content@)),
            PreviewBlock::Aside(content) => PreviewView::Aside(segments_view(content@)),
            PreviewBlock::Code { label, text } => PreviewView::Code { label: label@, text: text@ },
            PreviewBlock::Image { place, alt } => PreviewView::Image { place: place@, alt: alt@ },
            PreviewBlock::Video { url } => PreviewView::Video { url: url@ },
            PreviewBlock::Table { headers, rows } => PreviewView::Table {
                headers: cells_view(headers@),
                rows: cell_rows_view(rows@),
            },
            PreviewBlock::Divider => PreviewView::Divider,
            PreviewBlock::Html(text) => PreviewView::Html(text@),
        }
    }
}

/// The size of the letters of a heading.
pub open spec fn size_of_heading(level: u8) -> u32 {
    if level == 1 {
        28
    } else if level == 2 {
        23
    } else if level == 3 {
        20
    } else {
        17
    }
}

/// The segments of inline Markdown.
pub open spec fn shown(markdown: Seq<char>) -> Seq<SegmentView> {
    segments_of(inline_pieces(markdown))
}

/// The segments of the cells of a row.
pub open spec fn shown_cells(cells: Seq<Seq<char>>) -> Seq<Seq<SegmentView>> {
    cells.map_values(|cell: Seq<char>| shown(cell))
}

/// A block as the preview shows it. An aside without a text is named; an image is looked for beside
/// the document where that has a file.
pub open spec fn preview_of(block: BlockView, has_base: bool) -> PreviewView {
    match block {
        BlockView::Heading { level, text } => PreviewView::Heading {
            size: size_of_heading(level),
            content: shown(text),
        },
        BlockView::Paragraph(text) => PreviewView::Paragraph(shown(text)),
        BlockView::Bullet { text, depth } => PreviewView::Item {
            marker: "• "@,
            depth,
            content: shown(text),
        },
        BlockView::Numbered { marker, text, depth } => PreviewView::Item {
            marker: marker + ". "@,
            depth,
            content: shown(text),
        },
        BlockView::Task { checked, text, depth } => PreviewView::Task {
            checked,
            depth,
            content: shown(text),
        },
        BlockView::Quote(text) => PreviewView::Quote(shown(text)),
        BlockView::Aside(text) => PreviewView::Aside(
            if is_blank(text) {
                shown("旁注"@)
            } else {
                shown(text)
            },
        ),
        BlockView::Code { text, language } => PreviewView::Code {
            label: match language {
                Some(s) => s,
                None => "code"@,
            },
            text,
        },
        BlockView::Image { alt, url } => PreviewView::Image {
            place: image_place(lossy_text(percent_bytes(encode_utf8(url))), has_base),
            alt,
        },
        BlockView::Video { url } => PreviewView::Video { url },
        BlockView::Table { headers, rows } => PreviewView::Table {
            headers: shown_cells(headers),
            rows: rows.map_values(|row: Seq<Seq<char>>| shown_cells(row)),
        },
        BlockView::Divider => PreviewView::Divider,
        BlockView::Html(text) => PreviewView::Html(text),
    }
}

pub open spec fn previews_view(blocks: Seq<PreviewBlock>) -> Seq<PreviewView> {
    blocks.map_values(|block: PreviewBlock| block@)
}

pub open spec fn previews_of(blocks: Seq<BlockView>, has_base: bool) -> Seq<PreviewView> {
    blocks.map_values(|block: BlockView| preview_of(block, has_base))
}

fn preview_cells(cells: &Vec<String>) -> (r: Vec<Vec<InlineSegment>>)
    ensures
        cells_view(r@) == shown_cells(strs(cells@)),
{
    let ghost wanted = shown_cells(strs(cells@));
    let mut out: Vec<Vec<InlineSegment>> = Vec::new();
    let mut i: usize = 0;
    while i < cells.len()
        invariant
            i <= cells.len(),
            wanted == shown_cells(strs(cells@)),
            cells_view(out@) == wanted.take(i as int),
        decreases cells.len() - i,
    {
        let cell = inline_preview(&cells[i]);
        proof {
            assert(strs(cells@)[i as int] == cells@[i as int]@);
            assert(cells_view(out@.push(cell)) =~= cells_view(out@).push(segments_view(cell@)));
            assert(wanted.take(i + 1) =~= wanted.take(i as int).push(segments_view(cell@)));
        }
        out.push(cell);
        i = i + 1;
    }
    assert(wanted.take(i as int) =~= wanted);
    out
}

fn preview_rows(rows: &Vec<Vec<String>>) -> (r: Vec<Vec<Vec<InlineSegment>>>)
    ensures
        cell_rows_view(r@) == rows_view(rows@).map_values(|row: Seq<Seq<char>>| shown_cells(row)),
{
    let ghost wanted = rows_view(rows@).map_values(|row: Seq<Seq<char>>| shown_cells(row));
    let mut out: Vec<Vec<Vec<InlineSegment>>> = Vec::new();
    let mut i: usize = 0;
    while i < rows.len()
        invariant
            i <= rows.len(),
            wanted == rows_view(rows@).map_values(|row: Seq<Seq<char>>| shown_cells(row)),
            cell_rows_view(out@) == wanted.take(i as int),
        decreases rows.len() - i,
    {
        let row = preview_cells(&rows[i]);
        proof {
            assert(rows_view(rows@)[i as int] == strs(rows@[i as int]@));
            assert(cell_rows_view(out@.push(row)) =~= cell_rows_view(out@).push(cells_view(row@)));
            assert(wanted.take(i + 1) =~= wanted.take(i as int).push(cells_view(row@)));
        }
        out.push(row);
        i = i + 1;
    }
    assert(wanted.take(i as int) =~= wanted);
    out
}

/// A block as the preview shows it.
pub fn preview_block(block: &Block, has_base: bool) -> (r: PreviewBlock)
    ensures
        r@ == preview_of(block@, has_base),
{
    match block {
        Block::Heading { level, text } => PreviewBlock::Heading {
            size: heading_size(*level),
            content: inline_preview(text),
        },
        Block::Paragraph(text) => PreviewBlock::Paragraph(inline_preview(text)),
        Block::Bullet { text, depth } => PreviewBlock::Item {
            marker: "• ".to_owned(),
            depth: *depth,
            content: inline_preview(text),
        },
        Block::Numbered { marker, text, depth } => PreviewBlock::Item {
            marker: concat2(marker, ". "),
            depth: *depth,
            content: inline_preview(text),
        },
        Block::Task { checked, text, depth } => PreviewBlock::Task {
            checked: *checked,
            depth: *depth,
            content: inline_preview(text),
        },
        Block::Quote(text) => PreviewBlock::Quote(inline_preview(text)),
        Block::Aside(text) => if blank(text) {
            PreviewBlock::Aside(inline_preview("旁注"))
        } else {
            PreviewBlock::Aside(inline_preview(text))
        },
        Block::Code { text, language } => PreviewBlock::Code {
            label: code_label(language),
            text: text.clone(),
        },
        Block::Image { alt, url } => PreviewBlock::Image {
            place: preview_image_source(url, has_base),
            alt: alt.clone(),
        },
        Block::Video { url } => PreviewBlock::Video { url: url.clone() },
        Block::Table { headers, rows } => PreviewBlock::Table {
            headers: preview_cells(headers),
            rows: preview_rows(rows),
        },
        Block::Divider => PreviewBlock::Divider,
        Block::Html(text) => PreviewBlock::Html(text.clone()),
    }
}

/// Blocks as the preview shows them.
pub fn preview_blocks(blocks: &Vec<Block>, has_base: bool) -> (r: Vec<PreviewBlock>)
    ensures
        previews_view(r@) == previews_of(blocks_view(blocks@), has_base),
{
    let ghost wanted = previews_of(blocks_view(blocks@), has_base);
    let mut out: Vec<PreviewBlock> = Vec::new();
    let mut i: usize = 0;
    while i < blocks.len()
        invariant
            i <= blocks.len(),
            wanted == previews_of(blocks_view(blocks@), has_base),
            previews_view(out@) == wanted.take(i as int),
        decreases blocks.len() - i,
    {
        let block = preview_block(&blocks[i], has_base);
        proof {
            assert(blocks_view(blocks@)[i as int] == blocks@[i as int]@);
            assert(previews_view(out@.push(block)) =~= previews_view(out@).push(block@));
            assert(wanted.take(i + 1) =~= wanted.take(i as int).push(block@));
        }
        out.push(block);
        i = i + 1;
    }
    assert(wanted.take(i as int) =~= wanted);
    out
}

/// A document as the preview shows it.
pub open spec fn document_preview(markdown: Seq<char>, has_base: bool) -> Seq<PreviewView> {
    previews_of(document_blocks(markdown), has_base)
}

/// A document as the preview shows it; nothing for a document without blocks.
pub fn markdown_preview(markdown: &str, has_base: bool) -> (r: Vec<PreviewBlock>)
    ensures
        previews_view(r@) == document_preview(markdown@, has_base),
{
    preview_blocks(&parse_blocks(markdown), has_base)
}

// ---------------------------------------------------------------------------
// Laws
// ---------------------------------------------------------------------------

/// The runs follow one another from the start of the text to its end.
pub open spec fn runs_tile(runs: Seq<StyledRun>, text: Seq<char>) -> bool {
    &&& runs.len() == 0 ==> text.len() == 0
    &&& runs.len() > 0 ==> runs[0].start == 0 && runs.last().end == byte_len(text)
    &&& forall|k: int| 0 <= k < runs.len() - 1 ==> (#[trigger] runs[k]).end == runs[k + 1].start
}

pub open spec fn segment_tiled(segment: SegmentView) -> bool {
    match segment {
        SegmentView::Text { text, runs } => text.len() > 0 && runs_tile(runs, text),
        _ => true,
    }
}

pub open spec fn all_tiled(segments: Seq<SegmentView>) -> bool {
    forall|k: int| 0 <= k < segments.len() ==> segment_tiled(#[trigger] segments[k])
}

/// All texts of the pieces together are no longer than a text can be.
pub open spec fn total_bytes(pieces: Seq<PieceView>) -> nat
    decreases pieces.len(),
{
    if pieces.len() == 0 {
        0
    } else {
        total_bytes(pieces.drop_last()) + byte_len(pieces.last().text)
    }
}

proof fn lemma_flow_tiled(pieces: Seq<PieceView>)
    requires
        total_bytes(pieces) <= usize::MAX,
    ensures
        all_tiled(flow_of(pieces).done),
        runs_tile(flow_of(pieces).runs, flow_of(pieces).text),
        byte_len(flow_of(pieces).text) <= total_bytes(pieces),
    decreases pieces.len(),
{
    if pieces.len() > 0 {
        let f = flow_of(pieces.drop_last());
        let piece = pieces.last();
        lemma_flow_tiled(pieces.drop_last());
        lemma_byte_len_concat(f.text, piece.text);
        let g = flow_of(pieces);
        if piece.image is None && piece.link is None {
            let run = run_of(byte_len(f.text), piece.text, piece.styles);
            assert(g.runs == f.runs.push(run));
            assert forall|k: int| 0 <= k < g.runs.len() - 1 implies (#[trigger] g.runs[k]).end
                == g.runs[k + 1].start by {
                if k < f.runs.len() - 1 {
                    assert(g.runs[k] == f.runs[k] && g.runs[k + 1] == f.runs[k + 1]);
                } else {
                    assert(g.runs[k] == f.runs.last());
                }
            }
            if f.runs.len() == 0 {
                assert(byte_len(f.text) == 0) by {
                    assert(f.text =~= Seq::empty());
                }
            }
        } else {
            assert(byte_len(g.text) == 0);
            assert forall|k: int| 0 <= k < g.done.len() implies segment_tiled(
                #[trigger] g.done[k],
            ) by {
                if k < f.done.len() {
                    assert(g.done[k] == f.done[k]);
                }
            }
        }
    }
}

/// In every segment of text the runs of styles follow one another from its start to its end, and no
/// segment of text is empty.
pub proof fn law_runs_cover_segments(pieces: Seq<PieceView>)
    requires
        total_bytes(pieces) <= usize::MAX,
    ensures
        all_tiled(segments_of(pieces)),
{
    lemma_flow_tiled(pieces);
    let f = flow_of(pieces);
    assert forall|k: int| 0 <= k < segments_of(pieces).len() implies segment_tiled(
        #[trigger] segments_of(pieces)[k],
    ) by {
        if k < f.done.len() {
            assert(segments_of(pieces)[k] == f.done[k]);
        }
    }
}

/// The text of a segment; an image shows none.
pub open spec fn segment_text(segment: SegmentView) -> Seq<char> {
    match segment {
        SegmentView::Text { text, runs } => text,
        SegmentView::Link { text, url } => text,
        SegmentView::Image { url } => Seq::empty(),
    }
}

pub open spec fn segments_text(segments: Seq<SegmentView>) -> Seq<char>
    decreases segments.len(),
{
    if segments.len() == 0 {
        Seq::empty()
    } else {
        segments_text(segments.drop_last()) + segment_text(segments.last())
    }
}

/// No piece is an image.
pub open spec fn no_images(pieces: Seq<PieceView>) -> bool {
    forall|k: int| 0 <= k < pieces.len() ==> (#[trigger] pieces[k]).image is None
}

proof fn lemma_flow_text(pieces: Seq<PieceView>)
    requires
        no_images(pieces),
    ensures
        segments_text(flow_of(pieces).done) + flow_of(pieces).text == pieces_text(pieces),
    decreases pieces.len(),
{
    if pieces.len() == 0 {
        assert(segments_text(flow_of(pieces).done) + flow_of(pieces).text =~= pieces_text(pieces));
    } else {
        let before = pieces.drop_last();
        assert(no_images(before)) by {
            assert forall|k: int| 0 <= k < before.len() implies (#[trigger] before[k]).image is None by {
                assert(pieces[k].image is None);
            }
        }
        assert(pieces[pieces.len() - 1].image is None);
        lemma_flow_text(before);
        let f = flow_of(before);
        let g = flow_of(pieces);
        let piece = pieces.last();
        if let Some(url) = piece.link {
            lemma_completed_text(f);
            let link = SegmentView::Link { text: piece.text, url };
            assert(g.done.drop_last() =~= completed(f));
            assert(segments_text(g.done) == segments_text(completed(f)) + piece.text);
            assert(segments_text(g.done) + g.text =~= pieces_text(pieces));
        } else {
            assert(segments_text(g.done) + g.text =~= segments_text(f.done) + f.text + piece.text);
        }
    }
}

proof fn lemma_completed_text(f: Flow)
    ensures
        segments_text(completed(f)) == segments_text(f.done) + f.text,
{
    if f.text.len() == 0 {
        assert(segments_text(f.done) + f.text =~= segments_text(f.done));
    } else {
        assert(completed(f).drop_last() =~= f.done);
    }
}

/// The preview shows the text of all pieces that are not images, as it is exported.
pub proof fn law_preview_shows_all_text(pieces: Seq<PieceView>)
    requires
        no_images(pieces),
    ensures
        segments_text(segments_of(pieces)) == pieces_text(pieces),
{
    lemma_flow_text(pieces);
    lemma_completed_text(flow_of(pieces));
}

} // verus!
