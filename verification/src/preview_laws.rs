//! What the preview promises of the blocks and the pieces that it shows.

use vstd::prelude::*;
use vstd::utf8::encode_utf8;

use crate::bytes::lossy_text;
use crate::markdown::{
    document_blocks, inline_pieces, pieces_text, BlockView, InlineStyle, PieceView,
};
use crate::names::{image_place, percent_bytes};
use crate::preview::{
    completed, document_preview, flow_of, flow_step, preview_of, previews_of, segments_of, shown,
    size_of_heading, total_bytes, Flow, PreviewView, SegmentView, StyledRun,
};
use crate::text::{byte_len, is_blank, lemma_byte_len_concat};

verus! {

// ---------------------------------------------------------------------------
// Segments
// ---------------------------------------------------------------------------

/// The piece is text, with no link and no image.
pub open spec fn is_text(piece: PieceView) -> bool {
    piece.link is None && piece.image is None
}

/// The run covers the bytes from `start` to `end`, and shows just the styles of the piece.
pub open spec fn shows_styles(run: StyledRun, start: int, end: int, piece: PieceView) -> bool {
    &&& run.start == start
    &&& run.end == end
    &&& run.bold <==> piece.styles.contains(InlineStyle::Bold)
    &&& run.italic <==> piece.styles.contains(InlineStyle::Italic)
    &&& run.strike <==> piece.styles.contains(InlineStyle::Strike)
    &&& run.code <==> piece.styles.contains(InlineStyle::Code)
}

proof fn lemma_text_flow(pieces: Seq<PieceView>)
    requires
        forall|k: int| 0 <= k < pieces.len() ==> is_text(#[trigger] pieces[k]),
        total_bytes(pieces) <= usize::MAX,
    ensures
        ({
            let f = flow_of(pieces);
            &&& f.done.len() == 0
            &&& f.text == pieces_text(pieces)
            &&& byte_len(f.text) == total_bytes(pieces)
            &&& f.runs.len() == pieces.len()
            &&& forall|k: int|
                0 <= k < pieces.len() ==> shows_styles(
                    #[trigger] f.runs[k],
                    byte_len(pieces_text(pieces.take(k))) as int,
                    byte_len(pieces_text(pieces.take(k + 1))) as int,
                    pieces[k],
                )
        }),
    decreases pieces.len(),
{
    if pieces.len() > 0 {
        let before = pieces.drop_last();
        let last = pieces.last();
        assert(is_text(pieces[pieces.len() - 1]));
        assert forall|k: int| 0 <= k < before.len() implies is_text(#[trigger] before[k]) by {
            assert(is_text(pieces[k]));
        }
        lemma_text_flow(before);
        let f = flow_of(before);
        let g = flow_of(pieces);
        lemma_byte_len_concat(f.text, last.text);
        assert forall|k: int| 0 <= k < pieces.len() implies shows_styles(
            #[trigger] g.runs[k],
            byte_len(pieces_text(pieces.take(k))) as int,
            byte_len(pieces_text(pieces.take(k + 1))) as int,
            pieces[k],
        ) by {
            if k < before.len() {
                assert(g.runs[k] == f.runs[k]);
                assert(before.take(k) =~= pieces.take(k));
                assert(before.take(k + 1) =~= pieces.take(k + 1));
            } else {
                assert(pieces.take(k) =~= before);
                assert(pieces.take(k + 1) =~= pieces);
            }
        }
    }
}

/// Text without links and images is one segment with all of it. Each piece has a run of its own over
/// its bytes, in order, and the run is bold, italic, struck or code exactly where the piece is.
pub proof fn law_text_is_one_segment(pieces: Seq<PieceView>)
    requires
        forall|k: int| 0 <= k < pieces.len() ==> is_text(#[trigger] pieces[k]),
        total_bytes(pieces) <= usize::MAX,
        pieces_text(pieces).len() > 0,
    ensures
        ({
            let segments = segments_of(pieces);
            &&& segments.len() == 1
            &&& segments[0] is Text
            &&& segments[0]->Text_text == pieces_text(pieces)
            &&& segments[0]->Text_runs.len() == pieces.len()
            &&& forall|k: int|
                0 <= k < pieces.len() ==> shows_styles(
                    #[trigger] segments[0]->Text_runs[k],
                    byte_len(pieces_text(pieces.take(k))) as int,
                    byte_len(pieces_text(pieces.take(k + 1))) as int,
                    pieces[k],
                )
        }),
{
    lemma_text_flow(pieces);
}

/// The segment of a piece that stands alone: its image or, where it has none, its link.
pub open spec fn stands_for(segment: SegmentView, piece: PieceView) -> bool {
    match segment {
        SegmentView::Image { url } => piece.image == Some(url),
        SegmentView::Link { text, url } => piece.image is None && piece.link == Some(url) && text
            == piece.text,
        SegmentView::Text { text, runs } => false,
    }
}

proof fn lemma_flow_behind(a: Seq<PieceView>, b: Seq<PieceView>)
    requires
        flow_of(a).text.len() == 0,
        flow_of(a).runs.len() == 0,
    ensures
        flow_of(a + b) == (Flow { done: flow_of(a).done + flow_of(b).done, ..flow_of(b) }),
    decreases b.len(),
{
    let f = flow_of(a);
    if b.len() == 0 {
        assert(a + b =~= a);
        assert(f.done + Seq::empty() =~= f.done);
        assert(f.text =~= Seq::empty());
        assert(f.runs =~= Seq::empty());
    } else {
        lemma_flow_behind(a, b.drop_last());
        assert((a + b).drop_last() =~= a + b.drop_last());
        let g = flow_of(b.drop_last());
        let h = Flow { done: f.done + g.done, ..g };
        assert(flow_of(a + b) == flow_step(h, b.last()));
        assert(completed(h) =~= f.done + completed(g));
        assert(flow_of(a + b).done =~= f.done + flow_of(b).done);
    }
}

/// A link or an image stands alone between what comes before it and what comes behind it, which are
/// shown as they would be by themselves.
pub proof fn law_links_and_images_stand_alone(
    a: Seq<PieceView>,
    piece: PieceView,
    b: Seq<PieceView>,
)
    requires
        !is_text(piece),
    ensures
        ({
            let before = segments_of(a);
            let all = segments_of(a + seq![piece] + b);
            &&& all.len() == before.len() + 1 + segments_of(b).len()
            &&& all.take(before.len() as int) == before
            &&& stands_for(all[before.len() as int], piece)
            &&& all.skip(before.len() as int + 1) == segments_of(b)
        }),
{
    let first = a + seq![piece];
    assert(first.drop_last() =~= a);
    let f = flow_of(first);
    lemma_flow_behind(first, b);
    let g = flow_of(b);
    let h = Flow { done: f.done + g.done, ..g };
    assert(completed(h) =~= f.done + completed(g));
    let all = segments_of(first + b);
    assert(f.done.drop_last() =~= segments_of(a));
    assert(all.take(segments_of(a).len() as int) =~= segments_of(a));
    assert(all.skip(segments_of(a).len() as int + 1) =~= segments_of(b));
}

/// Nothing is shown of no pieces.
pub proof fn law_nothing_from_nothing()
    ensures
        segments_of(Seq::empty()).len() == 0,
{
}

// ---------------------------------------------------------------------------
// Blocks
// ---------------------------------------------------------------------------

/// The preview shows every block of a document, in order, each as it would be by itself.
pub proof fn law_preview_in_order(blocks: Seq<BlockView>, has_base: bool)
    ensures
        previews_of(blocks, has_base).len() == blocks.len(),
        forall|k: int|
            0 <= k < blocks.len() ==> #[trigger] previews_of(blocks, has_base)[k] == preview_of(
                blocks[k],
                has_base,
            ),
{
}

/// The preview of a document shows every block of the document, in order.
pub proof fn law_document_preview(markdown: Seq<char>, has_base: bool)
    ensures
        document_preview(markdown, has_base).len() == document_blocks(markdown).len(),
        forall|k: int|
            0 <= k < document_blocks(markdown).len() ==> #[trigger] document_preview(
                markdown,
                has_base,
            )[k] == preview_of(document_blocks(markdown)[k], has_base),
        shown(markdown) == segments_of(inline_pieces(markdown)),
{
}

/// Headings of the first three levels are larger the higher they are, and the others are the
/// smallest; each is larger than the text of a paragraph.
pub proof fn law_heading_sizes(level: u8)
    ensures
        size_of_heading(1) > size_of_heading(2) > size_of_heading(3) > size_of_heading(4) > 16,
        level == 0 || level > 3 ==> size_of_heading(level) == size_of_heading(4),
        size_of_heading(1) == 28 && size_of_heading(2) == 23 && size_of_heading(3) == 20
            && size_of_heading(4) == 17,
{
}

/// Headings, paragraphs and quotes are shown as such with all of their text.
pub proof fn law_preview_of_text(level: u8, text: Seq<char>, has_base: bool)
    ensures
        ({
            let content = segments_of(inline_pieces(text));
            &&& preview_of(BlockView::Heading { level, text }, has_base) == (PreviewView::Heading {
                size: size_of_heading(level),
                content,
            })
            &&& preview_of(BlockView::Paragraph(text), has_base) == PreviewView::Paragraph(content)
            &&& preview_of(BlockView::Quote(text), has_base) == PreviewView::Quote(content)
            &&& !is_blank(text) ==> preview_of(BlockView::Aside(text), has_base)
                == PreviewView::Aside(content)
            &&& is_blank(text) ==> preview_of(BlockView::Aside(text), has_base)
                == PreviewView::Aside(segments_of(inline_pieces("旁注"@)))
        }),
{
}

/// Items of lists are shown at their level with all of their text: behind a dot, behind their number
/// and a full stop, or behind a box that is ticked where the task is done.
pub proof fn law_preview_of_items(
    marker: Seq<char>,
    checked: bool,
    text: Seq<char>,
    depth: usize,
    has_base: bool,
)
    ensures
        ({
            let content = segments_of(inline_pieces(text));
            &&& preview_of(BlockView::Bullet { text, depth }, has_base) == (PreviewView::Item {
                marker: "• "@,
                depth,
                content,
            })
            &&& preview_of(BlockView::Numbered { marker, text, depth }, has_base) == (
            PreviewView::Item { marker: marker + ". "@, depth, content })
            &&& preview_of(BlockView::Task { checked, text, depth }, has_base) == (
            PreviewView::Task { checked, depth, content })
        }),
{
}

/// Code is shown as it is, under the name of its language where it has one.
pub proof fn law_preview_of_code(text: Seq<char>, language: Option<Seq<char>>, has_base: bool)
    ensures
        ({
            let shown = preview_of(BlockView::Code { text, language }, has_base);
            &&& shown is Code
            &&& shown->Code_text == text
            &&& language is Some ==> shown->Code_label == language.unwrap()
            &&& language is None ==> shown->Code_label == "code"@
        }),
{
}

/// Images, videos, dividers and HTML are shown as such: an image by its address with the encoding of
/// addresses undone, and a video and HTML as they are.
pub proof fn law_preview_of_media(alt: Seq<char>, url: Seq<char>, text: Seq<char>, has_base: bool)
    ensures
        preview_of(BlockView::Image { alt, url }, has_base) == (PreviewView::Image {
            place: image_place(lossy_text(percent_bytes(encode_utf8(url))), has_base),
            alt,
        }),
        preview_of(BlockView::Video { url }, has_base) == (PreviewView::Video { url }),
        preview_of(BlockView::Divider, has_base) is Divider,
        preview_of(BlockView::Html(text), has_base) == PreviewView::Html(text),
{
}

/// A table is shown with all of its headers and rows, in order, and every cell with all of its text.
pub proof fn law_preview_of_table(
    headers: Seq<Seq<char>>,
    rows: Seq<Seq<Seq<char>>>,
    has_base: bool,
)
    ensures
        ({
            let shown = preview_of(BlockView::Table { headers, rows }, has_base);
            &&& shown is Table
            &&& shown->Table_headers.len() == headers.len()
            &&& forall|j: int|
                0 <= j < headers.len() ==> #[trigger] shown->Table_headers[j] == segments_of(
                    inline_pieces(headers[j]),
                )
            &&& shown->Table_rows.len() == rows.len()
            &&& forall|k: int|
                0 <= k < rows.len() ==> (#[trigger] shown->Table_rows[k]).len() == rows[k].len()
            &&& forall|k: int, j: int|
                0 <= k < rows.len() && 0 <= j < rows[k].len() ==> (
                #[trigger] shown->Table_rows[k][j]) == segments_of(inline_pieces(rows[k][j]))
        }),
{
}

/// A heading stands in the outline under its title, and without one under its level.
pub proof fn law_label_in_outline(level: nat, title: Seq<char>, offset: int)
    ensures
        title.len() > 0 ==> crate::preview::label_in_outline((level as int, title, offset)) == title,
        crate::preview::label_in_outline((level as int, Seq::empty(), offset)) == seq!['H']
            + crate::number::decimal(level),
{
    reveal_strlit("H");
    assert("H"@ =~= seq!['H']);
}

} // verus!
