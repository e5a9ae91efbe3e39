//! What the blocks and the pieces of a document promise of the tree that they come from.

use vstd::prelude::*;

use crate::lines::joined;
use crate::markdown::{
    aside_of, cells_of, deeper, document_blocks, entry_pieces, inline_of, inline_pieces,
    inlines_of, item_number, item_pieces, item_text, list_blocks, list_item_blocks, nested_blocks,
    node_pieces, nodes_pieces, pieces_text, quote_pieces, quote_text, rows_of, tree_blocks,
    tree_pieces, trees_blocks, BlockView, InlineStyle, PieceView,
};
use crate::number::decimal;
use crate::text::{
    ascii_lower, find_last, has_prefix, is_blank, is_white, lemma_find_is, lemma_find_last,
    lemma_trim_same, lower_char, matches_at, trim_of,
};
use crate::tree::{gfm_tree, opt_text, parsed_tree, parsed_trees, tree_of, trees_of, MarkNode, Tree};

verus! {

// ---------------------------------------------------------------------------
// Trees
// ---------------------------------------------------------------------------

/// The models of nodes are those of each node, in order.
pub proof fn law_nodes_in_order(nodes: Seq<::markdown::mdast::Node>)
    ensures
        parsed_trees(nodes).len() == nodes.len(),
        forall|k: int|
            0 <= k < nodes.len() ==> parsed_trees(nodes)[k] == parsed_tree(#[trigger] nodes[k]),
    decreases nodes.len(),
{
    if nodes.len() > 0 {
        law_nodes_in_order(nodes.drop_last());
        assert forall|k: int| 0 <= k < nodes.len() implies parsed_trees(nodes)[k] == parsed_tree(
            #[trigger] nodes[k],
        ) by {
            if k < nodes.len() - 1 {
                assert(nodes.drop_last()[k] == nodes[k]);
            }
        }
    }
}

/// A node that holds other nodes keeps its kind and all of them.
pub proof fn law_node_keeps_children(n: ::markdown::mdast::Node)
    ensures
        match n {
            ::markdown::mdast::Node::Root(x) => parsed_tree(n) == Tree::Root(
                parsed_trees(x.children@),
            ),
            ::markdown::mdast::Node::Paragraph(x) => parsed_tree(n) == Tree::Paragraph(
                parsed_trees(x.children@),
            ),
            ::markdown::mdast::Node::Blockquote(x) => parsed_tree(n) == Tree::Blockquote(
                parsed_trees(x.children@),
            ),
            ::markdown::mdast::Node::Emphasis(x) => parsed_tree(n) == Tree::Emphasis(
                parsed_trees(x.children@),
            ),
            ::markdown::mdast::Node::Strong(x) => parsed_tree(n) == Tree::Strong(
                parsed_trees(x.children@),
            ),
            ::markdown::mdast::Node::Delete(x) => parsed_tree(n) == Tree::Delete(
                parsed_trees(x.children@),
            ),
            ::markdown::mdast::Node::Table(x) => parsed_tree(n) == Tree::Table(
                parsed_trees(x.children@),
            ),
            ::markdown::mdast::Node::TableRow(x) => parsed_tree(n) == Tree::TableRow(
                parsed_trees(x.children@),
            ),
            ::markdown::mdast::Node::TableCell(x) => parsed_tree(n) == Tree::TableCell(
                parsed_trees(x.children@),
            ),
            ::markdown::mdast::Node::Heading(x) => parsed_tree(n) == (Tree::Heading {
                depth: x.depth,
                children: parsed_trees(x.children@),
            }),
            ::markdown::mdast::Node::List(x) => parsed_tree(n) == (Tree::List {
                ordered: x.ordered,
                start: x.start,
                children: parsed_trees(x.children@),
            }),
            ::markdown::mdast::Node::ListItem(x) => parsed_tree(n) == (Tree::ListItem {
                checked: x.checked,
                children: parsed_trees(x.children@),
            }),
            ::markdown::mdast::Node::Link(x) => parsed_tree(n) == (Tree::Link {
                url: x.url@,
                children: parsed_trees(x.children@),
            }),
            _ => true,
        },
{
}

/// A node without other nodes keeps its kind and its text, and an image its address.
pub proof fn law_node_keeps_text(n: ::markdown::mdast::Node)
    ensures
        match n {
            ::markdown::mdast::Node::Html(x) => parsed_tree(n) == Tree::Html(x.value@),
            ::markdown::mdast::Node::Text(x) => parsed_tree(n) == Tree::Text(x.value@),
            ::markdown::mdast::Node::InlineCode(x) => parsed_tree(n) == Tree::InlineCode(x.value@),
            ::markdown::mdast::Node::InlineMath(x) => parsed_tree(n) == Tree::InlineMath(x.value@),
            ::markdown::mdast::Node::Code(x) => parsed_tree(n) == (Tree::Code {
                value: x.value@,
                lang: opt_text(x.lang),
            }),
            ::markdown::mdast::Node::Image(x) => parsed_tree(n) == (Tree::Image {
                alt: x.alt@,
                url: x.url@,
            }),
            ::markdown::mdast::Node::ThematicBreak(_) => parsed_tree(n) is ThematicBreak,
            ::markdown::mdast::Node::Break(_) => parsed_tree(n) is Break,
            _ => true,
        },
{
}

/// The model of a node of the library has the kind of the node, and its texts and flags.
pub proof fn law_model_of_node(n: MarkNode)
    ensures
        match n {
            MarkNode::Root(c) => tree_of(n) == Tree::Root(trees_of(c@)),
            MarkNode::Paragraph(c) => tree_of(n) == Tree::Paragraph(trees_of(c@)),
            MarkNode::Blockquote(c) => tree_of(n) == Tree::Blockquote(trees_of(c@)),
            MarkNode::Emphasis(c) => tree_of(n) == Tree::Emphasis(trees_of(c@)),
            MarkNode::Strong(c) => tree_of(n) == Tree::Strong(trees_of(c@)),
            MarkNode::Delete(c) => tree_of(n) == Tree::Delete(trees_of(c@)),
            MarkNode::Table(c) => tree_of(n) == Tree::Table(trees_of(c@)),
            MarkNode::TableRow(c) => tree_of(n) == Tree::TableRow(trees_of(c@)),
            MarkNode::TableCell(c) => tree_of(n) == Tree::TableCell(trees_of(c@)),
            MarkNode::Html(s) => tree_of(n) == Tree::Html(s@),
            MarkNode::Text(s) => tree_of(n) == Tree::Text(s@),
            MarkNode::InlineCode(s) => tree_of(n) == Tree::InlineCode(s@),
            MarkNode::InlineMath(s) => tree_of(n) == Tree::InlineMath(s@),
            MarkNode::Heading { depth, children } => tree_of(n) == (Tree::Heading {
                depth,
                children: trees_of(children@),
            }),
            MarkNode::List { ordered, start, children } => tree_of(n) == (Tree::List {
                ordered,
                start,
                children: trees_of(children@),
            }),
            MarkNode::ListItem { checked, children } => tree_of(n) == (Tree::ListItem {
                checked,
                children: trees_of(children@),
            }),
            MarkNode::Code { value, lang } => tree_of(n) == (Tree::Code {
                value: value@,
                lang: opt_text(lang),
            }),
            MarkNode::Link { url, children } => tree_of(n) == (Tree::Link {
                url: url@,
                children: trees_of(children@),
            }),
            MarkNode::Image { alt, url } => tree_of(n) == (Tree::Image { alt: alt@, url: url@ }),
            MarkNode::ThematicBreak => tree_of(n) is ThematicBreak,
            MarkNode::Break => tree_of(n) is Break,
            MarkNode::Other => tree_of(n) is Other,
        },
{
}

// ---------------------------------------------------------------------------
// Documents
// ---------------------------------------------------------------------------

/// The blocks of a document come in the order of the document: those of its first part, and then
/// those of the rest. None is lost, added or moved where two parts meet.
pub proof fn law_blocks_in_order(a: Seq<Tree>, b: Seq<Tree>)
    ensures
        tree_blocks(Tree::Root(a + b)) == tree_blocks(Tree::Root(a)) + tree_blocks(Tree::Root(b)),
    decreases b.len(),
{
    if b.len() == 0 {
        assert(a + b =~= a);
        assert(trees_blocks(a) + Seq::empty() =~= trees_blocks(a));
    } else {
        law_blocks_in_order(a, b.drop_last());
        assert((a + b).drop_last() =~= a + b.drop_last());
        assert(trees_blocks(a) + trees_blocks(b.drop_last()) + tree_blocks(b.last())
            =~= trees_blocks(a) + (trees_blocks(b.drop_last()) + tree_blocks(b.last())));
    }
}

/// A document of one node has the blocks of that node, and a document of none has no blocks.
pub proof fn law_block_alone(t: Tree)
    ensures
        tree_blocks(Tree::Root(seq![t])) == tree_blocks(t),
        tree_blocks(Tree::Root(Seq::empty())) == Seq::<BlockView>::empty(),
{
    let one = seq![t];
    assert(one.drop_last() =~= Seq::<Tree>::empty());
    assert(Seq::empty() + tree_blocks(t) =~= tree_blocks(t));
    assert(trees_blocks(one) == trees_blocks(one.drop_last()) + tree_blocks(one.last()));
}

/// A document shows the blocks of its tree; one that has no tree is shown as one paragraph with all
/// of its text.
pub proof fn law_document_shows_its_tree(markdown: Seq<char>)
    ensures
        match gfm_tree(markdown) {
            Some(Tree::Root(nodes)) => forall|k: int|
                #![trigger nodes.take(k)]
                0 <= k <= nodes.len() ==> document_blocks(markdown) == tree_blocks(
                    Tree::Root(nodes.take(k)),
                ) + tree_blocks(Tree::Root(nodes.skip(k))),
            Some(tree) => document_blocks(markdown) == tree_blocks(tree),
            None => document_blocks(markdown).len() == 1 && document_blocks(markdown)[0]
                == BlockView::Paragraph(markdown),
        },
{
    if let Some(Tree::Root(nodes)) = gfm_tree(markdown) {
        assert forall|k: int|
            #![trigger nodes.take(k)]
            0 <= k <= nodes.len() implies document_blocks(markdown) == tree_blocks(
            Tree::Root(nodes.take(k)),
        ) + tree_blocks(Tree::Root(nodes.skip(k))) by {
            law_blocks_in_order(nodes.take(k), nodes.skip(k));
            assert(nodes.take(k) + nodes.skip(k) =~= nodes);
        }
    }
}

/// A heading is one block, with the level and the text of the heading.
pub proof fn law_heading_block(depth: u8, children: Seq<Tree>)
    ensures
        ({
            let blocks = tree_blocks(Tree::Heading { depth, children });
            &&& blocks.len() == 1
            &&& blocks[0] is Heading
            &&& blocks[0]->Heading_level == depth
            &&& blocks[0]->Heading_text == inlines_of(children)
        }),
{
}

/// A code block keeps its text and its language as they are.
pub proof fn law_code_block(value: Seq<char>, lang: Option<Seq<char>>)
    ensures
        ({
            let blocks = tree_blocks(Tree::Code { value, lang });
            &&& blocks.len() == 1
            &&& blocks[0] is Code
            &&& blocks[0]->Code_text == value
            &&& blocks[0]->Code_language == lang
        }),
{
}

/// A line across the page is a divider; an image that stands alone, in a paragraph or not, is an
/// image with its text and its address.
pub proof fn law_divider_and_image_blocks(alt: Seq<char>, url: Seq<char>)
    ensures
        tree_blocks(Tree::ThematicBreak).len() == 1,
        tree_blocks(Tree::ThematicBreak)[0] is Divider,
        forall|t: Tree|
            t == (Tree::Image { alt, url }) || t == Tree::Paragraph(seq![Tree::Image { alt, url }])
                ==> {
                let blocks = #[trigger] tree_blocks(t);
                &&& blocks.len() == 1
                &&& blocks[0] is Image
                &&& blocks[0]->Image_alt == alt
                &&& blocks[0]->Image_url == url
            },
{
}

/// A paragraph that is a link alone with the label of a video, in either language and in capital or
/// small letters, is a video at the address of the link. With another label it is a paragraph.
pub proof fn law_video_block(url: Seq<char>, children: Seq<Tree>)
    ensures
        ({
            let link = Tree::Link { url, children };
            let label = trim_of(inlines_of(children));
            let blocks = tree_blocks(Tree::Paragraph(seq![link]));
            if ascii_lower(label) == "video"@ || label == "视频"@ {
                blocks.len() == 1 && blocks[0] is Video && blocks[0]->Video_url == url
            } else {
                blocks.len() == 1 && blocks[0] is Paragraph && blocks[0]->Paragraph_0 == inline_of(
                    link,
                )
            }
        }),
{
    let link = Tree::Link { url, children };
    reveal_strlit("video");
    assert(ascii_lower("video"@) =~= "video"@);
    law_inline_alone(link);
    reveal_strlit("[");
    assert(inline_of(link)[0] == '[');
    assert(!is_white('['));
}

/// A paragraph of several nodes, or of one node that is neither an image, a link nor HTML, is shown
/// with all of its text, and not at all where that is blank.
pub proof fn law_paragraph_block(children: Seq<Tree>)
    requires
        children.len() != 1 || !(children[0] is Image || children[0] is Link || children[0] is Html),
    ensures
        ({
            let text = inlines_of(children);
            let blocks = tree_blocks(Tree::Paragraph(children));
            if is_blank(text) {
                blocks.len() == 0
            } else {
                blocks.len() == 1 && blocks[0] is Paragraph && blocks[0]->Paragraph_0 == text
            }
        }),
{
}

/// An aside in HTML is shown as an aside with the text between its tags, whatever that is and in
/// whatever case the tags are written, as a node of its own and as a paragraph of its own.
pub proof fn law_aside_block(tag: Seq<char>, content: Seq<char>, end: Seq<char>)
    requires
        ascii_lower(tag) == "<aside>"@,
        ascii_lower(end) == "</aside>"@,
    ensures
        forall|t: Tree|
            t == Tree::Html(tag + content + end) || t == Tree::Paragraph(
                seq![Tree::Html(tag + content + end)],
            ) ==> {
                let blocks = #[trigger] tree_blocks(t);
                blocks.len() == 1 && blocks[0] is Aside && blocks[0]->Aside_0 == trim_of(content)
            },
{
    let value = tag + content + end;
    let lower = ascii_lower(value);
    reveal_strlit("<aside>");
    reveal_strlit("<aside");
    reveal_strlit("</aside>");
    reveal_strlit(">");
    assert(tag.len() == 7 && end.len() == 8) by {
        assert(ascii_lower(tag).len() == 7);
        assert(ascii_lower(end).len() == 8);
    }
    assert forall|c: char| lower_char(c) == '<' implies c == '<' by {}
    assert forall|c: char| lower_char(c) == '>' implies c == '>' by {}
    assert(forall|k: int| 0 <= k < 7 ==> lower_char(tag[k]) == #[trigger] ascii_lower(tag)[k]);
    assert(forall|k: int| 0 <= k < 8 ==> lower_char(end[k]) == #[trigger] ascii_lower(end)[k]);
    assert(lower_char(tag[0]) == '<' && lower_char(tag[6]) == '>' && lower_char(end[7]) == '>') by {
        assert(ascii_lower(tag)[0] == '<' && ascii_lower(tag)[6] == '>');
        assert(ascii_lower(end)[7] == '>');
    }
    assert(value[0] == '<' && value[6] == '>' && value.last() == '>');
    lemma_trim_same(value);
    assert(lower.take(6) =~= "<aside"@) by {
        assert forall|k: int| 0 <= k < 6 implies lower[k] == "<aside"@[k] by {
            assert(lower[k] == ascii_lower(tag)[k]);
        }
    }
    assert forall|k: int| 0 <= k < 6 implies !matches_at(value, k, ">"@) by {
        assert(lower_char(value[k]) == ascii_lower(tag)[k]);
        if matches_at(value, k, ">"@) {
            assert(value.subrange(k, k + 1)[0] == value[k]);
        }
    }
    assert(value.subrange(6, 7) =~= ">"@);
    lemma_find_is(value, ">"@, 0, 6);
    let close = value.len() - 8;
    assert(lower.subrange(close, close + 8) =~= "</aside>"@) by {
        assert forall|k: int| 0 <= k < 8 implies lower[close + k] == "</aside>"@[k] by {
            assert(lower[close + k] == ascii_lower(end)[k]);
        }
    }
    lemma_find_last(lower, "</aside>"@, lower.len() as int);
    assert(matches_at(lower, close, "</aside>"@));
    assert(find_last(lower, "</aside>"@, lower.len() as int) == Some(close));
    assert(value.subrange(7, close) =~= content);
    assert(aside_of(value) == Some(trim_of(content)));
}

/// Any other HTML is shown as source, without the white space around it, and not at all where it is
/// blank.
pub proof fn law_html_block(value: Seq<char>)
    requires
        !has_prefix(ascii_lower(trim_of(value)), "<aside"@),
    ensures
        ({
            let blocks = tree_blocks(Tree::Html(value));
            if is_blank(value) {
                blocks.len() == 0
            } else {
                blocks.len() == 1 && blocks[0] is Html && blocks[0]->Html_0 == trim_of(value)
            }
        }),
{
}

// ---------------------------------------------------------------------------
// Tables
// ---------------------------------------------------------------------------

/// The nodes are the rows of a table, with nothing but cells in them.
pub open spec fn is_grid(rows: Seq<Tree>) -> bool {
    forall|k: int| 0 <= k < rows.len() ==> (#[trigger] rows[k]) is TableRow && is_row(rows[k])
}

pub open spec fn is_row(row: Tree) -> bool {
    forall|j: int|
        0 <= j < row->TableRow_0.len() ==> (#[trigger] row->TableRow_0[j]) is TableCell
}

/// The texts are those of the cells of the row, one for one and in order.
pub open spec fn shows_row(texts: Seq<Seq<char>>, row: Tree) -> bool {
    let cells = row->TableRow_0;
    texts.len() == cells.len() && forall|j: int|
        0 <= j < cells.len() ==> #[trigger] texts[j] == inlines_of(cells[j]->TableCell_0)
}

proof fn lemma_cells(cells: Seq<Tree>)
    requires
        forall|j: int| 0 <= j < cells.len() ==> (#[trigger] cells[j]) is TableCell,
    ensures
        cells_of(cells).len() == cells.len(),
        forall|j: int|
            0 <= j < cells.len() ==> #[trigger] cells_of(cells)[j] == inlines_of(
                cells[j]->TableCell_0,
            ),
    decreases cells.len(),
{
    if cells.len() > 0 {
        lemma_cells(cells.drop_last());
        assert(cells.last() is TableCell);
    }
}

proof fn lemma_rows(rows: Seq<Tree>)
    requires
        is_grid(rows),
    ensures
        rows_of(rows).len() == rows.len(),
        forall|k: int| 0 <= k < rows.len() ==> shows_row(#[trigger] rows_of(rows)[k], rows[k]),
    decreases rows.len(),
{
    if rows.len() > 0 {
        let short = rows.drop_last();
        assert forall|k: int| 0 <= k < short.len() implies (#[trigger] short[k]) is TableRow
            && is_row(short[k]) by {
            assert(rows[k] is TableRow && is_row(rows[k]));
        }
        lemma_rows(short);
        let last = rows.last();
        assert(last is TableRow && is_row(rows[rows.len() - 1]));
        lemma_cells(last->TableRow_0);
    }
}

/// A table is one block. Its headers are the cells of the first row, and its rows are all the other
/// rows with all of their cells: none is lost, added or moved.
pub proof fn law_table_block(rows: Seq<Tree>)
    requires
        rows.len() > 0,
        is_grid(rows),
    ensures
        ({
            let blocks = tree_blocks(Tree::Table(rows));
            &&& blocks.len() == 1
            &&& blocks[0] is Table
            &&& shows_row(blocks[0]->Table_headers, rows[0])
            &&& blocks[0]->Table_rows.len() == rows.len() - 1
            &&& forall|k: int|
                0 <= k < rows.len() - 1 ==> shows_row(
                    #[trigger] blocks[0]->Table_rows[k],
                    rows[k + 1],
                )
        }),
{
    lemma_rows(rows);
}

/// A table without rows is not shown, and what is no row of a table, or no cell of a row, has no place
/// in it.
pub proof fn law_table_without_rows(rows: Seq<Tree>, stray: Tree, at: int)
    requires
        0 <= at <= rows.len(),
        !(stray is TableRow),
    ensures
        tree_blocks(Tree::Table(Seq::empty())).len() == 0,
        tree_blocks(Tree::Table(rows.insert(at, stray))) == tree_blocks(Tree::Table(rows)),
{
    lemma_stray_row(rows, stray, at);
}

proof fn lemma_stray_row(rows: Seq<Tree>, stray: Tree, at: int)
    requires
        0 <= at <= rows.len(),
        !(stray is TableRow),
    ensures
        rows_of(rows.insert(at, stray)) == rows_of(rows),
    decreases rows.len(),
{
    let more = rows.insert(at, stray);
    if at == rows.len() {
        assert(more.drop_last() =~= rows);
    } else {
        lemma_stray_row(rows.drop_last(), stray, at);
        assert(more.drop_last() =~= rows.drop_last().insert(at, stray));
        assert(more.last() == rows.last());
    }
}

// ---------------------------------------------------------------------------
// Lists
// ---------------------------------------------------------------------------

/// A list without a first number starts at one, and its numbers play no part where it has bullets.
pub proof fn law_list_start(ordered: bool, start: Option<u32>, items: Seq<Tree>)
    ensures
        tree_blocks(Tree::List { ordered, start: None, children: items }) == tree_blocks(
            Tree::List { ordered, start: Some(1), children: items },
        ),
        tree_blocks(Tree::List { ordered: false, start, children: items }) == tree_blocks(
            Tree::List { ordered: false, start: Some(1), children: items },
        ),
{
    lemma_list_start(ordered, items, 0);
    lemma_bullets_have_no_number(start, items, 0);
    lemma_list_start(false, items, 0);
}

proof fn lemma_list_start(ordered: bool, items: Seq<Tree>, depth: usize)
    ensures
        list_blocks(ordered, None, items, depth) == list_blocks(ordered, Some(1), items, depth),
    decreases items.len(),
{
    if items.len() > 0 {
        lemma_list_start(ordered, items.drop_last(), depth);
        let n = items.len() - 1;
        assert(item_number(None, n) == item_number(Some(1), n));
        assert(list_item_blocks(ordered, None, n, items.last(), depth) == list_item_blocks(
            ordered,
            Some(1),
            n,
            items.last(),
            depth,
        ));
    }
}

proof fn lemma_bullets_have_no_number(start: Option<u32>, items: Seq<Tree>, depth: usize)
    ensures
        list_blocks(false, start, items, depth) == list_blocks(false, Some(1), items, depth),
    decreases items.len(),
{
    if items.len() > 0 {
        lemma_bullets_have_no_number(start, items.drop_last(), depth);
        let n = items.len() - 1;
        assert(list_item_blocks(false, start, n, items.last(), depth) == list_item_blocks(
            false,
            Some(1),
            n,
            items.last(),
            depth,
        ));
    }
}

proof fn lemma_list_parts(
    ordered: bool,
    start: u32,
    a: Seq<Tree>,
    b: Seq<Tree>,
    depth: usize,
)
    requires
        start + a.len() <= u32::MAX,
    ensures
        list_blocks(ordered, Some(start), a + b, depth) == list_blocks(
            ordered,
            Some(start),
            a,
            depth,
        ) + list_blocks(ordered, Some((start + a.len()) as u32), b, depth),
    decreases b.len(),
{
    let first = list_blocks(ordered, Some(start), a, depth);
    let next: Option<u32> = Some((start + a.len()) as u32);
    if b.len() == 0 {
        assert(a + b =~= a);
        assert(first + Seq::empty() =~= first);
    } else {
        let short = b.drop_last();
        lemma_list_parts(ordered, start, a, short, depth);
        assert((a + b).drop_last() =~= a + short);
        assert(item_number(Some(start), (a + b).len() - 1) == item_number(next, b.len() - 1));
        let own = list_item_blocks(ordered, Some(start), (a + b).len() - 1, b.last(), depth);
        assert(own == list_item_blocks(ordered, next, b.len() - 1, b.last(), depth));
        assert(first + list_blocks(ordered, next, short, depth) + own =~= first + (list_blocks(
            ordered,
            next,
            short,
            depth,
        ) + own));
    }
}

/// The items of a list come in order, and are numbered one after the other: a list is its first
/// items, followed by a list of the others that starts at the number reached.
pub proof fn law_list_in_order(ordered: bool, start: u32, a: Seq<Tree>, b: Seq<Tree>)
    requires
        start + a.len() <= u32::MAX,
    ensures
        tree_blocks(Tree::List { ordered, start: Some(start), children: a + b }) == tree_blocks(
            Tree::List { ordered, start: Some(start), children: a },
        ) + tree_blocks(
            Tree::List { ordered, start: Some((start + a.len()) as u32), children: b },
        ),
{
    lemma_list_parts(ordered, start, a, b, 0);
}

/// A list of one item without a list inside shows the text of the item: a task with its tick where
/// it has a box, the number of the list where it is ordered, and a bullet where not; all at the
/// outermost level. Where the text is blank nothing is shown.
pub proof fn law_list_of_one_item(
    ordered: bool,
    start: u32,
    checked: Option<bool>,
    children: Seq<Tree>,
)
    requires
        forall|k: int| 0 <= k < children.len() ==> !((#[trigger] children[k]) is List),
    ensures
        ({
            let text = item_text(children);
            let blocks = tree_blocks(
                Tree::List {
                    ordered,
                    start: Some(start),
                    children: seq![Tree::ListItem { checked, children }],
                },
            );
            if is_blank(text) {
                blocks.len() == 0
            } else {
                &&& blocks.len() == 1
                &&& checked is Some ==> blocks[0] is Task && blocks[0]->Task_checked
                    == checked.unwrap() && blocks[0]->Task_text == text && blocks[0]->Task_depth
                    == 0
                &&& checked is None && ordered ==> blocks[0] is Numbered
                    && blocks[0]->Numbered_marker == decimal(start as nat)
                    && blocks[0]->Numbered_text == text && blocks[0]->Numbered_depth == 0
                &&& checked is None && !ordered ==> blocks[0] is Bullet && blocks[0]->Bullet_text
                    == text && blocks[0]->Bullet_depth == 0
            }
        }),
{
    let item = Tree::ListItem { checked, children };
    lemma_list_of_one(ordered, Some(start), item, 0);
    lemma_no_lists_inside(children, 1);
}

proof fn lemma_list_of_one(ordered: bool, start: Option<u32>, item: Tree, depth: usize)
    ensures
        list_blocks(ordered, start, seq![item], depth) == list_item_blocks(
            ordered,
            start,
            0,
            item,
            depth,
        ),
{
    let items = seq![item];
    assert(items.drop_last() =~= Seq::<Tree>::empty());
    let own = list_item_blocks(ordered, start, 0, item, depth);
    assert(Seq::empty() + own =~= own);
    reveal_with_fuel(list_blocks, 2);
}

proof fn lemma_no_lists_inside(children: Seq<Tree>, depth: usize)
    requires
        forall|k: int| 0 <= k < children.len() ==> !((#[trigger] children[k]) is List),
    ensures
        nested_blocks(children, depth).len() == 0,
    decreases children.len(),
{
    if children.len() > 0 {
        assert(!(children.last() is List));
        lemma_no_lists_inside(children.drop_last(), depth);
    }
}

/// The level of a block of a list.
pub open spec fn level_of(block: BlockView) -> int {
    match block {
        BlockView::Bullet { text, depth } => depth as int,
        BlockView::Numbered { marker, text, depth } => depth as int,
        BlockView::Task { checked, text, depth } => depth as int,
        _ => -1,
    }
}

/// The block at another level.
pub open spec fn at_level(block: BlockView, level: usize) -> BlockView {
    match block {
        BlockView::Bullet { text, depth } => BlockView::Bullet { text, depth: level },
        BlockView::Numbered { marker, text, depth } => BlockView::Numbered {
            marker,
            text,
            depth: level,
        },
        BlockView::Task { checked, text, depth } => BlockView::Task { checked, text, depth: level },
        _ => block,
    }
}

/// The first blocks are the second ones, each one level deeper as far as a level can be counted.
pub open spec fn one_deeper(a: Seq<BlockView>, b: Seq<BlockView>) -> bool {
    a.len() == b.len() && forall|k: int|
        0 <= k < b.len() ==> 0 <= level_of(#[trigger] b[k]) <= usize::MAX && a[k] == at_level(
            b[k],
            if level_of(b[k]) == usize::MAX {
                usize::MAX
            } else {
                (level_of(b[k]) + 1) as usize
            },
        )
}

proof fn lemma_deeper_concat(
    a: Seq<BlockView>,
    b: Seq<BlockView>,
    c: Seq<BlockView>,
    d: Seq<BlockView>,
)
    requires
        one_deeper(a, b),
        one_deeper(c, d),
    ensures
        one_deeper(a + c, b + d),
{
    assert forall|k: int| 0 <= k < (b + d).len() implies 0 <= level_of(#[trigger] (b + d)[k])
        <= usize::MAX && (a + c)[k] == at_level(
        (b + d)[k],
        if level_of((b + d)[k]) == usize::MAX {
            usize::MAX
        } else {
            (level_of((b + d)[k]) + 1) as usize
        },
    ) by {
        if k < b.len() {
            assert(level_of(b[k]) >= 0);
        } else {
            assert(level_of(d[k - b.len()]) >= 0);
        }
    }
}

proof fn lemma_list_deeper(ordered: bool, start: Option<u32>, items: Seq<Tree>, depth: usize)
    ensures
        one_deeper(
            list_blocks(ordered, start, items, deeper(depth)),
            list_blocks(ordered, start, items, depth),
        ),
    decreases items,
{
    if items.len() > 0 {
        lemma_list_deeper(ordered, start, items.drop_last(), depth);
        lemma_item_deeper(ordered, start, items.len() - 1, items.last(), depth);
        lemma_deeper_concat(
            list_blocks(ordered, start, items.drop_last(), deeper(depth)),
            list_blocks(ordered, start, items.drop_last(), depth),
            list_item_blocks(ordered, start, items.len() - 1, items.last(), deeper(depth)),
            list_item_blocks(ordered, start, items.len() - 1, items.last(), depth),
        );
    }
}

proof fn lemma_item_deeper(
    ordered: bool,
    start: Option<u32>,
    offset: int,
    item: Tree,
    depth: usize,
)
    ensures
        one_deeper(
            list_item_blocks(ordered, start, offset, item, deeper(depth)),
            list_item_blocks(ordered, start, offset, item, depth),
        ),
    decreases item,
{
    if let Tree::ListItem { checked, children } = item {
        lemma_nested_deeper(children, deeper(depth));
        let text = item_text(children);
        let none = Seq::<BlockView>::empty();
        let (a, b) = if is_blank(text) {
            (none, none)
        } else {
            (
                seq![
                    crate::markdown::item_block(
                        ordered,
                        start,
                        offset,
                        checked,
                        text,
                        deeper(depth),
                    ),
                ],
                seq![crate::markdown::item_block(ordered, start, offset, checked, text, depth)],
            )
        };
        lemma_deeper_concat(
            a,
            b,
            nested_blocks(children, deeper(deeper(depth))),
            nested_blocks(children, deeper(depth)),
        );
    }
}

proof fn lemma_nested_deeper(children: Seq<Tree>, depth: usize)
    ensures
        one_deeper(nested_blocks(children, deeper(depth)), nested_blocks(children, depth)),
    decreases children,
{
    if children.len() > 0 {
        lemma_nested_deeper(children.drop_last(), depth);
        let none = Seq::<BlockView>::empty();
        if let Tree::List { ordered, start, children: items } = children.last() {
            lemma_list_deeper(ordered, start, items, depth);
            lemma_deeper_concat(
                nested_blocks(children.drop_last(), deeper(depth)),
                nested_blocks(children.drop_last(), depth),
                list_blocks(ordered, start, items, deeper(depth)),
                list_blocks(ordered, start, items, depth),
            );
        } else {
            lemma_deeper_concat(
                nested_blocks(children.drop_last(), deeper(depth)),
                nested_blocks(children.drop_last(), depth),
                none,
                none,
            );
        }
    }
}

/// A list at the end of an item follows the item, and is what it would be by itself, one level deeper
/// in all of its items.
pub proof fn law_list_in_item(
    ordered: bool,
    start: Option<u32>,
    checked: Option<bool>,
    children: Seq<Tree>,
    inner_ordered: bool,
    inner_start: Option<u32>,
    inner: Seq<Tree>,
)
    ensures
        ({
            let list = Tree::List {
                ordered: inner_ordered,
                start: inner_start,
                children: inner,
            };
            let without = tree_blocks(
                Tree::List { ordered, start, children: seq![Tree::ListItem { checked, children }] },
            );
            let with = tree_blocks(
                Tree::List {
                    ordered,
                    start,
                    children: seq![Tree::ListItem { checked, children: children.push(list) }],
                },
            );
            &&& with.len() == without.len() + tree_blocks(list).len()
            &&& with.take(without.len() as int) == without
            &&& one_deeper(with.skip(without.len() as int), tree_blocks(list))
        }),
{
    let list = Tree::List { ordered: inner_ordered, start: inner_start, children: inner };
    let more = children.push(list);
    lemma_list_of_one(ordered, start, Tree::ListItem { checked, children }, 0);
    lemma_list_of_one(ordered, start, Tree::ListItem { checked, children: more }, 0);
    assert(more.drop_last() =~= children);
    assert(item_pieces(more) == item_pieces(children));
    let a = list_item_blocks(ordered, start, 0, Tree::ListItem { checked, children }, 0);
    let b = list_blocks(inner_ordered, inner_start, inner, 1);
    let c = list_item_blocks(ordered, start, 0, Tree::ListItem { checked, children: more }, 0);
    assert(c =~= a + b);
    assert((a + b).take(a.len() as int) =~= a);
    assert((a + b).skip(a.len() as int) =~= b);
    lemma_list_deeper(inner_ordered, inner_start, inner, 0);
}

// ---------------------------------------------------------------------------
// Texts of items and quotes
// ---------------------------------------------------------------------------

proof fn lemma_joined_concat(a: Seq<Seq<char>>, b: Seq<Seq<char>>, sep: Seq<char>)
    requires
        a.len() > 0,
        b.len() > 0,
    ensures
        joined(a + b, sep) == joined(a, sep) + sep + joined(b, sep),
    decreases b.len(),
{
    assert((a + b).drop_last() =~= a + b.drop_last());
    if b.len() == 1 {
        assert(a + b.drop_last() =~= a);
    } else {
        lemma_joined_concat(a, b.drop_last(), sep);
        assert(joined(a, sep) + sep + joined(b.drop_last(), sep) + sep + b.last() =~= joined(a, sep)
            + sep + (joined(b.drop_last(), sep) + sep + b.last()));
    }
}

proof fn lemma_item_pieces(a: Seq<Tree>, b: Seq<Tree>)
    ensures
        item_pieces(a + b) == item_pieces(a) + item_pieces(b),
    decreases b.len(),
{
    if b.len() == 0 {
        assert(a + b =~= a);
        assert(item_pieces(a) + Seq::empty() =~= item_pieces(a));
    } else {
        lemma_item_pieces(a, b.drop_last());
        assert((a + b).drop_last() =~= a + b.drop_last());
        assert(item_pieces(a + b) =~= item_pieces(a) + item_pieces(b));
    }
}

proof fn lemma_quote_pieces(a: Seq<Tree>, b: Seq<Tree>)
    ensures
        quote_pieces(a + b) == quote_pieces(a) + quote_pieces(b),
    decreases b.len(),
{
    if b.len() == 0 {
        assert(a + b =~= a);
        assert(quote_pieces(a) + Seq::empty() =~= quote_pieces(a));
    } else {
        lemma_quote_pieces(a, b.drop_last());
        assert((a + b).drop_last() =~= a + b.drop_last());
        assert(quote_pieces(a + b) =~= quote_pieces(a) + quote_pieces(b));
    }
}

proof fn lemma_entry_pieces(a: Seq<Tree>, b: Seq<Tree>)
    ensures
        entry_pieces(a + b) == entry_pieces(a) + entry_pieces(b),
    decreases b.len(),
{
    if b.len() == 0 {
        assert(a + b =~= a);
        assert(entry_pieces(a) + Seq::empty() =~= entry_pieces(a));
    } else {
        lemma_entry_pieces(a, b.drop_last());
        assert((a + b).drop_last() =~= a + b.drop_last());
        assert(entry_pieces(a + b) =~= entry_pieces(a) + entry_pieces(b));
    }
}

/// Two texts, one below the other; one alone where the other has no lines.
pub open spec fn stacked(a: Seq<char>, b: Seq<char>) -> Seq<char> {
    if a.len() == 0 {
        b
    } else if b.len() == 0 {
        a
    } else {
        a + seq!['\n'] + b
    }
}

/// None of the texts is empty.
spec fn full_texts(texts: Seq<Seq<char>>) -> bool {
    forall|k: int| 0 <= k < texts.len() ==> (#[trigger] texts[k]).len() > 0
}

proof fn lemma_joined_len(texts: Seq<Seq<char>>, sep: Seq<char>)
    requires
        full_texts(texts),
    ensures
        joined(texts, sep).len() == 0 <==> texts.len() == 0,
    decreases texts.len(),
{
    if texts.len() > 0 {
        assert(texts.last().len() > 0);
    }
}

proof fn lemma_stacked(a: Seq<Seq<char>>, b: Seq<Seq<char>>)
    requires
        full_texts(a),
        full_texts(b),
    ensures
        joined(a + b, "\n"@) == stacked(joined(a, "\n"@), joined(b, "\n"@)),
{
    reveal_strlit("\n");
    assert("\n"@ =~= seq!['\n']);
    lemma_joined_len(a, "\n"@);
    lemma_joined_len(b, "\n"@);
    if a.len() == 0 {
        assert(a + b =~= b);
    } else if b.len() == 0 {
        assert(a + b =~= a);
    } else {
        lemma_joined_concat(a, b, "\n"@);
    }
}

proof fn lemma_item_full(ts: Seq<Tree>)
    ensures
        full_texts(item_pieces(ts)),
    decreases ts.len(),
{
    if ts.len() > 0 {
        lemma_item_full(ts.drop_last());
    }
}

proof fn lemma_entry_full(ts: Seq<Tree>)
    ensures
        full_texts(entry_pieces(ts)),
    decreases ts.len(),
{
    if ts.len() > 0 {
        lemma_entry_full(ts.drop_last());
    }
}

proof fn lemma_quote_full(ts: Seq<Tree>)
    ensures
        full_texts(quote_pieces(ts)),
    decreases ts.len(),
{
    if ts.len() > 0 {
        lemma_quote_full(ts.drop_last());
    }
}

/// The text of an item has the texts of its parts, one below the other and in order.
pub proof fn law_item_text_in_order(a: Seq<Tree>, b: Seq<Tree>)
    ensures
        item_text(a + b) == stacked(item_text(a), item_text(b)),
{
    lemma_item_pieces(a, b);
    lemma_item_full(a);
    lemma_item_full(b);
    lemma_stacked(item_pieces(a), item_pieces(b));
}

/// The text of a single part: a paragraph gives its text, a code block its code between backticks,
/// and nothing comes from blank text or from any other part.
pub proof fn law_item_text_alone(t: Tree)
    ensures
        item_text(seq![t]) == match t {
            Tree::Paragraph(c) => if is_blank(inlines_of(c)) {
                Seq::empty()
            } else {
                inlines_of(c)
            },
            Tree::Code { value, lang } => seq!['`'] + value + seq!['`'],
            _ => Seq::empty(),
        },
{
    reveal_with_fuel(item_pieces, 2);
    assert(seq![t].drop_last() =~= Seq::<Tree>::empty());
    lemma_backtick();
    if let Tree::Code { value, lang } = t {
        let piece = "`"@ + value + "`"@;
        assert(piece[0] == '`' && !is_white('`'));
        assert(!is_blank(piece));
    }
}

proof fn lemma_backtick()
    ensures
        "`"@ == seq!['`'],
{
    reveal_strlit("`");
    assert("`"@ =~= seq!['`']);
}

/// The text of a quote has the texts of its parts, one below the other and in order.
pub proof fn law_quote_text_in_order(a: Seq<Tree>, b: Seq<Tree>)
    ensures
        quote_text(a + b) == stacked(quote_text(a), quote_text(b)),
{
    lemma_quote_pieces(a, b);
    lemma_quote_full(a);
    lemma_quote_full(b);
    lemma_stacked(quote_pieces(a), quote_pieces(b));
}

/// A quote with a text is one block with all of it; one without is not shown.
pub proof fn law_quote_block(children: Seq<Tree>)
    ensures
        ({
            let text = quote_text(children);
            let blocks = tree_blocks(Tree::Blockquote(children));
            if is_blank(text) {
                blocks.len() == 0
            } else {
                blocks.len() == 1 && blocks[0] is Quote && blocks[0]->Quote_0 == text
            }
        }),
{
}

/// In a quote, what is no list gives the text that it gives to an item.
pub proof fn law_quote_text_alone(t: Tree)
    requires
        !(t is List),
    ensures
        quote_text(seq![t]) == item_text(seq![t]),
{
    reveal_with_fuel(item_pieces, 2);
    reveal_with_fuel(quote_pieces, 2);
    assert(seq![t].drop_last() =~= Seq::<Tree>::empty());
}

/// A list in a quote gives the texts of its items, one below the other and in order.
pub proof fn law_list_in_quote(
    ordered: bool,
    start: Option<u32>,
    checked: Option<bool>,
    children: Seq<Tree>,
    rest: Seq<Tree>,
)
    ensures
        ({
            let item = Tree::ListItem { checked, children };
            let text = if is_blank(item_text(children)) {
                Seq::empty()
            } else {
                item_text(children)
            };
            let other = quote_text(seq![Tree::List { ordered, start, children: rest }]);
            quote_text(seq![Tree::List { ordered, start, children: seq![item] + rest }]) == if (
            is_blank(other) && is_blank(text)) {
                Seq::empty()
            } else {
                stacked(text, other)
            }
        }),
{
    let item = Tree::ListItem { checked, children };
    let all = seq![item] + rest;
    let one = seq![item];
    reveal_with_fuel(quote_pieces, 2);
    reveal_with_fuel(entry_pieces, 2);
    assert(seq![Tree::List { ordered, start, children: all }].drop_last() =~= Seq::<Tree>::empty());
    assert(seq![Tree::List { ordered, start, children: rest }].drop_last() =~= Seq::<Tree>::empty());
    assert(one.drop_last() =~= Seq::<Tree>::empty());
    lemma_entry_pieces(one, rest);
    lemma_entry_full(one);
    lemma_entry_full(rest);
    lemma_entry_full(all);
    lemma_stacked(entry_pieces(one), entry_pieces(rest));
    let first = joined(entry_pieces(one), "\n"@);
    let second = joined(entry_pieces(rest), "\n"@);
    let whole = joined(entry_pieces(all), "\n"@);
    assert(entry_pieces(one) =~= if is_blank(item_text(children)) {
        Seq::empty()
    } else {
        seq![item_text(children)]
    });
    assert(whole == stacked(first, second));
    lemma_entries_not_blank(rest);
    if first.len() > 0 {
        let k = choose|k: int| 0 <= k < first.len() && !is_white(#[trigger] first[k]);
        assert(whole[k] == first[k]);
        assert(!is_blank(whole));
    }
}

proof fn lemma_entries_not_blank(items: Seq<Tree>)
    ensures
        ({
            let text = joined(entry_pieces(items), "\n"@);
            is_blank(text) ==> text.len() == 0
        }),
    decreases items.len(),
{
    if items.len() > 0 {
        lemma_entries_not_blank(items.drop_last());
        let pieces = entry_pieces(items);
        let before = entry_pieces(items.drop_last());
        if pieces != before {
            let last = pieces.last();
            assert(pieces.drop_last() =~= before);
            let text = joined(pieces, "\n"@);
            let k = choose|k: int| 0 <= k < last.len() && !is_white(#[trigger] last[k]);
            assert(text[text.len() - last.len() + k] == last[k]);
        }
    }
}

// ---------------------------------------------------------------------------
// Inline content as Markdown
// ---------------------------------------------------------------------------

/// The text of inline content is that of its parts, in order.
pub proof fn law_inline_in_order(a: Seq<Tree>, b: Seq<Tree>)
    ensures
        inlines_of(a + b) == inlines_of(a) + inlines_of(b),
    decreases b.len(),
{
    if b.len() == 0 {
        assert(a + b =~= a);
        assert(inlines_of(a) + Seq::empty() =~= inlines_of(a));
    } else {
        law_inline_in_order(a, b.drop_last());
        assert((a + b).drop_last() =~= a + b.drop_last());
        assert(inlines_of(a) + inlines_of(b.drop_last()) + inline_of(b.last()) =~= inlines_of(a) + (
        inlines_of(b.drop_last()) + inline_of(b.last())));
    }
}

/// The text of one part is what it is by itself.
pub proof fn law_inline_alone(t: Tree)
    ensures
        inlines_of(seq![t]) == inline_of(t),
        inlines_of(Seq::empty()) == Seq::<char>::empty(),
{
    reveal_with_fuel(inlines_of, 2);
    assert(seq![t].drop_last() =~= Seq::<Tree>::empty());
    assert(Seq::empty() + inline_of(t) =~= inline_of(t));
}

/// Inline content is written with the marks of Markdown: two stars for strong text, one for
/// emphasised text, two tildes for struck text, a backtick for code and a dollar sign for formulas.
/// Plain text, HTML and breaks stand for themselves.
pub proof fn law_inline_marks(c: Seq<Tree>, s: Seq<char>)
    ensures
        inline_of(Tree::Strong(c)) == seq!['*', '*'] + inlines_of(c) + seq!['*', '*'],
        inline_of(Tree::Emphasis(c)) == seq!['*'] + inlines_of(c) + seq!['*'],
        inline_of(Tree::Delete(c)) == seq!['~', '~'] + inlines_of(c) + seq!['~', '~'],
        inline_of(Tree::InlineCode(s)) == seq!['`'] + s + seq!['`'],
        inline_of(Tree::InlineMath(s)) == seq!['$'] + s + seq!['$'],
        inline_of(Tree::Text(s)) == s,
        inline_of(Tree::Html(s)) == s,
        inline_of(Tree::Break) == seq!['\n'],
        inline_of(Tree::Paragraph(c)) == inlines_of(c),
{
    reveal_strlit("**");
    reveal_strlit("*");
    reveal_strlit("~~");
    reveal_strlit("$");
    reveal_strlit("\n");
    lemma_backtick();
    assert("**"@ =~= seq!['*', '*']);
    assert("*"@ =~= seq!['*']);
    assert("~~"@ =~= seq!['~', '~']);
    assert("$"@ =~= seq!['$']);
    assert("\n"@ =~= seq!['\n']);
}

/// Links and images are written with their text in brackets and their address in parentheses behind
/// it; an image has an exclamation mark before it.
pub proof fn law_inline_links(c: Seq<Tree>, alt: Seq<char>, url: Seq<char>)
    ensures
        inline_of(Tree::Link { url, children: c }) == seq!['['] + inlines_of(c) + seq![']', '(']
            + url + seq![')'],
        inline_of(Tree::Image { alt, url }) == seq!['!', '['] + alt + seq![']', '('] + url
            + seq![')'],
{
    reveal_strlit("[");
    reveal_strlit("](");
    reveal_strlit(")");
    reveal_strlit("![");
    assert("["@ =~= seq!['[']);
    assert("]("@ =~= seq![']', '(']);
    assert(")"@ =~= seq![')']);
    assert("!["@ =~= seq!['!', '[']);
}

// ---------------------------------------------------------------------------
// Pieces of inline content
// ---------------------------------------------------------------------------

/// The pieces of inline content come in order.
pub proof fn law_pieces_in_order(a: Seq<Tree>, b: Seq<Tree>)
    ensures
        tree_pieces(Tree::Root(a + b)) == tree_pieces(Tree::Root(a)) + tree_pieces(Tree::Root(b)),
{
    lemma_pieces_in_order(a, b, Seq::empty(), None);
}

proof fn lemma_pieces_in_order(
    a: Seq<Tree>,
    b: Seq<Tree>,
    styles: Seq<InlineStyle>,
    link: Option<Seq<char>>,
)
    ensures
        nodes_pieces(a + b, styles, link) == nodes_pieces(a, styles, link) + nodes_pieces(
            b,
            styles,
            link,
        ),
    decreases b.len(),
{
    let first = nodes_pieces(a, styles, link);
    if b.len() == 0 {
        assert(a + b =~= a);
        assert(first + Seq::empty() =~= first);
    } else {
        lemma_pieces_in_order(a, b.drop_last(), styles, link);
        assert((a + b).drop_last() =~= a + b.drop_last());
        let rest = nodes_pieces(b.drop_last(), styles, link);
        let last = node_pieces(b.last(), styles, link);
        assert(first + rest + last =~= first + (rest + last));
    }
}

/// A single node has the pieces that it has by itself, and no node has none.
pub proof fn law_pieces_alone(t: Tree)
    ensures
        !(t is Root) ==> tree_pieces(Tree::Root(seq![t])) == tree_pieces(t),
        tree_pieces(Tree::Root(Seq::empty())) == Seq::<PieceView>::empty(),
{
    lemma_pieces_alone(t, Seq::empty(), None);
}

proof fn lemma_pieces_alone(t: Tree, styles: Seq<InlineStyle>, link: Option<Seq<char>>)
    ensures
        nodes_pieces(seq![t], styles, link) == node_pieces(t, styles, link),
{
    reveal_with_fuel(nodes_pieces, 2);
    assert(seq![t].drop_last() =~= Seq::<Tree>::empty());
    assert(Seq::empty() + node_pieces(t, styles, link) =~= node_pieces(t, styles, link));
}

/// Plain text and HTML are a piece without styles, code is a piece in the style of code, a break is
/// a line feed, and an image is its text with the address of the image. None has a link.
pub proof fn law_plain_pieces(s: Seq<char>, url: Seq<char>)
    requires
        s.len() > 0,
    ensures
        ({
            let none = Seq::<InlineStyle>::empty();
            let plain = PieceView { text: s, styles: none, link: None, image: None };
            &&& tree_pieces(Tree::Text(s)) == seq![plain]
            &&& tree_pieces(Tree::Html(s)) == seq![plain]
            &&& tree_pieces(Tree::InlineCode(s)) == seq![
                PieceView { styles: seq![InlineStyle::Code], ..plain },
            ]
            &&& tree_pieces(Tree::Image { alt: s, url }) == seq![
                PieceView { image: Some(url), ..plain },
            ]
            &&& tree_pieces(Tree::Break) == seq![PieceView { text: seq!['\n'], ..plain }]
        }),
{
    reveal_strlit("\n");
    assert("\n"@ =~= seq!['\n']);
    assert(Seq::<InlineStyle>::empty().push(InlineStyle::Code) =~= seq![InlineStyle::Code]);
}

/// The piece, within one more style and, where it has no link of its own, within a link.
pub open spec fn within(
    piece: PieceView,
    style: Option<InlineStyle>,
    link: Option<Seq<char>>,
) -> PieceView {
    PieceView {
        styles: match style {
            Some(x) => seq![x] + piece.styles,
            None => piece.styles,
        },
        link: if piece.link is Some {
            piece.link
        } else {
            link
        },
        ..piece
    }
}

/// The first pieces are the second ones, each within the style and the link.
pub open spec fn all_within(
    a: Seq<PieceView>,
    b: Seq<PieceView>,
    style: Option<InlineStyle>,
    link: Option<Seq<char>>,
) -> bool {
    a.len() == b.len() && forall|k: int|
        0 <= k < b.len() ==> #[trigger] a[k] == within(b[k], style, link)
}

/// The styles behind one more style, which comes first.
spec fn styles_within(style: Option<InlineStyle>, styles: Seq<InlineStyle>) -> Seq<InlineStyle> {
    match style {
        Some(x) => seq![x] + styles,
        None => styles,
    }
}

spec fn link_within(link: Option<Seq<char>>, own: Option<Seq<char>>) -> Option<Seq<char>> {
    if own is Some {
        own
    } else {
        link
    }
}

proof fn lemma_node_within(
    t: Tree,
    style: Option<InlineStyle>,
    styles: Seq<InlineStyle>,
    link: Option<Seq<char>>,
    own: Option<Seq<char>>,
)
    ensures
        all_within(
            node_pieces(t, styles_within(style, styles), link_within(link, own)),
            node_pieces(t, styles, own),
            style,
            link,
        ),
    decreases t,
{
    let more = styles_within(style, styles);
    match t {
        Tree::Strong(c) => {
            lemma_nodes_within(c, style, styles.push(InlineStyle::Bold), link, own);
            assert(styles_within(style, styles.push(InlineStyle::Bold)) =~= more.push(
                InlineStyle::Bold,
            ));
        },
        Tree::Emphasis(c) => {
            lemma_nodes_within(c, style, styles.push(InlineStyle::Italic), link, own);
            assert(styles_within(style, styles.push(InlineStyle::Italic)) =~= more.push(
                InlineStyle::Italic,
            ));
        },
        Tree::Delete(c) => {
            lemma_nodes_within(c, style, styles.push(InlineStyle::Strike), link, own);
            assert(styles_within(style, styles.push(InlineStyle::Strike)) =~= more.push(
                InlineStyle::Strike,
            ));
        },
        Tree::InlineCode(s) => {
            assert(styles_within(style, styles.push(InlineStyle::Code)) =~= more.push(
                InlineStyle::Code,
            ));
        },
        Tree::Link { url, children } => {
            lemma_nodes_within(children, style, styles, link, Some(url));
        },
        Tree::Paragraph(c) => {
            lemma_nodes_within(c, style, styles, link, own);
        },
        _ => {},
    }
}

proof fn lemma_nodes_within(
    ts: Seq<Tree>,
    style: Option<InlineStyle>,
    styles: Seq<InlineStyle>,
    link: Option<Seq<char>>,
    own: Option<Seq<char>>,
)
    ensures
        all_within(
            nodes_pieces(ts, styles_within(style, styles), link_within(link, own)),
            nodes_pieces(ts, styles, own),
            style,
            link,
        ),
    decreases ts,
{
    if ts.len() > 0 {
        lemma_nodes_within(ts.drop_last(), style, styles, link, own);
        lemma_node_within(ts.last(), style, styles, link, own);
        let a = nodes_pieces(ts.drop_last(), styles_within(style, styles), link_within(link, own));
        let b = nodes_pieces(ts.drop_last(), styles, own);
        let c = node_pieces(ts.last(), styles_within(style, styles), link_within(link, own));
        let d = node_pieces(ts.last(), styles, own);
        assert forall|k: int| 0 <= k < (b + d).len() implies #[trigger] (a + c)[k] == within(
            (b + d)[k],
            style,
            link,
        ) by {
            if k < b.len() {
                assert(a[k] == within(b[k], style, link));
            } else {
                assert(c[k - b.len()] == within(d[k - b.len()], style, link));
            }
        }
    }
}

/// Strong text has the pieces of what is inside, each in bold besides its own styles; and so with
/// emphasised text, which is italic, and struck text. The text inside a link is linked to its address,
/// but for a link inside it.
pub proof fn law_styles_and_links(c: Seq<Tree>, url: Seq<char>)
    ensures
        ({
            let inside = tree_pieces(Tree::Root(c));
            &&& all_within(tree_pieces(Tree::Strong(c)), inside, Some(InlineStyle::Bold), None)
            &&& all_within(tree_pieces(Tree::Emphasis(c)), inside, Some(InlineStyle::Italic), None)
            &&& all_within(tree_pieces(Tree::Delete(c)), inside, Some(InlineStyle::Strike), None)
            &&& all_within(tree_pieces(Tree::Link { url, children: c }), inside, None, Some(url))
            &&& tree_pieces(Tree::Paragraph(c)) == inside
        }),
{
    let none = Seq::<InlineStyle>::empty();
    lemma_nodes_within(c, Some(InlineStyle::Bold), none, None, None);
    lemma_nodes_within(c, Some(InlineStyle::Italic), none, None, None);
    lemma_nodes_within(c, Some(InlineStyle::Strike), none, None, None);
    lemma_nodes_within(c, None, none, Some(url), None);
    assert(none.push(InlineStyle::Bold) =~= seq![InlineStyle::Bold] + none);
    assert(none.push(InlineStyle::Italic) =~= seq![InlineStyle::Italic] + none);
    assert(none.push(InlineStyle::Strike) =~= seq![InlineStyle::Strike] + none);
}

/// A text shows the pieces of its tree; one that has no tree is one piece without annotations.
pub proof fn law_text_shows_its_tree(markdown: Seq<char>)
    ensures
        match gfm_tree(markdown) {
            Some(Tree::Root(nodes)) => forall|k: int|
                #![trigger nodes.take(k)]
                0 <= k <= nodes.len() ==> inline_pieces(markdown) == tree_pieces(
                    Tree::Root(nodes.take(k)),
                ) + tree_pieces(Tree::Root(nodes.skip(k))),
            Some(tree) => inline_pieces(markdown) == tree_pieces(tree),
            None => inline_pieces(markdown).len() == 1 && inline_pieces(markdown)[0].text
                == markdown && inline_pieces(markdown)[0].styles.len() == 0 && inline_pieces(
                markdown,
            )[0].link is None && inline_pieces(markdown)[0].image is None,
        },
{
    if let Some(Tree::Root(nodes)) = gfm_tree(markdown) {
        assert forall|k: int|
            #![trigger nodes.take(k)]
            0 <= k <= nodes.len() implies inline_pieces(markdown) == tree_pieces(
            Tree::Root(nodes.take(k)),
        ) + tree_pieces(Tree::Root(nodes.skip(k))) by {
            law_pieces_in_order(nodes.take(k), nodes.skip(k));
            assert(nodes.take(k) + nodes.skip(k) =~= nodes);
        }
    }
}

/// The plain text of pieces is the text of each, in order.
pub proof fn law_plain_text_in_order(a: Seq<PieceView>, b: Seq<PieceView>, piece: PieceView)
    ensures
        pieces_text(a + b) == pieces_text(a) + pieces_text(b),
        pieces_text(seq![piece]) == piece.text,
        pieces_text(Seq::empty()) == Seq::<char>::empty(),
    decreases b.len(),
{
    reveal_with_fuel(pieces_text, 2);
    assert(seq![piece].drop_last() =~= Seq::<PieceView>::empty());
    assert(Seq::empty() + piece.text =~= piece.text);
    if b.len() == 0 {
        assert(a + b =~= a);
        assert(pieces_text(a) + Seq::empty() =~= pieces_text(a));
    } else {
        law_plain_text_in_order(a, b.drop_last(), piece);
        assert((a + b).drop_last() =~= a + b.drop_last());
        assert(pieces_text(a) + pieces_text(b.drop_last()) + b.last().text =~= pieces_text(a) + (
        pieces_text(b.drop_last()) + b.last().text));
    }
}

} // verus!
