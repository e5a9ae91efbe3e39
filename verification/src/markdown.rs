//! Markdown documents as the blocks and the pieces of text that the preview and the exports show.

use vstd::prelude::*;
use vstd::string::StrSliceExecFns;

use crate::lines::{join, joined, lemma_strs_push, strs};
use crate::number::{decimal, to_decimal};
use crate::text::{
    ascii_lower, blank, chars_of, concat3, eq_ignore_case, find, find_from, find_last, has_prefix,
    is_blank, push_text, rfind_at, same_text, slice_of, starts_with, to_ascii_lowercase, trim,
    trim_of,
};
use crate::tree::{
    gfm_tree, lemma_trees_of, opt_text, parse_tree, tree_of, trees_of, MarkNode, Tree,
};

verus! {

// ---------------------------------------------------------------------------
// Blocks
// ---------------------------------------------------------------------------

/// A block of a document.
#[derive(Clone, Debug, PartialEq, Eq)]
pub enum Block {
    Heading { level: u8, text: String },
    Paragraph(String),
    Bullet { text: String, depth: usize },
    Numbered { marker: String, text: String, depth: usize },
    Task { checked: bool, text: String, depth: usize },
    Quote(String),
    Aside(String),
    Code { text: String, language: Option<String> },
    Image { alt: String, url: String },
    Video { url: String },
    Table { headers: Vec<String>, rows: Vec<Vec<String>> },
    Divider,
    Html(String),
}

/// The mathematical model of a block.
pub ghost enum BlockView {
    Heading { level: u8, text: Seq<char> },
    Paragraph(Seq<char>),
    Bullet { text: Seq<char>, depth: usize },
    Numbered { marker: Seq<char>, text: Seq<char>, depth: usize },
    Task { checked: bool, text: Seq<char>, depth: usize },
    Quote(Seq<char>),
    Aside(Seq<char>),
    Code { text: Seq<char>, language: Option<Seq<char>> },
    Image { alt: Seq<char>, url: Seq<char> },
    Video { url: Seq<char> },
    Table { headers: Seq<Seq<char>>, rows: Seq<Seq<Seq<char>>> },
    Divider,
    Html(Seq<char>),
}

pub open spec fn rows_view(rows: Seq<Vec<String>>) -> Seq<Seq<Seq<char>>> {
    rows.map_values(|row: Vec<String>| strs(row@))
}

impl View for Block {
    type V = BlockView;

    open spec fn view(&self) -> BlockView {
        match *self {
            Block::Heading { level, text } => BlockView::Heading { level, text: text@ },
            Block::Paragraph(text) => BlockView::Paragraph(text@),
            Block::Bullet { text, depth } => BlockView::Bullet { text: text@, depth },
            Block::Numbered { marker, text, depth } => BlockView::Numbered {
                marker: marker@,
                text: text@,
                depth,
            },
            Block::Task { checked, text, depth } => BlockView::Task { checked, text: text@, depth },
            Block::Quote(text) => BlockView::Quote(text@),
            Block::Aside(text) => BlockView::Aside(text@),
            Block::Code { text, language } => BlockView::Code {
                text: text@,
                language: opt_text(language),
            },
            Block::Image { alt, url } => BlockView::Image { alt: alt@, url: url@ },
            Block::Video { url } => BlockView::Video { url: url@ },
            Block::Table { headers, rows } => BlockView::Table {
                headers: strs(headers@),
                rows: rows_view(rows@),
            },
            Block::Divider => BlockView::Divider,
            Block::Html(text) => BlockView::Html(text@),
        }
    }
}

pub open spec fn blocks_view(blocks: Seq<Block>) -> Seq<BlockView> {
    blocks.map_values(|block: Block| block@)
}

pub proof fn lemma_blocks_push(blocks: Seq<Block>, block: Block)
    ensures
        blocks_view(blocks.push(block)) == blocks_view(blocks).push(block@),
{
    assert(blocks_view(blocks.push(block)) =~= blocks_view(blocks).push(block@));
}

// ---------------------------------------------------------------------------
// What the blocks of a tree are
// ---------------------------------------------------------------------------

/// Inline content, written as Markdown again.
pub open spec fn inline_of(t: Tree) -> Seq<char>
    decreases t,
{
    match t {
        Tree::Text(s) => s,
        Tree::Strong(c) => "**"@ + inlines_of(c) + "**"@,
        Tree::Emphasis(c) => "*"@ + inlines_of(c) + "*"@,
        Tree::Delete(c) => "~~"@ + inlines_of(c) + "~~"@,
        Tree::InlineCode(s) => "`"@ + s + "`"@,
        Tree::InlineMath(s) => "$"@ + s + "$"@,
        Tree::Link { url, children } => "["@ + inlines_of(children) + "]("@ + url + ")"@,
        Tree::Image { alt, url } => "!["@ + alt + "]("@ + url + ")"@,
        Tree::Break => "\n"@,
        Tree::Html(s) => s,
        Tree::Paragraph(c) => inlines_of(c),
        _ => Seq::empty(),
    }
}

pub open spec fn inlines_of(ts: Seq<Tree>) -> Seq<char>
    decreases ts,
{
    if ts.len() == 0 {
        Seq::empty()
    } else {
        inlines_of(ts.drop_last()) + inline_of(ts.last())
    }
}

/// What a paragraph or a code block gives to the text that it is part of.
pub open spec fn item_piece(t: Tree) -> Option<Seq<char>> {
    match t {
        Tree::Paragraph(c) => Some(inlines_of(c)),
        Tree::Code { value, lang } => Some("`"@ + value + "`"@),
        _ => None,
    }
}

/// A text behind others, where there is one that is not blank.
pub open spec fn with_piece(before: Seq<Seq<char>>, piece: Option<Seq<char>>) -> Seq<Seq<char>> {
    match piece {
        Some(s) => if is_blank(s) {
            before
        } else {
            before.push(s)
        },
        None => before,
    }
}

pub open spec fn item_pieces(ts: Seq<Tree>) -> Seq<Seq<char>>
    decreases ts.len(),
{
    if ts.len() == 0 {
        Seq::empty()
    } else {
        with_piece(item_pieces(ts.drop_last()), item_piece(ts.last()))
    }
}

/// The text of a list item: its paragraphs and code blocks, one per line.
pub open spec fn item_text(ts: Seq<Tree>) -> Seq<char> {
    joined(item_pieces(ts), "\n"@)
}

pub open spec fn entry_piece(t: Tree) -> Option<Seq<char>> {
    match t {
        Tree::ListItem { checked, children } => Some(item_text(children)),
        _ => None,
    }
}

pub open spec fn entry_pieces(ts: Seq<Tree>) -> Seq<Seq<char>>
    decreases ts.len(),
{
    if ts.len() == 0 {
        Seq::empty()
    } else {
        with_piece(entry_pieces(ts.drop_last()), entry_piece(ts.last()))
    }
}

pub open spec fn quote_piece(t: Tree) -> Option<Seq<char>> {
    match t {
        Tree::List { ordered, start, children } => Some(joined(entry_pieces(children), "\n"@)),
        _ => item_piece(t),
    }
}

pub open spec fn quote_pieces(ts: Seq<Tree>) -> Seq<Seq<char>>
    decreases ts.len(),
{
    if ts.len() == 0 {
        Seq::empty()
    } else {
        with_piece(quote_pieces(ts.drop_last()), quote_piece(ts.last()))
    }
}

/// The text of a quote: its paragraphs, code blocks and list items, one per line.
pub open spec fn quote_text(ts: Seq<Tree>) -> Seq<char> {
    joined(quote_pieces(ts), "\n"@)
}

/// What an HTML aside holds, if the text is one.
pub open spec fn aside_of(value: Seq<char>) -> Option<Seq<char>> {
    let t = trim_of(value);
    let lower = ascii_lower(t);
    match (find_from(t, ">"@, 0), find_last(lower, "</aside>"@, lower.len() as int)) {
        (Some(open), Some(close)) => if has_prefix(lower, "<aside"@) && open < close {
            Some(trim_of(t.subrange(open + 1, close)))
        } else {
            None
        },
        _ => None,
    }
}

/// The label that makes a link a video.
pub open spec fn is_video(label: Seq<char>) -> bool {
    ascii_lower(trim_of(label)) == ascii_lower("video"@) || trim_of(label) == "视频"@
}

/// One block, or none where the text is blank.
pub open spec fn paragraph_or_none(text: Seq<char>) -> Seq<BlockView> {
    if is_blank(text) {
        Seq::empty()
    } else {
        seq![BlockView::Paragraph(text)]
    }
}

/// The block that a paragraph makes: an image, a video or an aside where it holds nothing else.
pub open spec fn paragraph_blocks(ts: Seq<Tree>) -> Seq<BlockView> {
    let plain = paragraph_or_none(inlines_of(ts));
    if ts.len() == 1 {
        match ts[0] {
            Tree::Image { alt, url } => seq![BlockView::Image { alt, url }],
            Tree::Link { url, children } => if is_video(inlines_of(children)) {
                seq![BlockView::Video { url }]
            } else {
                plain
            },
            Tree::Html(value) => match aside_of(value) {
                Some(content) => seq![BlockView::Aside(content)],
                None => plain,
            },
            _ => plain,
        }
    } else {
        plain
    }
}

/// The number of a list item, which wraps around where it outgrows 32 bits.
pub open spec fn item_number(start: Option<u32>, offset: int) -> nat {
    let first: int = match start {
        Some(n) => n as int,
        None => 1,
    };
    ((first + offset) % 0x1_0000_0000) as nat
}

/// The block of a list item itself.
pub open spec fn item_block(
    ordered: bool,
    start: Option<u32>,
    offset: int,
    checked: Option<bool>,
    text: Seq<char>,
    depth: usize,
) -> BlockView {
    match checked {
        Some(checked) => BlockView::Task { checked, text, depth },
        None => if ordered {
            BlockView::Numbered { marker: decimal(item_number(start, offset)), text, depth }
        } else {
            BlockView::Bullet { text, depth }
        },
    }
}

/// One level deeper, as far as a level can be counted.
pub open spec fn deeper(depth: usize) -> usize {
    if depth == usize::MAX {
        depth
    } else {
        (depth + 1) as usize
    }
}

/// The blocks of a list: each item that has a text, and the lists inside it one level deeper.
pub open spec fn list_blocks(
    ordered: bool,
    start: Option<u32>,
    items: Seq<Tree>,
    depth: usize,
) -> Seq<BlockView>
    decreases items,
{
    if items.len() == 0 {
        Seq::empty()
    } else {
        list_blocks(ordered, start, items.drop_last(), depth) + list_item_blocks(
            ordered,
            start,
            items.len() - 1,
            items.last(),
            depth,
        )
    }
}

pub open spec fn list_item_blocks(
    ordered: bool,
    start: Option<u32>,
    offset: int,
    item: Tree,
    depth: usize,
) -> Seq<BlockView>
    decreases item,
{
    match item {
        Tree::ListItem { checked, children } => {
            let text = item_text(children);
            let own = if is_blank(text) {
                Seq::empty()
            } else {
                seq![item_block(ordered, start, offset, checked, text, depth)]
            };
            own + nested_blocks(children, deeper(depth))
        },
        _ => Seq::empty(),
    }
}

pub open spec fn nested_blocks(children: Seq<Tree>, depth: usize) -> Seq<BlockView>
    decreases children,
{
    if children.len() == 0 {
        Seq::empty()
    } else {
        nested_blocks(children.drop_last(), depth) + match children.last() {
            Tree::List { ordered, start, children } => list_blocks(ordered, start, children, depth),
            _ => Seq::empty(),
        }
    }
}

/// The cells of a table row.
pub open spec fn cells_of(ts: Seq<Tree>) -> Seq<Seq<char>>
    decreases ts.len(),
{
    if ts.len() == 0 {
        Seq::empty()
    } else {
        match ts.last() {
            Tree::TableCell(c) => cells_of(ts.drop_last()).push(inlines_of(c)),
            _ => cells_of(ts.drop_last()),
        }
    }
}

/// The rows of a table.
pub open spec fn rows_of(ts: Seq<Tree>) -> Seq<Seq<Seq<char>>>
    decreases ts.len(),
{
    if ts.len() == 0 {
        Seq::empty()
    } else {
        match ts.last() {
            Tree::TableRow(c) => rows_of(ts.drop_last()).push(cells_of(c)),
            _ => rows_of(ts.drop_last()),
        }
    }
}

/// The block of a table: its first row has the headers.
pub open spec fn table_blocks(ts: Seq<Tree>) -> Seq<BlockView> {
    let rows = rows_of(ts);
    if rows.len() == 0 {
        Seq::empty()
    } else {
        seq![BlockView::Table { headers: rows[0], rows: rows.skip(1) }]
    }
}

/// The block of raw HTML, which is shown as source.
pub open spec fn html_blocks(value: Seq<char>) -> Seq<BlockView> {
    match aside_of(value) {
        Some(content) => seq![BlockView::Aside(content)],
        None => if is_blank(value) {
            Seq::empty()
        } else {
            seq![BlockView::Html(trim_of(value))]
        },
    }
}

/// The blocks of a syntax tree.
pub open spec fn tree_blocks(t: Tree) -> Seq<BlockView>
    decreases t,
{
    match t {
        Tree::Root(c) => trees_blocks(c),
        Tree::Heading { depth, children } => seq![
            BlockView::Heading { level: depth, text: inlines_of(children) },
        ],
        Tree::Paragraph(c) => paragraph_blocks(c),
        Tree::List { ordered, start, children } => list_blocks(ordered, start, children, 0),
        Tree::Blockquote(c) => if is_blank(quote_text(c)) {
            Seq::empty()
        } else {
            seq![BlockView::Quote(quote_text(c))]
        },
        Tree::Code { value, lang } => seq![BlockView::Code { text: value, language: lang }],
        Tree::ThematicBreak => seq![BlockView::Divider],
        Tree::Table(c) => table_blocks(c),
        Tree::Html(value) => html_blocks(value),
        Tree::Image { alt, url } => seq![BlockView::Image { alt, url }],
        _ => paragraph_or_none(inline_of(t)),
    }
}

pub open spec fn trees_blocks(ts: Seq<Tree>) -> Seq<BlockView>
    decreases ts,
{
    if ts.len() == 0 {
        Seq::empty()
    } else {
        trees_blocks(ts.drop_last()) + tree_blocks(ts.last())
    }
}

/// The blocks of a document; one paragraph with all of it where it has no syntax tree.
pub open spec fn document_blocks(markdown: Seq<char>) -> Seq<BlockView> {
    match gfm_tree(markdown) {
        Some(tree) => tree_blocks(tree),
        None => seq![BlockView::Paragraph(markdown)],
    }
}

// ---------------------------------------------------------------------------
// Building the blocks
// ---------------------------------------------------------------------------

/// The models of the first nodes, one node further.
pub proof fn lemma_trees_step(s: Seq<MarkNode>, i: int)
    requires
        0 <= i < s.len(),
    ensures
        trees_of(s.take(i + 1)).len() == i + 1,
        trees_of(s.take(i + 1)).drop_last() == trees_of(s.take(i)),
        trees_of(s.take(i + 1)).last() == tree_of(s[i]),
{
    assert(s.take(i + 1).drop_last() =~= s.take(i));
    lemma_trees_of(s.take(i + 1));
    assert(trees_of(s.take(i + 1)).drop_last() =~= trees_of(s.take(i)));
}

fn inline_markdown(nodes: &Vec<MarkNode>) -> (r: String)
    ensures
        r@ == inlines_of(trees_of(nodes@)),
    decreases nodes,
{
    let mut out = String::new();
    let mut i: usize = 0;
    while i < nodes.len()
        invariant
            i <= nodes.len(),
            out@ == inlines_of(trees_of(nodes@.take(i as int))),
        decreases nodes.len() - i,
    {
        assert(decreases_to!(nodes => nodes@[i as int]));
        let text = inline_markdown_node(&nodes[i]);
        proof {
            lemma_trees_step(nodes@, i as int);
        }
        push_text(&mut out, &text);
        i = i + 1;
    }
    assert(nodes@.take(i as int) =~= nodes@);
    out
}

fn inline_markdown_node(node: &MarkNode) -> (r: String)
    ensures
        r@ == inline_of(tree_of(*node)),
    decreases node,
{
    match node {
        MarkNode::Text(s) => s.clone(),
        MarkNode::Strong(c) => concat3("**", &inline_markdown(c), "**"),
        MarkNode::Emphasis(c) => concat3("*", &inline_markdown(c), "*"),
        MarkNode::Delete(c) => concat3("~~", &inline_markdown(c), "~~"),
        MarkNode::InlineCode(s) => concat3("`", s, "`"),
        MarkNode::InlineMath(s) => concat3("$", s, "$"),
        MarkNode::Link { url, children } => {
            let head = concat3("[", &inline_markdown(children), "](");
            concat3(&head, url, ")")
        },
        MarkNode::Image { alt, url } => {
            let head = concat3("![", alt, "](");
            concat3(&head, url, ")")
        },
        MarkNode::Break => "\n".to_owned(),
        MarkNode::Html(s) => s.clone(),
        MarkNode::Paragraph(c) => inline_markdown(c),
        _ => String::new(),
    }
}

fn push_piece(out: &mut Vec<String>, piece: Option<String>)
    ensures
        strs(final(out)@) == with_piece(strs(old(out)@), opt_text(piece)),
{
    if let Some(s) = piece {
        if !blank(&s) {
            proof {
                lemma_strs_push(out@, s);
            }
            out.push(s);
        }
    }
}

fn item_piece_of(node: &MarkNode) -> (r: Option<String>)
    ensures
        opt_text(r) == item_piece(tree_of(*node)),
{
    match node {
        MarkNode::Paragraph(c) => Some(inline_markdown(c)),
        MarkNode::Code { value, lang } => Some(concat3("`", value, "`")),
        _ => None,
    }
}

fn list_item_text(children: &Vec<MarkNode>) -> (r: String)
    ensures
        r@ == item_text(trees_of(children@)),
{
    let mut out: Vec<String> = Vec::new();
    let mut i: usize = 0;
    assert(strs(out@) =~= item_pieces(trees_of(children@.take(0))));
    while i < children.len()
        invariant
            i <= children.len(),
            strs(out@) == item_pieces(trees_of(children@.take(i as int))),
        decreases children.len() - i,
    {
        proof {
            lemma_trees_step(children@, i as int);
        }
        push_piece(&mut out, item_piece_of(&children[i]));
        i = i + 1;
    }
    assert(children@.take(i as int) =~= children@);
    join(&out, "\n")
}

fn list_text(items: &Vec<MarkNode>) -> (r: String)
    ensures
        r@ == joined(entry_pieces(trees_of(items@)), "\n"@),
{
    let mut out: Vec<String> = Vec::new();
    let mut i: usize = 0;
    assert(strs(out@) =~= entry_pieces(trees_of(items@.take(0))));
    while i < items.len()
        invariant
            i <= items.len(),
            strs(out@) == entry_pieces(trees_of(items@.take(i as int))),
        decreases items.len() - i,
    {
        proof {
            lemma_trees_step(items@, i as int);
        }
        let piece = match &items[i] {
            MarkNode::ListItem { checked, children } => Some(list_item_text(children)),
            _ => None,
        };
        push_piece(&mut out, piece);
        i = i + 1;
    }
    assert(items@.take(i as int) =~= items@);
    join(&out, "\n")
}

fn block_text(nodes: &Vec<MarkNode>) -> (r: String)
    ensures
        r@ == quote_text(trees_of(nodes@)),
{
    let mut out: Vec<String> = Vec::new();
    let mut i: usize = 0;
    assert(strs(out@) =~= quote_pieces(trees_of(nodes@.take(0))));
    while i < nodes.len()
        invariant
            i <= nodes.len(),
            strs(out@) == quote_pieces(trees_of(nodes@.take(i as int))),
        decreases nodes.len() - i,
    {
        proof {
            lemma_trees_step(nodes@, i as int);
        }
        let piece = match &nodes[i] {
            MarkNode::List { ordered, start, children } => Some(list_text(children)),
            _ => item_piece_of(&nodes[i]),
        };
        push_piece(&mut out, piece);
        i = i + 1;
    }
    assert(nodes@.take(i as int) =~= nodes@);
    join(&out, "\n")
}

fn aside_content(value: &str) -> (r: Option<String>)
    ensures
        opt_text(r) == aside_of(value@),
{
    let trimmed = trim(value);
    let lower = to_ascii_lowercase(&trimmed);
    let tv = chars_of(&trimmed);
    let lv = chars_of(&lower);
    if !starts_with(&lv, "<aside") {
        return None;
    }
    let closing = chars_of("</aside>");
    match (find(&tv, ">"), rfind_at(&lv, &closing, lv.len())) {
        (Some(open), Some(close)) => if open < close {
            Some(trim(&slice_of(&tv, open + 1, close)))
        } else {
            None
        },
        _ => None,
    }
}

fn is_video_label(label: &str) -> (r: bool)
    ensures
        r == is_video(label@),
{
    let label = trim(label);
    eq_ignore_case(&label, "video") || same_text(&label, "视频")
}

fn push_block(blocks: &mut Vec<Block>, block: Block)
    ensures
        blocks_view(final(blocks)@) == blocks_view(old(blocks)@) + seq![block@],
{
    proof {
        lemma_blocks_push(blocks@, block);
        assert(blocks_view(blocks@).push(block@) =~= blocks_view(blocks@) + seq![block@]);
    }
    blocks.push(block);
}

fn push_paragraph(blocks: &mut Vec<Block>, text: String)
    ensures
        blocks_view(final(blocks)@) == blocks_view(old(blocks)@) + paragraph_or_none(text@),
{
    if blank(&text) {
        assert(blocks_view(blocks@) + Seq::empty() =~= blocks_view(blocks@));
    } else {
        push_block(blocks, Block::Paragraph(text));
    }
}

fn append_paragraph(children: &Vec<MarkNode>, blocks: &mut Vec<Block>)
    ensures
        blocks_view(final(blocks)@) == blocks_view(old(blocks)@) + paragraph_blocks(
            trees_of(children@),
        ),
{
    proof {
        lemma_trees_of(children@);
    }
    if children.len() == 1 {
        match &children[0] {
            MarkNode::Image { alt, url } => {
                push_block(blocks, Block::Image { alt: alt.clone(), url: url.clone() });
                return;
            },
            MarkNode::Link { url, children } => {
                if is_video_label(&inline_markdown(children)) {
                    push_block(blocks, Block::Video { url: url.clone() });
                    return;
                }
            },
            MarkNode::Html(value) => {
                if let Some(content) = aside_content(value) {
                    push_block(blocks, Block::Aside(content));
                    return;
                }
            },
            _ => {},
        }
    }
    push_paragraph(blocks, inline_markdown(children));
}

fn number_of_item(start: Option<u32>, offset: usize) -> (n: u64)
    ensures
        n == item_number(start, offset as int),
{
    let first: u64 = match start {
        Some(n) => n as u64,
        None => 1,
    };
    let step: u64 = offset as u64 % 0x1_0000_0000;
    assert((first + offset) % 0x1_0000_0000 == (first + step) % 0x1_0000_0000) by (nonlinear_arith)
        requires
            step == offset as int % 0x1_0000_0000,
    ;
    (first + step) % 0x1_0000_0000
}

fn append_list(
    ordered: bool,
    start: Option<u32>,
    items: &Vec<MarkNode>,
    blocks: &mut Vec<Block>,
    depth: usize,
)
    ensures
        blocks_view(final(blocks)@) == blocks_view(old(blocks)@) + list_blocks(
            ordered,
            start,
            trees_of(items@),
            depth,
        ),
    decreases items,
{
    let ghost before = blocks_view(blocks@);
    let mut offset: usize = 0;
    assert(before + Seq::empty() =~= before);
    while offset < items.len()
        invariant
            offset <= items.len(),
            blocks_view(blocks@) == before + list_blocks(
                ordered,
                start,
                trees_of(items@.take(offset as int)),
                depth,
            ),
        decreases items.len() - offset,
    {
        assert(decreases_to!(items => items@[offset as int]));
        let ghost so_far = list_blocks(ordered, start, trees_of(items@.take(offset as int)), depth);
        append_list_item(ordered, start, offset, &items[offset], blocks, depth);
        proof {
            lemma_trees_step(items@, offset as int);
            let own = list_item_blocks(
                ordered,
                start,
                offset as int,
                tree_of(items@[offset as int]),
                depth,
            );
            assert(before + so_far + own =~= before + (so_far + own));
        }
        offset = offset + 1;
    }
    assert(items@.take(offset as int) =~= items@);
}

fn append_list_item(
    ordered: bool,
    start: Option<u32>,
    offset: usize,
    node: &MarkNode,
    blocks: &mut Vec<Block>,
    depth: usize,
)
    ensures
        blocks_view(final(blocks)@) == blocks_view(old(blocks)@) + list_item_blocks(
            ordered,
            start,
            offset as int,
            tree_of(*node),
            depth,
        ),
    decreases node,
{
    let ghost before = blocks_view(blocks@);
    match node {
        MarkNode::ListItem { checked, children } => {
            let text = list_item_text(children);
            let ghost own = if is_blank(text@) {
                Seq::empty()
            } else {
                seq![item_block(ordered, start, offset as int, *checked, text@, depth)]
            };
            if !blank(&text) {
                match *checked {
                    Some(checked) => push_block(blocks, Block::Task { checked, text, depth }),
                    None => if ordered {
                        let marker = to_decimal(number_of_item(start, offset));
                        push_block(blocks, Block::Numbered { marker, text, depth })
                    } else {
                        push_block(blocks, Block::Bullet { text, depth })
                    },
                }
            }
            assert(blocks_view(blocks@) =~= before + own);
            let next: usize = if depth == usize::MAX {
                depth
            } else {
                depth + 1
            };
            let ghost nested = nested_blocks(trees_of(children@), next);
            append_nested(children, blocks, next);
            assert(before + own + nested =~= before + (own + nested));
        },
        _ => {
            assert(before + Seq::empty() =~= before);
        },
    }
}

fn append_nested(children: &Vec<MarkNode>, blocks: &mut Vec<Block>, depth: usize)
    ensures
        blocks_view(final(blocks)@) == blocks_view(old(blocks)@) + nested_blocks(
            trees_of(children@),
            depth,
        ),
    decreases children,
{
    let ghost before = blocks_view(blocks@);
    let mut i: usize = 0;
    assert(before + Seq::empty() =~= before);
    while i < children.len()
        invariant
            i <= children.len(),
            blocks_view(blocks@) == before + nested_blocks(
                trees_of(children@.take(i as int)),
                depth,
            ),
        decreases children.len() - i,
    {
        assert(decreases_to!(children => children@[i as int]));
        let ghost so_far = nested_blocks(trees_of(children@.take(i as int)), depth);
        proof {
            lemma_trees_step(children@, i as int);
        }
        match &children[i] {
            MarkNode::List { ordered, start, children: items } => {
                append_list(*ordered, *start, items, blocks, depth);
                assert(before + so_far + list_blocks(*ordered, *start, trees_of(items@), depth)
                    =~= before + (so_far + list_blocks(*ordered, *start, trees_of(items@), depth)));
            },
            _ => {
                assert(before + (so_far + Seq::empty()) =~= before + so_far);
            },
        }
        i = i + 1;
    }
    assert(children@.take(i as int) =~= children@);
}

fn row_cells(cells: &Vec<MarkNode>) -> (r: Vec<String>)
    ensures
        strs(r@) == cells_of(trees_of(cells@)),
{
    let mut out: Vec<String> = Vec::new();
    let mut i: usize = 0;
    assert(strs(out@) =~= cells_of(trees_of(cells@.take(0))));
    while i < cells.len()
        invariant
            i <= cells.len(),
            strs(out@) == cells_of(trees_of(cells@.take(i as int))),
        decreases cells.len() - i,
    {
        proof {
            lemma_trees_step(cells@, i as int);
        }
        if let MarkNode::TableCell(c) = &cells[i] {
            let text = inline_markdown(c);
            proof {
                lemma_strs_push(out@, text);
            }
            out.push(text);
        }
        i = i + 1;
    }
    assert(cells@.take(i as int) =~= cells@);
    out
}

fn table_rows(nodes: &Vec<MarkNode>) -> (r: Vec<Vec<String>>)
    ensures
        rows_view(r@) == rows_of(trees_of(nodes@)),
{
    let mut out: Vec<Vec<String>> = Vec::new();
    let mut i: usize = 0;
    assert(rows_view(out@) =~= rows_of(trees_of(nodes@.take(0))));
    while i < nodes.len()
        invariant
            i <= nodes.len(),
            rows_view(out@) == rows_of(trees_of(nodes@.take(i as int))),
        decreases nodes.len() - i,
    {
        proof {
            lemma_trees_step(nodes@, i as int);
        }
        if let MarkNode::TableRow(c) = &nodes[i] {
            let row = row_cells(c);
            assert(rows_view(out@.push(row)) =~= rows_view(out@).push(strs(row@)));
            out.push(row);
        }
        i = i + 1;
    }
    assert(nodes@.take(i as int) =~= nodes@);
    out
}

fn append_table(nodes: &Vec<MarkNode>, blocks: &mut Vec<Block>)
    ensures
        blocks_view(final(blocks)@) == blocks_view(old(blocks)@) + table_blocks(trees_of(nodes@)),
{
    let mut rows = table_rows(nodes);
    let ghost all = rows_view(rows@);
    if rows.len() == 0 {
        assert(blocks_view(blocks@) + Seq::empty() =~= blocks_view(blocks@));
        return;
    }
    let headers = rows.remove(0);
    assert(strs(headers@) == all[0]);
    assert(rows_view(rows@) =~= all.skip(1));
    push_block(blocks, Block::Table { headers, rows });
}

fn append_html(value: &str, blocks: &mut Vec<Block>)
    ensures
        blocks_view(final(blocks)@) == blocks_view(old(blocks)@) + html_blocks(value@),
{
    if let Some(content) = aside_content(value) {
        push_block(blocks, Block::Aside(content));
    } else if !blank(value) {
        push_block(blocks, Block::Html(trim(value)));
    } else {
        assert(blocks_view(blocks@) + Seq::empty() =~= blocks_view(blocks@));
    }
}

fn copy_language(o: &Option<String>) -> (r: Option<String>)
    ensures
        opt_text(r) == opt_text(*o),
{
    match o {
        Some(s) => Some(s.clone()),
        None => None,
    }
}

fn append_node(node: &MarkNode, blocks: &mut Vec<Block>)
    ensures
        blocks_view(final(blocks)@) == blocks_view(old(blocks)@) + tree_blocks(tree_of(*node)),
    decreases node,
{
    match node {
        MarkNode::Root(c) => append_nodes(c, blocks),
        MarkNode::Heading { depth, children } => push_block(
            blocks,
            Block::Heading { level: *depth, text: inline_markdown(children) },
        ),
        MarkNode::Paragraph(c) => append_paragraph(c, blocks),
        MarkNode::List { ordered, start, children } => append_list(
            *ordered,
            *start,
            children,
            blocks,
            0,
        ),
        MarkNode::Blockquote(c) => {
            let text = block_text(c);
            if !blank(&text) {
                push_block(blocks, Block::Quote(text));
            } else {
                assert(blocks_view(blocks@) + Seq::empty() =~= blocks_view(blocks@));
            }
        },
        MarkNode::Code { value, lang } => push_block(
            blocks,
            Block::Code { text: value.clone(), language: copy_language(lang) },
        ),
        MarkNode::ThematicBreak => push_block(blocks, Block::Divider),
        MarkNode::Table(c) => append_table(c, blocks),
        MarkNode::Html(value) => append_html(value, blocks),
        MarkNode::Image { alt, url } => push_block(
            blocks,
            Block::Image { alt: alt.clone(), url: url.clone() },
        ),
        _ => push_paragraph(blocks, inline_markdown_node(node)),
    }
}

fn append_nodes(nodes: &Vec<MarkNode>, blocks: &mut Vec<Block>)
    ensures
        blocks_view(final(blocks)@) == blocks_view(old(blocks)@) + trees_blocks(trees_of(nodes@)),
    decreases nodes,
{
    let ghost before = blocks_view(blocks@);
    let mut i: usize = 0;
    assert(before + Seq::empty() =~= before);
    while i < nodes.len()
        invariant
            i <= nodes.len(),
            blocks_view(blocks@) == before + trees_blocks(trees_of(nodes@.take(i as int))),
        decreases nodes.len() - i,
    {
        assert(decreases_to!(nodes => nodes@[i as int]));
        let ghost so_far = trees_blocks(trees_of(nodes@.take(i as int)));
        append_node(&nodes[i], blocks);
        proof {
            lemma_trees_step(nodes@, i as int);
            let own = tree_blocks(tree_of(nodes@[i as int]));
            assert(before + so_far + own =~= before + (so_far + own));
        }
        i = i + 1;
    }
    assert(nodes@.take(i as int) =~= nodes@);
}

/// The blocks of a syntax tree.
pub fn blocks_of_tree(tree: &MarkNode) -> (blocks: Vec<Block>)
    ensures
        blocks_view(blocks@) == tree_blocks(tree_of(*tree)),
{
    let mut blocks: Vec<Block> = Vec::new();
    append_node(tree, &mut blocks);
    assert(blocks_view(Seq::<Block>::empty()) + tree_blocks(tree_of(*tree)) =~= tree_blocks(
        tree_of(*tree),
    ));
    blocks
}

/// Parse CommonMark with the full GitHub Flavored Markdown extension set.
///
/// The crate `markdown` handles the grammar (including task lists, tables, strikethrough,
/// autolinks, and footnotes); this adapter maps its syntax tree to the native preview blocks.
pub fn parse_blocks(markdown: &str) -> (blocks: Vec<Block>)
    ensures
        blocks_view(blocks@) == document_blocks(markdown@),
{
    match parse_tree(markdown) {
        Some(tree) => blocks_of_tree(&tree),
        None => {
            let mut blocks: Vec<Block> = Vec::new();
            push_block(&mut blocks, Block::Paragraph(markdown.to_owned()));
            assert(blocks_view(blocks@) =~= seq![BlockView::Paragraph(markdown@)]);
            blocks
        },
    }
}

// ---------------------------------------------------------------------------
// Inline pieces
// ---------------------------------------------------------------------------

/// A style of inline text.
#[derive(Clone, Copy, Debug, PartialEq, Eq, Structural)]
pub enum InlineStyle {
    Bold,
    Italic,
    Strike,
    Code,
}

/// A piece of inline text with its annotations.
#[derive(Clone, Debug, PartialEq, Eq)]
pub struct RichTextPiece {
    pub text: String,
    pub styles: Vec<InlineStyle>,
    pub link: Option<String>,
    pub image: Option<String>,
}

/// The mathematical model of a piece of text.
pub ghost struct PieceView {
    pub text: Seq<char>,
    pub styles: Seq<InlineStyle>,
    pub link: Option<Seq<char>>,
    pub image: Option<Seq<char>>,
}

impl View for RichTextPiece {
    type V = PieceView;

    open spec fn view(&self) -> PieceView {
        PieceView {
            text: self.text@,
            styles: self.styles@,
            link: opt_text(self.link),
            image: opt_text(self.image),
        }
    }
}

pub open spec fn pieces_view(pieces: Seq<RichTextPiece>) -> Seq<PieceView> {
    pieces.map_values(|piece: RichTextPiece| piece@)
}

/// One piece, or none where it has no text.
pub open spec fn piece_or_none(
    text: Seq<char>,
    styles: Seq<InlineStyle>,
    link: Option<Seq<char>>,
    image: Option<Seq<char>>,
) -> Seq<PieceView> {
    if text.len() == 0 {
        Seq::empty()
    } else {
        seq![PieceView { text, styles, link, image }]
    }
}

/// The pieces of inline content, within the given styles and link.
pub open spec fn node_pieces(
    t: Tree,
    styles: Seq<InlineStyle>,
    link: Option<Seq<char>>,
) -> Seq<PieceView>
    decreases t,
{
    match t {
        Tree::Text(s) => piece_or_none(s, styles, link, None),
        Tree::Strong(c) => nodes_pieces(c, styles.push(InlineStyle::Bold), link),
        Tree::Emphasis(c) => nodes_pieces(c, styles.push(InlineStyle::Italic), link),
        Tree::Delete(c) => nodes_pieces(c, styles.push(InlineStyle::Strike), link),
        Tree::InlineCode(s) => piece_or_none(s, styles.push(InlineStyle::Code), link, None),
        Tree::Link { url, children } => nodes_pieces(children, styles, Some(url)),
        Tree::Image { alt, url } => piece_or_none(alt, styles, link, Some(url)),
        Tree::Break => piece_or_none("\n"@, styles, link, None),
        Tree::Html(s) => piece_or_none(s, styles, link, None),
        Tree::Paragraph(c) => nodes_pieces(c, styles, link),
        _ => Seq::empty(),
    }
}

pub open spec fn nodes_pieces(
    ts: Seq<Tree>,
    styles: Seq<InlineStyle>,
    link: Option<Seq<char>>,
) -> Seq<PieceView>
    decreases ts,
{
    if ts.len() == 0 {
        Seq::empty()
    } else {
        nodes_pieces(ts.drop_last(), styles, link) + node_pieces(ts.last(), styles, link)
    }
}

/// The pieces of a syntax tree.
pub open spec fn tree_pieces(t: Tree) -> Seq<PieceView> {
    match t {
        Tree::Root(c) => nodes_pieces(c, Seq::empty(), None),
        _ => node_pieces(t, Seq::empty(), None),
    }
}

/// The pieces of an inline text; one piece with all of it where it has no syntax tree.
pub open spec fn inline_pieces(markdown: Seq<char>) -> Seq<PieceView> {
    match gfm_tree(markdown) {
        Some(tree) => tree_pieces(tree),
        None => seq![
            PieceView { text: markdown, styles: Seq::empty(), link: None, image: None },
        ],
    }
}

/// The texts of some pieces, one after the other.
pub open spec fn pieces_text(pieces: Seq<PieceView>) -> Seq<char>
    decreases pieces.len(),
{
    if pieces.len() == 0 {
        Seq::empty()
    } else {
        pieces_text(pieces.drop_last()) + pieces.last().text
    }
}

fn copy_text(o: Option<&str>) -> (r: Option<String>)
    ensures
        opt_text(r) == match o {
            Some(s) => Some(s@),
            None => None,
        },
{
    match o {
        Some(s) => Some(s.to_owned()),
        None => None,
    }
}

fn copy_styles(styles: &Vec<InlineStyle>) -> (r: Vec<InlineStyle>)
    ensures
        r@ == styles@,
{
    let mut out: Vec<InlineStyle> = Vec::new();
    let mut i: usize = 0;
    while i < styles.len()
        invariant
            i <= styles.len(),
            out@ == styles@.take(i as int),
        decreases styles.len() - i,
    {
        out.push(styles[i]);
        i = i + 1;
        assert(out@ =~= styles@.take(i as int));
    }
    assert(styles@.take(i as int) =~= styles@);
    out
}

fn push_inline_piece(
    pieces: &mut Vec<RichTextPiece>,
    text: String,
    styles: &Vec<InlineStyle>,
    link: Option<&str>,
    image: Option<&str>,
)
    ensures
        pieces_view(final(pieces)@) == pieces_view(old(pieces)@) + piece_or_none(
            text@,
            styles@,
            str_view(link),
            str_view(image),
        ),
{
    let ghost before = pieces_view(pieces@);
    if text.unicode_len() == 0 {
        assert(before + Seq::empty() =~= before);
        return;
    }
    let piece = RichTextPiece {
        text,
        styles: copy_styles(styles),
        link: copy_text(link),
        image: copy_text(image),
    };
    assert(pieces_view(pieces@.push(piece)) =~= before + seq![piece@]);
    pieces.push(piece);
}

/// The view of an optional borrowed text.
pub open spec fn str_view(o: Option<&str>) -> Option<Seq<char>> {
    match o {
        Some(s) => Some(s@),
        None => None,
    }
}

fn append_inline_node(
    node: &MarkNode,
    pieces: &mut Vec<RichTextPiece>,
    styles: &Vec<InlineStyle>,
    link: Option<&str>,
)
    ensures
        pieces_view(final(pieces)@) == pieces_view(old(pieces)@) + node_pieces(
            tree_of(*node),
            styles@,
            str_view(link),
        ),
    decreases node,
{
    match node {
        MarkNode::Text(s) => push_inline_piece(pieces, s.clone(), styles, link, None),
        MarkNode::Strong(c) => {
            let mut nested = copy_styles(styles);
            nested.push(InlineStyle::Bold);
            append_inline(c, pieces, &nested, link);
        },
        MarkNode::Emphasis(c) => {
            let mut nested = copy_styles(styles);
            nested.push(InlineStyle::Italic);
            append_inline(c, pieces, &nested, link);
        },
        MarkNode::Delete(c) => {
            let mut nested = copy_styles(styles);
            nested.push(InlineStyle::Strike);
            append_inline(c, pieces, &nested, link);
        },
        MarkNode::InlineCode(s) => {
            let mut nested = copy_styles(styles);
            nested.push(InlineStyle::Code);
            push_inline_piece(pieces, s.clone(), &nested, link, None);
        },
        MarkNode::Link { url, children } => append_inline(
            children,
            pieces,
            styles,
            Some(url.as_str()),
        ),
        MarkNode::Image { alt, url } => push_inline_piece(
            pieces,
            alt.clone(),
            styles,
            link,
            Some(url.as_str()),
        ),
        MarkNode::Break => push_inline_piece(pieces, "\n".to_owned(), styles, link, None),
        MarkNode::Html(s) => push_inline_piece(pieces, s.clone(), styles, link, None),
        MarkNode::Paragraph(c) => append_inline(c, pieces, styles, link),
        _ => {
            assert(pieces_view(pieces@) + Seq::empty() =~= pieces_view(pieces@));
        },
    }
}

fn append_inline(
    nodes: &Vec<MarkNode>,
    pieces: &mut Vec<RichTextPiece>,
    styles: &Vec<InlineStyle>,
    link: Option<&str>,
)
    ensures
        pieces_view(final(pieces)@) == pieces_view(old(pieces)@) + nodes_pieces(
            trees_of(nodes@),
            styles@,
            str_view(link),
        ),
    decreases nodes,
{
    let ghost before = pieces_view(pieces@);
    let mut i: usize = 0;
    assert(before + Seq::empty() =~= before);
    while i < nodes.len()
        invariant
            i <= nodes.len(),
            pieces_view(pieces@) == before + nodes_pieces(
                trees_of(nodes@.take(i as int)),
                styles@,
                str_view(link),
            ),
        decreases nodes.len() - i,
    {
        assert(decreases_to!(nodes => nodes@[i as int]));
        let ghost so_far = nodes_pieces(
            trees_of(nodes@.take(i as int)),
            styles@,
            str_view(link),
        );
        append_inline_node(&nodes[i], pieces, styles, link);
        proof {
            lemma_trees_step(nodes@, i as int);
            let own = node_pieces(tree_of(nodes@[i as int]), styles@, str_view(link));
            assert(before + so_far + own =~= before + (so_far + own));
        }
        i = i + 1;
    }
    assert(nodes@.take(i as int) =~= nodes@);
}

/// The annotated pieces of a syntax tree.
pub fn pieces_of_tree(tree: &MarkNode) -> (pieces: Vec<RichTextPiece>)
    ensures
        pieces_view(pieces@) == tree_pieces(tree_of(*tree)),
{
    let mut pieces: Vec<RichTextPiece> = Vec::new();
    let styles: Vec<InlineStyle> = Vec::new();
    match tree {
        MarkNode::Root(c) => append_inline(c, &mut pieces, &styles, None),
        _ => append_inline_node(tree, &mut pieces, &styles, None),
    }
    assert(pieces_view(Seq::<RichTextPiece>::empty()) + tree_pieces(tree_of(*tree)) =~= tree_pieces(
        tree_of(*tree),
    ));
    assert(styles@ =~= Seq::empty());
    pieces
}

/// Parse inline Markdown (paragraph / heading / list item text) into annotated
/// text pieces. Both the live preview and the publishing export use this one
/// renderer, so the two views stay consistent.
pub fn parse_inline(markdown: &str) -> (pieces: Vec<RichTextPiece>)
    ensures
        pieces_view(pieces@) == inline_pieces(markdown@),
{
    match parse_tree(markdown) {
        Some(tree) => pieces_of_tree(&tree),
        None => {
            let mut pieces: Vec<RichTextPiece> = Vec::new();
            let piece = RichTextPiece {
                text: markdown.to_owned(),
                styles: Vec::new(),
                link: None,
                image: None,
            };
            assert(piece@.styles =~= Seq::empty());
            pieces.push(piece);
            assert(pieces_view(pieces@) =~= inline_pieces(markdown@));
            pieces
        },
    }
}

/// The text of some pieces, without their annotations.
pub fn plain_text(pieces: &Vec<RichTextPiece>) -> (r: String)
    ensures
        r@ == pieces_text(pieces_view(pieces@)),
{
    let mut out = String::new();
    let mut i: usize = 0;
    while i < pieces.len()
        invariant
            i <= pieces.len(),
            out@ == pieces_text(pieces_view(pieces@).take(i as int)),
        decreases pieces.len() - i,
    {
        let ghost now = pieces_view(pieces@).take(i + 1);
        assert(now.drop_last() =~= pieces_view(pieces@).take(i as int));
        assert(now.last() == pieces@[i as int]@);
        push_text(&mut out, &pieces[i].text);
        i = i + 1;
    }
    assert(pieces_view(pieces@).take(i as int) =~= pieces_view(pieces@));
    out
}

/// The text of inline Markdown, without its markup.
pub fn strip_inline(markdown: &str) -> (r: String)
    ensures
        r@ == pieces_text(inline_pieces(markdown@)),
{
    plain_text(&parse_inline(markdown))
}

// ---------------------------------------------------------------------------
// Laws
// ---------------------------------------------------------------------------

/// The block is worth showing: no text of a paragraph, item or quote is blank.
pub open spec fn has_content(block: BlockView) -> bool {
    match block {
        BlockView::Paragraph(text) => !is_blank(text),
        BlockView::Bullet { text, depth } => !is_blank(text),
        BlockView::Numbered { marker, text, depth } => !is_blank(text),
        BlockView::Task { checked, text, depth } => !is_blank(text),
        BlockView::Quote(text) => !is_blank(text),
        BlockView::Html(text) => !is_blank(text),
        _ => true,
    }
}

pub open spec fn all_have_content(blocks: Seq<BlockView>) -> bool {
    forall|k: int| 0 <= k < blocks.len() ==> has_content(#[trigger] blocks[k])
}

proof fn lemma_content_concat(a: Seq<BlockView>, b: Seq<BlockView>)
    requires
        all_have_content(a),
        all_have_content(b),
    ensures
        all_have_content(a + b),
{
    assert forall|k: int| 0 <= k < (a + b).len() implies has_content(#[trigger] (a + b)[k]) by {
        if k < a.len() {
            assert(has_content(a[k]));
        } else {
            assert(has_content(b[k - a.len()]));
        }
    }
}

proof fn lemma_list_content(ordered: bool, start: Option<u32>, items: Seq<Tree>, depth: usize)
    ensures
        all_have_content(list_blocks(ordered, start, items, depth)),
    decreases items,
{
    if items.len() > 0 {
        lemma_list_content(ordered, start, items.drop_last(), depth);
        lemma_item_content(ordered, start, items.len() - 1, items.last(), depth);
        lemma_content_concat(
            list_blocks(ordered, start, items.drop_last(), depth),
            list_item_blocks(ordered, start, items.len() - 1, items.last(), depth),
        );
    }
}

proof fn lemma_item_content(
    ordered: bool,
    start: Option<u32>,
    offset: int,
    item: Tree,
    depth: usize,
)
    ensures
        all_have_content(list_item_blocks(ordered, start, offset, item, depth)),
    decreases item,
{
    if let Tree::ListItem { checked, children } = item {
        let text = item_text(children);
        let own = if is_blank(text) {
            Seq::empty()
        } else {
            seq![item_block(ordered, start, offset, checked, text, depth)]
        };
        lemma_nested_content(children, deeper(depth));
        lemma_content_concat(own, nested_blocks(children, deeper(depth)));
    }
}

proof fn lemma_nested_content(children: Seq<Tree>, depth: usize)
    ensures
        all_have_content(nested_blocks(children, depth)),
    decreases children,
{
    if children.len() > 0 {
        lemma_nested_content(children.drop_last(), depth);
        let own = match children.last() {
            Tree::List { ordered, start, children } => list_blocks(ordered, start, children, depth),
            _ => Seq::empty(),
        };
        if let Tree::List { ordered, start, children: items } = children.last() {
            lemma_list_content(ordered, start, items, depth);
        }
        lemma_content_concat(nested_blocks(children.drop_last(), depth), own);
    }
}

/// No paragraph, item, quote or piece of HTML among the blocks of a tree is blank.
pub proof fn law_blocks_have_content(t: Tree)
    ensures
        all_have_content(tree_blocks(t)),
    decreases t,
{
    match t {
        Tree::Root(c) => {
            lemma_trees_content(c);
        },
        Tree::List { ordered, start, children } => {
            lemma_list_content(ordered, start, children, 0);
        },
        Tree::Html(value) => {
            crate::text::lemma_trim_blank(value);
            if !is_blank(value) {
                crate::text::lemma_trimmed_ends(value);
                assert(!crate::text::is_white(trim_of(value)[0]));
            }
        },
        _ => {},
    }
}

proof fn lemma_trees_content(ts: Seq<Tree>)
    ensures
        all_have_content(trees_blocks(ts)),
    decreases ts,
{
    if ts.len() > 0 {
        lemma_trees_content(ts.drop_last());
        law_blocks_have_content(ts.last());
        lemma_content_concat(trees_blocks(ts.drop_last()), tree_blocks(ts.last()));
    }
}

pub open spec fn no_piece_is_empty(pieces: Seq<PieceView>) -> bool {
    forall|k: int| 0 <= k < pieces.len() ==> (#[trigger] pieces[k]).text.len() > 0
}

/// No piece of the inline content of a tree is empty.
pub proof fn law_pieces_are_not_empty(t: Tree)
    ensures
        no_piece_is_empty(tree_pieces(t)),
{
    match t {
        Tree::Root(c) => {
            lemma_nodes_not_empty(c, Seq::empty(), None);
        },
        _ => {
            lemma_node_not_empty(t, Seq::empty(), None);
        },
    }
}

proof fn lemma_node_not_empty(t: Tree, styles: Seq<InlineStyle>, link: Option<Seq<char>>)
    ensures
        no_piece_is_empty(node_pieces(t, styles, link)),
    decreases t,
{
    match t {
        Tree::Strong(c) => {
            lemma_nodes_not_empty(c, styles.push(InlineStyle::Bold), link);
        },
        Tree::Emphasis(c) => {
            lemma_nodes_not_empty(c, styles.push(InlineStyle::Italic), link);
        },
        Tree::Delete(c) => {
            lemma_nodes_not_empty(c, styles.push(InlineStyle::Strike), link);
        },
        Tree::Link { url, children } => {
            lemma_nodes_not_empty(children, styles, Some(url));
        },
        Tree::Paragraph(c) => {
            lemma_nodes_not_empty(c, styles, link);
        },
        _ => {},
    }
}

proof fn lemma_nodes_not_empty(ts: Seq<Tree>, styles: Seq<InlineStyle>, link: Option<Seq<char>>)
    ensures
        no_piece_is_empty(nodes_pieces(ts, styles, link)),
    decreases ts,
{
    if ts.len() > 0 {
        lemma_nodes_not_empty(ts.drop_last(), styles, link);
        lemma_node_not_empty(ts.last(), styles, link);
        let a = nodes_pieces(ts.drop_last(), styles, link);
        let b = node_pieces(ts.last(), styles, link);
        assert forall|k: int| 0 <= k < (a + b).len() implies (#[trigger] (a + b)[k]).text.len() > 0 by {
            if k < a.len() {
                assert(a[k].text.len() > 0);
            } else {
                assert(b[k - a.len()].text.len() > 0);
            }
        }
    }
}

} // verus!
