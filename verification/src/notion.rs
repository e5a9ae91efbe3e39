//! Publishing to Notion: the blocks and pages of its interface, and the course of a publication.

use vstd::prelude::*;

use crate::bytes::lossy_text;
use crate::http::{
    header, headers_view, BodyView, Header, HttpMethod, HttpReply, HttpRequest, RequestBody,
    RequestView,
};
use crate::json::{
    add_member, json, jsons, lemma_jsons_push, obj0, obj1, obj2, obj3, object0, object1, object2,
    object3, text_value, with_member, Json, JsonView,
};
use crate::lines::{fields, lemma_fields_nonempty, split_fields, strs};
use crate::markdown::{
    blocks_view, document_blocks, inline_pieces, parse_blocks, parse_inline, pieces_view,
    rows_view, Block, BlockView, InlineStyle, PieceView, RichTextPiece,
};
use crate::number::{decimal, to_decimal};
use crate::publishing::{
    is_public, is_public_url, is_success, response_text, status_is_success, NotionConfig,
};
use crate::reply::{
    escape_pointer, json_array_len, json_error, json_fault, json_has, json_has_at, json_keys_at,
    json_len_at, json_object_keys, json_str, json_text_at, pointer_token,
};
use crate::text::{
    ascii_lower, blank, char_run_back, chars_of, concat2, concat3, find, find_from, first_chars,
    has_prefix, is_blank, lemma_run_is, max_of, only, push_text, run, run_back, same_text,
    slice_of, starts_with, to_ascii_lowercase, trim, trim_of,
};
use crate::tree::opt_text;

verus! {

// ---------------------------------------------------------------------------
// Rich text
// ---------------------------------------------------------------------------

/// The name of a style in an annotation.
pub open spec fn annotation_of(style: InlineStyle) -> Seq<char> {
    match style {
        InlineStyle::Bold => "bold"@,
        InlineStyle::Italic => "italic"@,
        InlineStyle::Strike => "strikethrough"@,
        InlineStyle::Code => "code"@,
    }
}

/// A text in parts of two thousand characters.
pub open spec fn chunks_of(text: Seq<char>) -> Seq<Seq<char>>
    decreases text.len(),
{
    if text.len() == 0 {
        Seq::empty()
    } else if text.len() <= 2000 {
        seq![text]
    } else {
        seq![text.take(2000)] + chunks_of(text.skip(2000))
    }
}

/// The annotations of some styles.
pub open spec fn annotations_of(styles: Seq<InlineStyle>) -> JsonView
    decreases styles.len(),
{
    if styles.len() == 0 {
        obj0()
    } else {
        with_member(
            annotations_of(styles.drop_last()),
            annotation_of(styles.last()),
            JsonView::Bool(true),
        )
    }
}

/// One part of a rich text.
pub open spec fn rich_chunk(
    content: Seq<char>,
    styles: Seq<InlineStyle>,
    link: Option<Seq<char>>,
) -> JsonView {
    let bare = obj1("content"@, JsonView::Text(content));
    let text = match link {
        Some(url) => with_member(bare, "link"@, obj1("url"@, JsonView::Text(url))),
        None => bare,
    };
    let value = obj2("type"@, JsonView::Text("text"@), "text"@, text);
    if styles.len() == 0 {
        value
    } else {
        with_member(value, "annotations"@, annotations_of(styles))
    }
}

/// The parts of a rich text of one style.
pub open spec fn rich_chunks(
    chunks: Seq<Seq<char>>,
    styles: Seq<InlineStyle>,
    link: Option<Seq<char>>,
) -> Seq<JsonView> {
    chunks.map_values(|content: Seq<char>| rich_chunk(content, styles, link))
}

/// The parts of the rich text of some pieces.
pub open spec fn rich_pieces(pieces: Seq<PieceView>) -> Seq<JsonView>
    decreases pieces.len(),
{
    if pieces.len() == 0 {
        Seq::empty()
    } else {
        let last = pieces.last();
        rich_pieces(pieces.drop_last()) + rich_chunks(chunks_of(last.text), last.styles, last.link)
    }
}

/// The rich text of inline Markdown.
pub open spec fn rich_of(text: Seq<char>) -> JsonView {
    JsonView::Array(rich_pieces(inline_pieces(text)))
}

/// The rich text of a text without markup.
pub open spec fn plain_rich_of(text: Seq<char>) -> JsonView {
    JsonView::Array(rich_chunks(chunks_of(text), Seq::empty(), None))
}

fn annotation_name(style: InlineStyle) -> (r: &'static str)
    ensures
        r@ == annotation_of(style),
{
    match style {
        InlineStyle::Bold => "bold",
        InlineStyle::Italic => "italic",
        InlineStyle::Strike => "strikethrough",
        InlineStyle::Code => "code",
    }
}

fn annotations(styles: &Vec<InlineStyle>) -> (r: Json)
    ensures
        json(r) == annotations_of(styles@),
{
    let mut out = object0();
    let mut i: usize = 0;
    assert(styles@.take(0) =~= Seq::empty());
    while i < styles.len()
        invariant
            i <= styles.len(),
            json(out) is Object,
            json(out) == annotations_of(styles@.take(i as int)),
        decreases styles.len() - i,
    {
        assert(styles@.take(i + 1).drop_last() =~= styles@.take(i as int));
        out = add_member(out, annotation_name(styles[i]), Json::Bool(true));
        i = i + 1;
    }
    assert(styles@.take(i as int) =~= styles@);
    out
}

fn rich_part(content: &str, styles: &Vec<InlineStyle>, link: &Option<String>) -> (r: Json)
    ensures
        json(r) == rich_chunk(content@, styles@, opt_text(*link)),
{
    let bare = object1("content", text_value(content));
    let text = match link {
        Some(url) => add_member(bare, "link", object1("url", text_value(url))),
        None => bare,
    };
    let value = object2("type", text_value("text"), "text", text);
    if styles.len() == 0 {
        value
    } else {
        add_member(value, "annotations", annotations(styles))
    }
}

fn push_rich_text(
    result: &mut Vec<Json>,
    text: &str,
    styles: &Vec<InlineStyle>,
    link: &Option<String>,
)
    ensures
        jsons(final(result)@) == jsons(old(result)@) + rich_chunks(
            chunks_of(text@),
            styles@,
            opt_text(*link),
        ),
{
    let cs = chars_of(text);
    let ghost before = jsons(result@);
    let ghost wanted = rich_chunks(chunks_of(text@), styles@, opt_text(*link));
    let mut from: usize = 0;
    assert(cs@.skip(0) =~= cs@);
    while from < cs.len()
        invariant
            from <= cs.len(),
            jsons(result@) + rich_chunks(
                chunks_of(cs@.skip(from as int)),
                styles@,
                opt_text(*link),
            ) == before + wanted,
        decreases cs.len() - from,
    {
        let ghost so_far = jsons(result@);
        let ghost rest = cs@.skip(from as int);
        let to: usize = if cs.len() - from <= 2000 {
            cs.len()
        } else {
            from + 2000
        };
        let content = slice_of(&cs, from, to);
        let part = rich_part(&content, styles, link);
        proof {
            lemma_jsons_push(result@, part);
            if rest.len() <= 2000 {
                assert(content@ =~= rest);
                assert(cs@.skip(to as int) =~= Seq::empty());
                assert(rich_chunks(chunks_of(rest), styles@, opt_text(*link)) =~= seq![json(part)]);
                assert(rich_chunks(chunks_of(cs@.skip(to as int)), styles@, opt_text(*link))
                    =~= Seq::empty());
                assert(so_far.push(json(part)) + Seq::empty() =~= so_far + seq![json(part)]);
            } else {
                assert(content@ =~= rest.take(2000));
                assert(cs@.skip(to as int) =~= rest.skip(2000));
                let more = rich_chunks(chunks_of(rest.skip(2000)), styles@, opt_text(*link));
                assert(rich_chunks(chunks_of(rest), styles@, opt_text(*link)) =~= seq![json(part)]
                    + more);
                assert(so_far.push(json(part)) + more =~= so_far + (seq![json(part)] + more));
            }
        }
        result.push(part);
        from = to;
    }
    proof {
        assert(cs@.skip(from as int) =~= Seq::empty());
        assert(rich_chunks(chunks_of(cs@.skip(from as int)), styles@, opt_text(*link))
            =~= Seq::empty());
        assert(jsons(result@) + Seq::empty() =~= jsons(result@));
    }
}

/// The rich text of some pieces.
pub fn rich_text_of_pieces(pieces: &Vec<RichTextPiece>) -> (r: Vec<Json>)
    ensures
        jsons(r@) == rich_pieces(pieces_view(pieces@)),
{
    let ghost all = pieces_view(pieces@);
    let mut out: Vec<Json> = Vec::new();
    let mut i: usize = 0;
    while i < pieces.len()
        invariant
            i <= pieces.len(),
            all == pieces_view(pieces@),
            jsons(out@) == rich_pieces(all.take(i as int)),
        decreases pieces.len() - i,
    {
        assert(all.take(i + 1).drop_last() =~= all.take(i as int));
        assert(all.take(i + 1).last() == pieces@[i as int]@);
        push_rich_text(&mut out, &pieces[i].text, &pieces[i].styles, &pieces[i].link);
        i = i + 1;
    }
    assert(all.take(i as int) =~= all);
    out
}

fn rich_text(text: &str) -> (r: Json)
    ensures
        json(r) == rich_of(text@),
{
    Json::Array(rich_text_of_pieces(&parse_inline(text)))
}

fn plain_rich_text(text: &str) -> (r: Json)
    ensures
        json(r) == plain_rich_of(text@),
{
    let mut out: Vec<Json> = Vec::new();
    let styles: Vec<InlineStyle> = Vec::new();
    assert(styles@ =~= Seq::empty());
    push_rich_text(&mut out, text, &styles, &None);
    assert(Seq::empty() + rich_chunks(chunks_of(text@), Seq::empty(), None) =~= rich_chunks(
        chunks_of(text@),
        Seq::empty(),
        None,
    ));
    Json::Array(out)
}

// ---------------------------------------------------------------------------
// Blocks
// ---------------------------------------------------------------------------

/// A language as Notion names it, by the name that a document gives it.
pub open spec fn language_of(language: Option<Seq<char>>) -> Seq<char> {
    match language {
        None => "plain text"@,
        Some(name) => {
            let l = ascii_lower(name);
            if l == "js"@ || l == "javascript"@ {
                "javascript"@
            } else if l == "ts"@ || l == "typescript"@ {
                "typescript"@
            } else if l == "python"@ || l == "py"@ {
                "python"@
            } else if l == "rust"@ || l == "rs"@ {
                "rust"@
            } else if l == "go"@ || l == "golang"@ {
                "go"@
            } else if l == "c"@ {
                "c"@
            } else if l == "cpp"@ || l == "c++"@ {
                "cpp"@
            } else if l == "java"@ {
                "java"@
            } else if l == "json"@ {
                "json"@
            } else if l == "yaml"@ || l == "yml"@ {
                "yaml"@
            } else if l == "markdown"@ || l == "md"@ {
                "markdown"@
            } else if l == "html"@ {
                "html"@
            } else if l == "css"@ {
                "css"@
            } else if l == "shell"@ || l == "sh"@ || l == "bash"@ || l == "zsh"@ {
                "bash"@
            } else if l == "sql"@ {
                "sql"@
            } else if l == "swift"@ {
                "swift"@
            } else if l == "kotlin"@ {
                "kotlin"@
            } else if l == "ruby"@ || l == "rb"@ {
                "ruby"@
            } else if l == "php"@ {
                "php"@
            } else if l == "dart"@ {
                "dart"@
            } else if l == "xml"@ {
                "xml"@
            } else {
                "plain text"@
            }
        },
    }
}

/// A language as Notion names it.
pub fn notion_code_language(language: Option<&str>) -> (r: &'static str)
    ensures
        r@ == language_of(
            match language {
                Some(s) => Some(s@),
                None => None,
            },
        ),
{
    let name = match language {
        Some(name) => name,
        None => {
            return "plain text";
        },
    };
    let l = to_ascii_lowercase(name);
    if same_text(&l, "js") || same_text(&l, "javascript") {
        "javascript"
    } else if same_text(&l, "ts") || same_text(&l, "typescript") {
        "typescript"
    } else if same_text(&l, "python") || same_text(&l, "py") {
        "python"
    } else if same_text(&l, "rust") || same_text(&l, "rs") {
        "rust"
    } else if same_text(&l, "go") || same_text(&l, "golang") {
        "go"
    } else if same_text(&l, "c") {
        "c"
    } else if same_text(&l, "cpp") || same_text(&l, "c++") {
        "cpp"
    } else if same_text(&l, "java") {
        "java"
    } else if same_text(&l, "json") {
        "json"
    } else if same_text(&l, "yaml") || same_text(&l, "yml") {
        "yaml"
    } else if same_text(&l, "markdown") || same_text(&l, "md") {
        "markdown"
    } else if same_text(&l, "html") {
        "html"
    } else if same_text(&l, "css") {
        "css"
    } else if same_text(&l, "shell") || same_text(&l, "sh") || same_text(&l, "bash") || same_text(
        &l,
        "zsh",
    ) {
        "bash"
    } else if same_text(&l, "sql") {
        "sql"
    } else if same_text(&l, "swift") {
        "swift"
    } else if same_text(&l, "kotlin") {
        "kotlin"
    } else if same_text(&l, "ruby") || same_text(&l, "rb") {
        "ruby"
    } else if same_text(&l, "php") {
        "php"
    } else if same_text(&l, "dart") {
        "dart"
    } else if same_text(&l, "xml") {
        "xml"
    } else {
        "plain text"
    }
}

/// A block of some kind with its content.
pub open spec fn block_json(kind: Seq<char>, content: JsonView) -> JsonView {
    obj3("object"@, JsonView::Text("block"@), "type"@, JsonView::Text(kind), kind, content)
}

/// A block of some kind that holds rich text and nothing else.
pub open spec fn text_block(kind: Seq<char>, text: Seq<char>) -> JsonView {
    block_json(kind, obj1("rich_text"@, rich_of(text)))
}

/// A block of some kind that shows what an address leads to.
pub open spec fn media_block(kind: Seq<char>, url: Seq<char>) -> JsonView {
    block_json(
        kind,
        obj2(
            "type"@,
            JsonView::Text("external"@),
            "external"@,
            obj1("url"@, JsonView::Text(url)),
        ),
    )
}

/// The note that stands for media that others cannot reach.
pub open spec fn media_note(kind: Seq<char>, label: Seq<char>, url: Seq<char>) -> Seq<char> {
    if is_blank(label) {
        kind + "未上传："@ + url
    } else {
        kind + "未上传："@ + trim_of(label) + "（"@ + url + "）"@
    }
}

/// The number of the heading kind for a level; there are three of them.
pub open spec fn heading_kind(level: u8) -> Seq<char> {
    "heading_"@ + decimal(
        if level < 1 {
            1
        } else if level > 3 {
            3
        } else {
            level as nat
        },
    )
}

/// The width of the widest row, and at least one.
pub open spec fn widest(rows: Seq<Seq<Seq<char>>>) -> int
    decreases rows.len(),
{
    if rows.len() == 0 {
        1
    } else {
        max_of(widest(rows.drop_last()), rows.last().len() as int)
    }
}

/// A row of some width.
pub open spec fn padded(cells: Seq<Seq<char>>, width: int) -> Seq<Seq<char>> {
    Seq::new(
        width as nat,
        |k: int|
            if k < cells.len() {
                cells[k]
            } else {
                Seq::empty()
            },
    )
}

/// A row of a table.
pub open spec fn row_json(cells: Seq<Seq<char>>) -> JsonView {
    block_json(
        "table_row"@,
        obj1("cells"@, JsonView::Array(cells.map_values(|cell: Seq<char>| rich_of(cell)))),
    )
}

/// The rows of a table, all of one width.
pub open spec fn rows_json(rows: Seq<Seq<Seq<char>>>, width: int) -> Seq<JsonView> {
    rows.map_values(|row: Seq<Seq<char>>| row_json(padded(row, width)))
}

/// A table; its first row has the headers.
pub open spec fn table_json(rows: Seq<Seq<Seq<char>>>) -> JsonView {
    with_member(
        block_json(
            "table"@,
            obj3(
                "table_width"@,
                JsonView::Number(widest(rows) as nat),
                "has_column_header"@,
                JsonView::Bool(true),
                "has_row_header"@,
                JsonView::Bool(false),
            ),
        ),
        "children"@,
        JsonView::Array(rows_json(rows, widest(rows))),
    )
}

/// A block of a document as a block of Notion.
pub open spec fn notion_block(block: BlockView) -> JsonView {
    match block {
        BlockView::Heading { level, text } => text_block(heading_kind(level), text),
        BlockView::Paragraph(text) => text_block("paragraph"@, text),
        BlockView::Bullet { text, depth } => text_block("bulleted_list_item"@, text),
        BlockView::Numbered { marker, text, depth } => text_block("numbered_list_item"@, text),
        BlockView::Task { checked, text, depth } => block_json(
            "to_do"@,
            obj2("rich_text"@, rich_of(text), "checked"@, JsonView::Bool(checked)),
        ),
        BlockView::Quote(text) => text_block("quote"@, text),
        BlockView::Aside(text) => block_json(
            "callout"@,
            obj2(
                "rich_text"@,
                rich_of(text),
                "icon"@,
                obj2("type"@, JsonView::Text("emoji"@), "emoji"@, JsonView::Text("💡"@)),
            ),
        ),
        BlockView::Code { text, language } => block_json(
            "code"@,
            obj2(
                "rich_text"@,
                plain_rich_of(text),
                "language"@,
                JsonView::Text(language_of(language)),
            ),
        ),
        BlockView::Image { alt, url } => if is_public(url) {
            media_block("image"@, url)
        } else {
            text_block("paragraph"@, media_note("图片"@, alt, url))
        },
        BlockView::Video { url } => if is_public(url) {
            media_block("video"@, url)
        } else {
            text_block("paragraph"@, media_note("视频"@, Seq::empty(), url))
        },
        BlockView::Table { headers, rows } => table_json(seq![headers] + rows),
        BlockView::Divider => block_json("divider"@, obj0()),
        BlockView::Html(text) => text_block("paragraph"@, text),
    }
}

pub open spec fn notion_children(blocks: Seq<BlockView>) -> Seq<JsonView> {
    blocks.map_values(|block: BlockView| notion_block(block))
}

fn block_value(kind: &str, content: Json) -> (r: Json)
    ensures
        json(r) == block_json(kind@, json(content)),
{
    object3("object", text_value("block"), "type", text_value(kind), kind, content)
}

fn text_block_value(kind: &str, text: &str) -> (r: Json)
    ensures
        json(r) == text_block(kind@, text@),
{
    block_value(kind, object1("rich_text", rich_text(text)))
}

fn media_block_value(kind: &str, url: &str) -> (r: Json)
    ensures
        json(r) == media_block(kind@, url@),
{
    block_value(
        kind,
        object2(
            "type",
            text_value("external"),
            "external",
            object1("url", text_value(url)),
        ),
    )
}

fn non_public_media_note(kind: &str, label: &str, url: &str) -> (r: Json)
    ensures
        json(r) == text_block("paragraph"@, media_note(kind@, label@, url@)),
{
    let text = if blank(label) {
        concat3(kind, "未上传：", url)
    } else {
        let mut text = concat3(kind, "未上传：", &trim(label));
        push_text(&mut text, "（");
        push_text(&mut text, url);
        push_text(&mut text, "）");
        text
    };
    text_block_value("paragraph", &text)
}

/// A row of some width: cells are added or cut off at its end.
pub fn pad_table_cells(cells: &Vec<String>, width: usize) -> (r: Vec<String>)
    ensures
        strs(r@) == padded(strs(cells@), width as int),
{
    let ghost all = strs(cells@);
    let mut out: Vec<String> = Vec::new();
    let mut i: usize = 0;
    while i < width
        invariant
            i <= width,
            all == strs(cells@),
            strs(out@) == padded(all, width as int).take(i as int),
        decreases width - i,
    {
        let cell = if i < cells.len() {
            cells[i].clone()
        } else {
            String::new()
        };
        proof {
            assert(cell@ =~= padded(all, width as int)[i as int]);
            crate::lines::lemma_strs_push(out@, cell);
            assert(padded(all, width as int).take(i + 1) =~= padded(all, width as int).take(
                i as int,
            ).push(cell@));
        }
        out.push(cell);
        i = i + 1;
    }
    assert(strs(out@) =~= padded(all, width as int));
    out
}

fn notion_table_row(cells: &Vec<String>) -> (r: Json)
    ensures
        json(r) == row_json(strs(cells@)),
{
    let ghost wanted = strs(cells@).map_values(|cell: Seq<char>| rich_of(cell));
    let mut out: Vec<Json> = Vec::new();
    let mut i: usize = 0;
    while i < cells.len()
        invariant
            i <= cells.len(),
            wanted == strs(cells@).map_values(|cell: Seq<char>| rich_of(cell)),
            jsons(out@) == wanted.take(i as int),
        decreases cells.len() - i,
    {
        let cell = rich_text(&cells[i]);
        proof {
            lemma_jsons_push(out@, cell);
            assert(strs(cells@)[i as int] == cells@[i as int]@);
            assert(wanted.take(i + 1) =~= wanted.take(i as int).push(json(cell)));
        }
        out.push(cell);
        i = i + 1;
    }
    assert(wanted.take(i as int) =~= wanted);
    block_value("table_row", object1("cells", Json::Array(out)))
}

fn table_value(headers: &Vec<String>, rows: &Vec<Vec<String>>) -> (r: Json)
    ensures
        json(r) == table_json(seq![strs(headers@)] + rows_view(rows@)),
{
    let ghost all = seq![strs(headers@)] + rows_view(rows@);
    let mut width: usize = if headers.len() >= 1 {
        headers.len()
    } else {
        1
    };
    let mut i: usize = 0;
    proof {
        reveal_with_fuel(widest, 2);
        assert(all.take(1) =~= seq![strs(headers@)]);
        assert(all.take(1).drop_last() =~= Seq::empty());
    }
    while i < rows.len()
        invariant
            i <= rows.len(),
            all == seq![strs(headers@)] + rows_view(rows@),
            width == widest(all.take(i + 1)),
        decreases rows.len() - i,
    {
        assert(all.take(i + 2).drop_last() =~= all.take(i + 1));
        assert(all.take(i + 2).last() == strs(rows@[i as int]@));
        if rows[i].len() > width {
            width = rows[i].len();
        }
        i = i + 1;
    }
    assert(all.take(i + 1) =~= all);
    let ghost wanted = rows_json(all, width as int);
    let mut children: Vec<Json> = Vec::new();
    let first = notion_table_row(&pad_table_cells(headers, width));
    proof {
        lemma_jsons_push(children@, first);
        assert(wanted[0] == json(first));
        assert(wanted.take(1) =~= seq![json(first)]);
        assert(jsons(children@.push(first)) =~= seq![json(first)]);
    }
    children.push(first);
    let mut k: usize = 0;
    while k < rows.len()
        invariant
            k <= rows.len(),
            all == seq![strs(headers@)] + rows_view(rows@),
            wanted == rows_json(all, width as int),
            jsons(children@) == wanted.take(k + 1),
        decreases rows.len() - k,
    {
        let row = notion_table_row(&pad_table_cells(&rows[k], width));
        proof {
            lemma_jsons_push(children@, row);
            assert(all[k + 1] == strs(rows@[k as int]@));
            assert(wanted[k + 1] == json(row));
            assert(wanted.take(k + 2) =~= wanted.take(k + 1).push(json(row)));
        }
        children.push(row);
        k = k + 1;
    }
    assert(wanted.take(k + 1) =~= wanted);
    let table = object3(
        "table_width",
        Json::Number(width as u64),
        "has_column_header",
        Json::Bool(true),
        "has_row_header",
        Json::Bool(false),
    );
    add_member(block_value("table", table), "children", Json::Array(children))
}

fn str_of(o: &Option<String>) -> (r: Option<&str>)
    ensures
        opt_text(*o) == match r {
            Some(s) => Some(s@),
            None => None,
        },
{
    match o {
        Some(s) => Some(s.as_str()),
        None => None,
    }
}

/// A block of a document as a block of Notion.
pub fn block_to_notion(block: &Block) -> (r: Json)
    ensures
        json(r) == notion_block(block@),
{
    match block {
        Block::Heading { level, text } => {
            let number: u64 = if *level < 1 {
                1
            } else if *level > 3 {
                3
            } else {
                *level as u64
            };
            let kind = concat2("heading_", &to_decimal(number));
            text_block_value(&kind, text)
        },
        Block::Paragraph(text) => text_block_value("paragraph", text),
        Block::Bullet { text, depth } => text_block_value("bulleted_list_item", text),
        Block::Numbered { marker, text, depth } => text_block_value("numbered_list_item", text),
        Block::Task { checked, text, depth } => block_value(
            "to_do",
            object2("rich_text", rich_text(text), "checked", Json::Bool(*checked)),
        ),
        Block::Quote(text) => text_block_value("quote", text),
        Block::Aside(text) => block_value(
            "callout",
            object2(
                "rich_text",
                rich_text(text),
                "icon",
                object2("type", text_value("emoji"), "emoji", text_value("💡")),
            ),
        ),
        Block::Code { text, language } => block_value(
            "code",
            object2(
                "rich_text",
                plain_rich_text(text),
                "language",
                text_value(notion_code_language(str_of(language))),
            ),
        ),
        Block::Image { alt, url } => if is_public_url(url) {
            media_block_value("image", url)
        } else {
            non_public_media_note("图片", alt, url)
        },
        Block::Video { url } => if is_public_url(url) {
            media_block_value("video", url)
        } else {
            proof {
                reveal_strlit("");
                assert(""@ =~= Seq::empty());
            }
            non_public_media_note("视频", "", url)
        },
        Block::Table { headers, rows } => table_value(headers, rows),
        Block::Divider => block_value("divider", object0()),
        Block::Html(text) => text_block_value("paragraph", text),
    }
}

fn blocks_to_notion(blocks: &Vec<Block>) -> (r: Vec<Json>)
    ensures
        jsons(r@) == notion_children(blocks_view(blocks@)),
{
    let ghost wanted = notion_children(blocks_view(blocks@));
    let mut out: Vec<Json> = Vec::new();
    let mut i: usize = 0;
    while i < blocks.len()
        invariant
            i <= blocks.len(),
            wanted == notion_children(blocks_view(blocks@)),
            jsons(out@) == wanted.take(i as int),
        decreases blocks.len() - i,
    {
        let block = block_to_notion(&blocks[i]);
        proof {
            lemma_jsons_push(out@, block);
            assert(wanted[i as int] == json(block));
            assert(wanted.take(i + 1) =~= wanted.take(i as int).push(json(block)));
        }
        out.push(block);
        i = i + 1;
    }
    assert(wanted.take(i as int) =~= wanted);
    out
}

/// Notion takes no more blocks than this at once.
pub open spec fn too_many(blocks: Seq<BlockView>) -> bool {
    blocks.len() > 100
}

/// Blocks as blocks of Notion, or the message where there are more than it takes at once.
pub open spec fn export_of(blocks: Seq<BlockView>) -> Result<Seq<JsonView>, Seq<char>> {
    if too_many(blocks) {
        Err("Notion 单次发布最多支持 100 个区块，请拆分文章"@)
    } else {
        Ok(notion_children(blocks))
    }
}

/// An article as blocks of Notion, or the message where there are more than it takes at once.
pub open spec fn article_export(markdown: Seq<char>) -> Result<Seq<JsonView>, Seq<char>> {
    export_of(document_blocks(markdown))
}

/// The blocks of a document as blocks of Notion, if there are not more than it takes at once.
pub fn notion_blocks_of(blocks: &Vec<Block>) -> (r: Result<Vec<Json>, String>)
    ensures
        match r {
            Ok(children) => export_of(blocks_view(blocks@)) == Ok::<Seq<JsonView>, Seq<char>>(
                jsons(children@),
            ),
            Err(e) => export_of(blocks_view(blocks@)) == Err::<Seq<JsonView>, Seq<char>>(e@),
        },
{
    if blocks.len() > 100 {
        return Err("Notion 单次发布最多支持 100 个区块，请拆分文章".to_owned());
    }
    Ok(blocks_to_notion(blocks))
}

/// An article as blocks of Notion, if there are not more than it takes at once.
pub fn notion_blocks(markdown: &str) -> (r: Result<Vec<Json>, String>)
    ensures
        match r {
            Ok(children) => article_export(markdown@) == Ok::<Seq<JsonView>, Seq<char>>(
                jsons(children@),
            ),
            Err(e) => article_export(markdown@) == Err::<Seq<JsonView>, Seq<char>>(e@),
        },
{
    notion_blocks_of(&parse_blocks(markdown))
}

// ---------------------------------------------------------------------------
// Targets
// ---------------------------------------------------------------------------

/// A page or a database that articles go to.
#[derive(Clone, Debug, PartialEq, Eq)]
pub struct NotionTarget {
    pub id: String,
    pub database_hint: bool,
}

/// The characters of an address before its query and its fragment.
pub open spec fn path_chars() -> spec_fn(char) -> bool {
    |c: char| c != '?' && c != '#'
}

/// The query of an address: what follows the first question mark.
pub open spec fn query_of(input: Seq<char>) -> Seq<char> {
    match find_from(input, "?"@, 0) {
        Some(i) => input.skip(i + 1),
        None => Seq::empty(),
    }
}

/// The parameter names a view, as the address of a database does.
pub open spec fn names_view(parameter: Seq<char>) -> bool {
    parameter == "v"@ || has_prefix(parameter, "v="@)
}

/// The query has a parameter that names a view.
pub open spec fn has_view(parameters: Seq<Seq<char>>) -> bool {
    exists|k: int| 0 <= k < parameters.len() && names_view(#[trigger] parameters[k])
}

/// The path of an address, without slashes at its end.
pub open spec fn path_of(input: Seq<char>) -> Seq<char> {
    let path = input.take(run(input, path_chars()) as int);
    path.take(path.len() - run_back(path, only('/')))
}

/// The identifier that an address ends in.
pub open spec fn target_id(input: Seq<char>) -> Seq<char> {
    fields(path_of(trim_of(input)), '/').last()
}

fn any_view(parameters: &Vec<String>) -> (r: bool)
    ensures
        r == has_view(strs(parameters@)),
{
    let mut i: usize = 0;
    while i < parameters.len()
        invariant
            i <= parameters.len(),
            forall|k: int| 0 <= k < i ==> !names_view(#[trigger] strs(parameters@)[k]),
        decreases parameters.len() - i,
    {
        assert(strs(parameters@)[i as int] == parameters@[i as int]@);
        if same_text(&parameters[i], "v") || starts_with(&chars_of(&parameters[i]), "v=") {
            return true;
        }
        i = i + 1;
    }
    false
}

impl NotionTarget {
    /// The page or the database that an address or an identifier names.
    pub fn parse(input: &str) -> (r: NotionTarget)
        ensures
            r.id@ == target_id(input@),
            r.database_hint == has_view(fields(query_of(trim_of(input@)), '&')),
    {
        proof {
            reveal_strlit("?");
        }
        let input = trim(input);
        let cs = chars_of(&input);
        let query = match find(&cs, "?") {
            Some(i) => slice_of(&cs, i + 1, cs.len()),
            None => String::new(),
        };
        proof {
            assert(query@ =~= query_of(input@));
        }
        let database_hint = any_view(&split_fields(&query, '&'));
        let mut n: usize = 0;
        while n < cs.len() && cs[n] != '?' && cs[n] != '#'
            invariant
                n <= cs.len(),
                forall|k: int| 0 <= k < n ==> path_chars()(#[trigger] cs@[k]),
            decreases cs.len() - n,
        {
            n = n + 1;
        }
        proof {
            lemma_run_is(cs@, path_chars(), n as int);
        }
        let back: usize = char_run_back(&cs, n, '/');
        let path = slice_of(&cs, 0, n - back);
        assert(path@ =~= path_of(input@));
        let mut parts = split_fields(&path, '/');
        proof {
            lemma_fields_nonempty(path@, '/');
        }
        let last: usize = parts.len() - 1;
        assert(strs(parts@)[last as int] == parts@[last as int]@);
        let id = parts.remove(last);
        NotionTarget { id, database_hint }
    }
}

// ---------------------------------------------------------------------------
// Requests
// ---------------------------------------------------------------------------

/// The title of a page, as a property.
pub open spec fn title_json(title: Seq<char>) -> JsonView {
    obj2(
        "type"@,
        JsonView::Text("title"@),
        "title"@,
        JsonView::Array(
            seq![
                obj2(
                    "type"@,
                    JsonView::Text("text"@),
                    "text"@,
                    obj1("content"@, JsonView::Text(title)),
                ),
            ],
        ),
    )
}

/// A new page.
pub open spec fn page_json(
    parent: JsonView,
    title_property: Seq<char>,
    title: Seq<char>,
    children: Seq<JsonView>,
) -> JsonView {
    obj3(
        "parent"@,
        parent,
        "properties"@,
        obj1(title_property, title_json(title)),
        "children"@,
        JsonView::Array(children),
    )
}

/// A new page: where it goes, its title under the name of the title property, and its blocks.
pub fn notion_page_payload(parent: Json, title_property: &str, title: &str, children: Vec<Json>) -> (r:
    Json)
    ensures
        json(r) == page_json(json(parent), title_property@, title@, jsons(children@)),
{
    let text = object2(
        "type",
        text_value("text"),
        "text",
        object1("content", text_value(title)),
    );
    let mut texts: Vec<Json> = Vec::new();
    proof {
        lemma_jsons_push(texts@, text);
        assert(jsons(texts@.push(text)) =~= seq![json(text)]);
    }
    texts.push(text);
    let property = object2("type", text_value("title"), "title", Json::Array(texts));
    object3(
        "parent",
        parent,
        "properties",
        object1(title_property, property),
        "children",
        Json::Array(children),
    )
}

/// The header lines of every request to Notion.
pub open spec fn notion_headers(token: Seq<char>) -> Seq<(Seq<char>, Seq<char>)> {
    seq![
        ("Authorization"@, "Bearer "@ + token),
        ("Notion-Version"@, "2026-03-11"@),
        ("Content-Type"@, "application/json"@),
    ]
}

/// A request that asks Notion for something.
pub open spec fn get_request(token: Seq<char>, uri: Seq<char>) -> RequestView {
    RequestView {
        method: HttpMethod::Get,
        uri,
        headers: notion_headers(token),
        body: BodyView::Empty,
    }
}

/// A request that makes a page.
pub open spec fn page_request(token: Seq<char>, payload: JsonView) -> RequestView {
    RequestView {
        method: HttpMethod::Post,
        uri: "https://api.notion.com/v1/pages"@,
        headers: notion_headers(token),
        body: BodyView::Json(payload),
    }
}

/// A request to Notion.
pub fn notion_request(token: &str, method: HttpMethod, uri: String, payload: Option<Json>) -> (r:
    HttpRequest)
    ensures
        r@.method == method,
        r@.uri == uri@,
        r@.headers == notion_headers(token@),
        r@.body == match payload {
            Some(value) => BodyView::Json(json(value)),
            None => BodyView::Empty,
        },
{
    let mut headers: Vec<Header> = Vec::new();
    headers.push(header("Authorization", &concat2("Bearer ", token)));
    headers.push(header("Notion-Version", "2026-03-11"));
    headers.push(header("Content-Type", "application/json"));
    assert(headers_view(headers@) =~= notion_headers(token@));
    let body = match payload {
        Some(value) => RequestBody::Json(value),
        None => RequestBody::Empty,
    };
    HttpRequest { method, uri, headers, body }
}

// ---------------------------------------------------------------------------
// Replies
// ---------------------------------------------------------------------------

/// The page that was made.
#[derive(Clone, Debug, PartialEq, Eq)]
pub struct NotionPublishResult {
    pub id: String,
    pub url: String,
}

/// A message about a reply that refuses a request.
pub open spec fn http_message(what: Seq<char>, status: u16, body: Seq<u8>) -> Seq<char> {
    what + " HTTP "@ + decimal(status as nat) + ": "@ + first_chars(lossy_text(body), 500)
}

fn http_error(what: &str, status: u16, body: &[u8]) -> (r: String)
    ensures
        r@ == http_message(what@, status, body@),
{
    let mut out = concat3(what, " HTTP ", &to_decimal(status as u64));
    push_text(&mut out, ": ");
    push_text(&mut out, &response_text(body));
    out
}

/// The page that a reply speaks of: its identifier and its address, or a message where one of them
/// is missing or the reply is not JSON.
pub open spec fn page_of(
    fault: Option<Seq<char>>,
    id: Option<Seq<char>>,
    url: Option<Seq<char>>,
) -> Result<(Seq<char>, Seq<char>), Seq<char>> {
    match (fault, id, url) {
        (Some(e), _, _) => Err(e),
        (None, None, _) => Err("Notion returned success without a page ID"@),
        (None, Some(id), Some(url)) => if is_blank(url) {
            Err("Notion returned success without a page URL"@)
        } else {
            Ok((id, url))
        },
        (None, Some(id), None) => Err("Notion returned success without a page URL"@),
    }
}

/// The page that a reply speaks of, from what was found in it.
pub fn notion_page_of(fault: Option<String>, id: Option<String>, url: Option<String>) -> (r: Result<
    NotionPublishResult,
    String,
>)
    ensures
        match r {
            Ok(page) => page_of(opt_text(fault), opt_text(id), opt_text(url)) == Ok::<
                (Seq<char>, Seq<char>),
                Seq<char>,
            >((page.id@, page.url@)),
            Err(e) => page_of(opt_text(fault), opt_text(id), opt_text(url)) == Err::<
                (Seq<char>, Seq<char>),
                Seq<char>,
            >(e@),
        },
{
    if let Some(e) = fault {
        return Err(e);
    }
    let id = match id {
        Some(id) => id,
        None => {
            return Err("Notion returned success without a page ID".to_owned());
        },
    };
    match url {
        Some(url) => if blank(&url) {
            Err("Notion returned success without a page URL".to_owned())
        } else {
            Ok(NotionPublishResult { id, url })
        },
        None => Err("Notion returned success without a page URL".to_owned()),
    }
}

/// What the reply to the request for a new page says.
pub open spec fn page_reply(status: u16, body: Seq<u8>) -> Result<
    (Seq<char>, Seq<char>),
    Seq<char>,
> {
    if is_success(status) {
        page_of(json_fault(body), json_text_at(body, "/id"@), json_text_at(body, "/url"@))
    } else {
        Err(http_message("Notion returned"@, status, body))
    }
}

/// What the reply to the request for a new page says.
pub fn parse_notion_page_id(status: u16, body: &[u8]) -> (r: Result<NotionPublishResult, String>)
    ensures
        match r {
            Ok(page) => page_reply(status, body@) == Ok::<(Seq<char>, Seq<char>), Seq<char>>(
                (page.id@, page.url@),
            ),
            Err(e) => page_reply(status, body@) == Err::<(Seq<char>, Seq<char>), Seq<char>>(e@),
        },
{
    if !status_is_success(status) {
        return Err(http_error("Notion returned", status, body));
    }
    notion_page_of(json_error(body), json_str(body, "/id"), json_str(body, "/url"))
}

/// The views of a row of optional texts.
pub open spec fn opt_texts(v: Seq<Option<String>>) -> Seq<Option<Seq<char>>> {
    v.map_values(|o: Option<String>| opt_text(o))
}

/// The first text among some that may be missing.
pub open spec fn first_text(ids: Seq<Option<Seq<char>>>) -> Option<Seq<char>>
    decreases ids.len(),
{
    if ids.len() == 0 {
        None
    } else {
        match ids[0] {
            Some(id) => Some(id),
            None => first_text(ids.skip(1)),
        }
    }
}

/// The first data source of a database, from the identifiers of its data sources.
pub open spec fn source_of(fault: Option<Seq<char>>, ids: Option<Seq<Option<Seq<char>>>>) -> Result<
    Seq<char>,
    Seq<char>,
> {
    match fault {
        Some(e) => Err(e),
        None => match ids {
            Some(ids) => match first_text(ids) {
                Some(id) => Ok(id),
                None => Err("Notion database has no available data source"@),
            },
            None => Err("Notion database has no available data source"@),
        },
    }
}

/// The first data source of a database, from the identifiers of its data sources.
pub fn data_source_of(fault: Option<String>, ids: Option<Vec<Option<String>>>) -> (r: Result<
    String,
    String,
>)
    ensures
        ({
            let found = source_of(
                opt_text(fault),
                match ids {
                    Some(v) => Some(opt_texts(v@)),
                    None => None,
                },
            );
            match r {
                Ok(id) => found == Ok::<Seq<char>, Seq<char>>(id@),
                Err(e) => found == Err::<Seq<char>, Seq<char>>(e@),
            }
        }),
{
    if let Some(e) = fault {
        return Err(e);
    }
    if let Some(v) = ids {
        let ghost all = opt_texts(v@);
        let mut i: usize = 0;
        assert(all.skip(0) =~= all);
        while i < v.len()
            invariant
                fault is None,
                ids == Some(v),
                i <= v.len(),
                all == opt_texts(v@),
                first_text(all) == first_text(all.skip(i as int)),
            decreases v.len() - i,
        {
            assert(all.skip(i as int)[0] == opt_text(v@[i as int]));
            assert(all.skip(i as int).skip(1) =~= all.skip(i + 1));
            if let Some(id) = &v[i] {
                return Ok(id.clone());
            }
            i = i + 1;
        }
    }
    Err("Notion database has no available data source".to_owned())
}

/// The place of the identifier of a data source in a reply.
pub open spec fn source_pointer(k: int) -> Seq<char> {
    "/data_sources/"@ + decimal(k as nat) + "/id"@
}

/// The identifiers of the data sources in a reply.
pub open spec fn source_ids(body: Seq<u8>) -> Option<Seq<Option<Seq<char>>>> {
    match json_len_at(body, "/data_sources"@) {
        Some(n) => Some(Seq::new(n, |k: int| json_text_at(body, source_pointer(k)))),
        None => None,
    }
}

fn read_source_ids(body: &[u8]) -> (r: Option<Vec<Option<String>>>)
    ensures
        source_ids(body@) == match r {
            Some(v) => Some(opt_texts(v@)),
            None => None,
        },
{
    match json_array_len(body, "/data_sources") {
        Some(n) => {
            let ghost wanted = Seq::new(n as nat, |k: int| json_text_at(body@, source_pointer(k)));
            let mut v: Vec<Option<String>> = Vec::new();
            let mut i: usize = 0;
            while i < n
                invariant
                    i <= n,
                    wanted == Seq::new(n as nat, |k: int| json_text_at(body@, source_pointer(k))),
                    opt_texts(v@) == wanted.take(i as int),
                decreases n - i,
            {
                let pointer = concat3("/data_sources/", &to_decimal(i as u64), "/id");
                let id = json_str(body, &pointer);
                assert(opt_texts(v@.push(id)) =~= opt_texts(v@).push(opt_text(id)));
                assert(wanted.take(i + 1) =~= wanted.take(i as int).push(opt_text(id)));
                v.push(id);
                i = i + 1;
            }
            assert(wanted.take(i as int) =~= wanted);
            Some(v)
        },
        None => None,
    }
}

/// The first name whose flag is set.
pub open spec fn first_flagged(names: Seq<Seq<char>>, flags: Seq<bool>) -> Option<Seq<char>>
    decreases names.len(),
{
    if names.len() == 0 || flags.len() == 0 {
        None
    } else if flags[0] {
        Some(names[0])
    } else {
        first_flagged(names.skip(1), flags.skip(1))
    }
}

/// The name of the title property, from the names of the properties and whether each is a title.
pub open spec fn title_property_in(
    fault: Option<Seq<char>>,
    names: Option<Seq<Seq<char>>>,
    flags: Seq<bool>,
) -> Result<Seq<char>, Seq<char>> {
    match fault {
        Some(e) => Err(e),
        None => match names {
            Some(names) => match first_flagged(names, flags) {
                Some(name) => Ok(name),
                None => Err("Notion data source has no title property"@),
            },
            None => Err("Notion data source has no title property"@),
        },
    }
}

/// The name of the title property, from the names of the properties and whether each is a title.
pub fn title_property_of(fault: Option<String>, names: Option<Vec<String>>, flags: &Vec<bool>) -> (r:
    Result<String, String>)
    ensures
        ({
            let found = title_property_in(
                opt_text(fault),
                match names {
                    Some(v) => Some(strs(v@)),
                    None => None,
                },
                flags@,
            );
            match r {
                Ok(name) => found == Ok::<Seq<char>, Seq<char>>(name@),
                Err(e) => found == Err::<Seq<char>, Seq<char>>(e@),
            }
        }),
{
    if let Some(e) = fault {
        return Err(e);
    }
    if let Some(v) = names {
        let ghost all = strs(v@);
        let mut i: usize = 0;
        assert(all.skip(0) =~= all);
        assert(flags@.skip(0) =~= flags@);
        while i < v.len() && i < flags.len()
            invariant
                fault is None,
                names == Some(v),
                i <= v.len(),
                i <= flags.len(),
                all == strs(v@),
                first_flagged(all, flags@) == first_flagged(
                    all.skip(i as int),
                    flags@.skip(i as int),
                ),
            decreases v.len() - i,
        {
            assert(all.skip(i as int)[0] == v@[i as int]@);
            assert(all.skip(i as int).skip(1) =~= all.skip(i + 1));
            assert(flags@.skip(i as int).skip(1) =~= flags@.skip(i + 1));
            if flags[i] {
                return Ok(v[i].clone());
            }
            i = i + 1;
        }
    }
    Err("Notion data source has no title property".to_owned())
}

/// The place of a property in a reply.
pub open spec fn property_pointer(name: Seq<char>) -> Seq<char> {
    "/properties/"@ + pointer_token(name)
}

/// The property of this name is a title: its type says so, or it holds a title.
pub open spec fn is_title_property(body: Seq<u8>, name: Seq<char>) -> bool {
    json_text_at(body, property_pointer(name) + "/type"@) == Some("title"@) || json_has_at(
        body,
        property_pointer(name) + "/title"@,
    )
}

/// Which of some properties are titles.
pub open spec fn title_flags(body: Seq<u8>, names: Seq<Seq<char>>) -> Seq<bool> {
    names.map_values(|name: Seq<char>| is_title_property(body, name))
}

/// The name of the title property in a reply.
pub open spec fn title_property_reply(body: Seq<u8>) -> Result<Seq<char>, Seq<char>> {
    let names = json_keys_at(body, "/properties"@);
    title_property_in(
        json_fault(body),
        names,
        match names {
            Some(names) => title_flags(body, names),
            None => Seq::empty(),
        },
    )
}

fn read_title_flags(body: &[u8], names: &Vec<String>) -> (r: Vec<bool>)
    ensures
        r@ == title_flags(body@, strs(names@)),
{
    let ghost wanted = title_flags(body@, strs(names@));
    let mut out: Vec<bool> = Vec::new();
    let mut i: usize = 0;
    while i < names.len()
        invariant
            i <= names.len(),
            wanted == title_flags(body@, strs(names@)),
            out@ == wanted.take(i as int),
        decreases names.len() - i,
    {
        assert(strs(names@)[i as int] == names@[i as int]@);
        let base = concat2("/properties/", &escape_pointer(&names[i]));
        let typed = match json_str(body, &concat2(&base, "/type")) {
            Some(kind) => same_text(&kind, "title"),
            None => false,
        };
        let flag = typed || json_has(body, &concat2(&base, "/title"));
        assert(wanted.take(i + 1) =~= wanted.take(i as int).push(flag));
        out.push(flag);
        i = i + 1;
    }
    assert(wanted.take(i as int) =~= wanted);
    out
}

fn read_title_property(body: &[u8]) -> (r: Result<String, String>)
    ensures
        match r {
            Ok(name) => title_property_reply(body@) == Ok::<Seq<char>, Seq<char>>(name@),
            Err(e) => title_property_reply(body@) == Err::<Seq<char>, Seq<char>>(e@),
        },
{
    let fault = json_error(body);
    let names = json_object_keys(body, "/properties");
    let flags = match &names {
        Some(v) => read_title_flags(body, v),
        None => Vec::new(),
    };
    assert(names is None ==> flags@ =~= Seq::empty());
    title_property_of(fault, names, &flags)
}

/// The name of the account that a reply speaks of.
pub open spec fn account_of(
    fault: Option<Seq<char>>,
    name: Option<Seq<char>>,
    owner: Option<Seq<char>>,
) -> Result<Seq<char>, Seq<char>> {
    match (fault, name, owner) {
        (Some(e), _, _) => Err(e),
        (None, Some(name), _) => Ok(name),
        (None, None, Some(owner)) => Ok(owner),
        (None, None, None) => Ok("Notion"@),
    }
}

/// The name of the account that a reply speaks of, from what was found in it.
pub fn notion_account_of(fault: Option<String>, name: Option<String>, owner: Option<String>) -> (r:
    Result<String, String>)
    ensures
        match r {
            Ok(name0) => account_of(opt_text(fault), opt_text(name), opt_text(owner)) == Ok::<
                Seq<char>,
                Seq<char>,
            >(name0@),
            Err(e) => account_of(opt_text(fault), opt_text(name), opt_text(owner)) == Err::<
                Seq<char>,
                Seq<char>,
            >(e@),
        },
{
    match (fault, name, owner) {
        (Some(e), _, _) => Err(e),
        (None, Some(name), _) => Ok(name),
        (None, None, Some(owner)) => Ok(owner),
        (None, None, None) => Ok("Notion".to_owned()),
    }
}

/// The request that asks for the account.
pub open spec fn account_request(token: Seq<char>) -> RequestView {
    get_request(token, "https://api.notion.com/v1/users/me"@)
}

/// What the reply to the test of a connection says.
pub open spec fn account_reply(status: u16, body: Seq<u8>) -> Result<Seq<char>, Seq<char>> {
    if is_success(status) {
        account_of(
            json_fault(body),
            json_text_at(body, "/name"@),
            json_text_at(body, "/bot/owner/user/name"@),
        )
    } else {
        Err(http_message("Notion test"@, status, body))
    }
}

/// The request that tests a connection.
pub fn notion_test_request(config: &NotionConfig) -> (r: HttpRequest)
    ensures
        r@ == account_request(config.token@),
{
    notion_request(
        &config.token,
        HttpMethod::Get,
        "https://api.notion.com/v1/users/me".to_owned(),
        None,
    )
}

/// What the reply to the test of a connection says: the name of the account.
pub fn notion_test_reply(status: u16, body: &[u8]) -> (r: Result<String, String>)
    ensures
        match r {
            Ok(name) => account_reply(status, body@) == Ok::<Seq<char>, Seq<char>>(name@),
            Err(e) => account_reply(status, body@) == Err::<Seq<char>, Seq<char>>(e@),
        },
{
    if !status_is_success(status) {
        return Err(http_error("Notion test", status, body));
    }
    notion_account_of(
        json_error(body),
        json_str(body, "/name"),
        json_str(body, "/bot/owner/user/name"),
    )
}

// ---------------------------------------------------------------------------
// The course of a publication
// ---------------------------------------------------------------------------

/// What a publication waits for.
#[derive(Clone, Debug, PartialEq, Eq)]
pub enum NotionStage {
    /// The reply to the request for a page below the target, taken for a page.
    Page,
    /// The reply to the request for the target, taken for a database.
    Database,
    /// The reply to the request for the target, taken for a data source.
    DataSource { database_status: u16, database_text: String },
    /// The reply to the request for the properties of a data source.
    TitleProperty { data_source: String },
    /// The reply to the request for a page in a data source.
    Row,
    /// Nothing.
    Finished,
}

/// A publication under way.
#[derive(Clone, Debug, PartialEq, Eq)]
pub struct NotionPublish {
    pub token: String,
    pub target: String,
    pub title: String,
    pub markdown: String,
    /// The target was looked for as a page, and not found.
    pub page_missing: bool,
    pub stage: NotionStage,
}

/// What is to be done next.
#[derive(Debug)]
pub enum NotionStep {
    Send(HttpRequest),
    Done(NotionPublishResult),
    Failed(String),
}

/// The mathematical model of what a publication waits for.
pub ghost enum StageView {
    Page,
    Database,
    DataSource { database_status: u16, database_text: Seq<char> },
    TitleProperty { data_source: Seq<char> },
    Row,
    Finished,
}

/// The mathematical model of a publication.
pub ghost struct PublishView {
    pub token: Seq<char>,
    pub target: Seq<char>,
    pub title: Seq<char>,
    pub markdown: Seq<char>,
    pub page_missing: bool,
    pub stage: StageView,
}

/// The mathematical model of what is to be done next.
pub ghost enum StepView {
    Send(RequestView),
    Done(Seq<char>, Seq<char>),
    Failed(Seq<char>),
}

impl View for NotionStage {
    type V = StageView;

    open spec fn view(&self) -> StageView {
        match *self {
            NotionStage::Page => StageView::Page,
            NotionStage::Database => StageView::Database,
            NotionStage::DataSource { database_status, database_text } => StageView::DataSource {
                database_status,
                database_text: database_text@,
            },
            NotionStage::TitleProperty { data_source } => StageView::TitleProperty {
                data_source: data_source@,
            },
            NotionStage::Row => StageView::Row,
            NotionStage::Finished => StageView::Finished,
        }
    }
}

impl View for NotionPublish {
    type V = PublishView;

    open spec fn view(&self) -> PublishView {
        PublishView {
            token: self.token@,
            target: self.target@,
            title: self.title@,
            markdown: self.markdown@,
            page_missing: self.page_missing,
            stage: self.stage@,
        }
    }
}

impl View for NotionStep {
    type V = StepView;

    open spec fn view(&self) -> StepView {
        match *self {
            NotionStep::Send(request) => StepView::Send(request@),
            NotionStep::Done(page) => StepView::Done(page.id@, page.url@),
            NotionStep::Failed(message) => StepView::Failed(message@),
        }
    }
}

/// The request for a page below another page.
pub open spec fn child_page_request(p: PublishView) -> RequestView {
    page_request(
        p.token,
        page_json(
            obj1("page_id"@, JsonView::Text(p.target)),
            "title"@,
            p.title,
            notion_children(document_blocks(p.markdown)),
        ),
    )
}

/// The request for a page in a data source.
pub open spec fn row_request(p: PublishView, data_source: Seq<char>, property: Seq<char>) -> RequestView {
    page_request(
        p.token,
        page_json(
            obj1("data_source_id"@, JsonView::Text(data_source)),
            property,
            p.title,
            notion_children(document_blocks(p.markdown)),
        ),
    )
}

pub open spec fn database_request(p: PublishView) -> RequestView {
    get_request(p.token, "https://api.notion.com/v1/databases/"@ + p.target)
}

pub open spec fn data_source_request(p: PublishView, id: Seq<char>) -> RequestView {
    get_request(p.token, "https://api.notion.com/v1/data_sources/"@ + id)
}

/// The publication at another stage.
pub open spec fn at_stage(p: PublishView, stage: StageView) -> PublishView {
    PublishView { stage, ..p }
}

/// The end of a publication that failed. Where the target was looked for as a page first, the message
/// says so.
pub open spec fn failed(p: PublishView, message: Seq<char>) -> (PublishView, StepView) {
    let whole = if p.page_missing {
        "Notion returned HTTP 404: the parent page was not found; database/data-source fallback also failed: "@
            + message
    } else {
        message
    };
    (at_stage(p, StageView::Finished), StepView::Failed(whole))
}

/// The end of a publication, as the reply to the request for the page says.
pub open spec fn ended(p: PublishView, page: Result<(Seq<char>, Seq<char>), Seq<char>>) -> (
    PublishView,
    StepView,
) {
    match page {
        Ok((id, url)) => (at_stage(p, StageView::Finished), StepView::Done(id, url)),
        Err(e) => failed(p, e),
    }
}

/// What a publication does with the reply that it waits for.
pub open spec fn after_reply(p: PublishView, status: u16, body: Seq<u8>) -> (PublishView, StepView) {
    match p.stage {
        StageView::Page => if is_success(status) || status != 404 {
            ended(p, page_reply(status, body))
        } else {
            (
                PublishView { page_missing: true, stage: StageView::Database, ..p },
                StepView::Send(database_request(p)),
            )
        },
        StageView::Database => if is_success(status) {
            match source_of(json_fault(body), source_ids(body)) {
                Ok(id) => (
                    at_stage(p, StageView::TitleProperty { data_source: id }),
                    StepView::Send(data_source_request(p, id)),
                ),
                Err(e) => failed(p, e),
            }
        } else if status != 404 {
            failed(p, http_message("Notion database lookup returned"@, status, body))
        } else {
            (
                at_stage(
                    p,
                    StageView::DataSource {
                        database_status: status,
                        database_text: first_chars(lossy_text(body), 500),
                    },
                ),
                StepView::Send(data_source_request(p, p.target)),
            )
        },
        StageView::DataSource { database_status, database_text } => if is_success(status) {
            (
                at_stage(p, StageView::TitleProperty { data_source: p.target }),
                StepView::Send(data_source_request(p, p.target)),
            )
        } else {
            failed(
                p,
                "database HTTP "@ + decimal(database_status as nat) + ": "@ + database_text
                    + http_message("; data source"@, status, body),
            )
        },
        StageView::TitleProperty { data_source } => if is_success(status) {
            match title_property_reply(body) {
                Ok(property) => (
                    at_stage(p, StageView::Row),
                    StepView::Send(row_request(p, data_source, property)),
                ),
                Err(e) => failed(p, e),
            }
        } else {
            failed(p, http_message("Notion data-source lookup returned"@, status, body))
        },
        StageView::Row => ended(p, page_reply(status, body)),
        StageView::Finished => (p, StepView::Failed(Seq::empty())),
    }
}

/// What a publication does with what came of its request.
pub open spec fn next_step(p: PublishView, reply: HttpReply) -> (PublishView, StepView) {
    match reply {
        HttpReply::Response { status, body } => after_reply(p, status, body@),
        HttpReply::Failure(message) => failed(p, message@),
    }
}

/// How a publication starts.
pub open spec fn first_step(
    token: Seq<char>,
    parent: Seq<char>,
    title: Seq<char>,
    markdown: Seq<char>,
) -> Result<(PublishView, RequestView), Seq<char>> {
    let id = target_id(parent);
    let database = has_view(fields(query_of(trim_of(parent)), '&'));
    let p = PublishView {
        token,
        target: id,
        title,
        markdown,
        page_missing: false,
        stage: if database {
            StageView::Database
        } else {
            StageView::Page
        },
    };
    if id.len() == 0 {
        Err("Notion parent page or database ID is empty"@)
    } else if too_many(document_blocks(markdown)) {
        Err("Notion 单次发布最多支持 100 个区块，请拆分文章"@)
    } else if database {
        Ok((p, database_request(p)))
    } else {
        Ok((p, child_page_request(p)))
    }
}

impl NotionPublish {
    /// Starts the publication of an article: what it is and the request to send first, or the message
    /// for a target or an article that cannot be published.
    pub fn start(config: &NotionConfig, title: &str, markdown: &str) -> (r: Result<
        (NotionPublish, HttpRequest),
        String,
    >)
        ensures
            match r {
                Ok(begun) => first_step(
                    config.token@,
                    config.parent_page_id@,
                    title@,
                    markdown@,
                ) == Ok::<(PublishView, RequestView), Seq<char>>((begun.0@, begun.1@)),
                Err(e) => first_step(
                    config.token@,
                    config.parent_page_id@,
                    title@,
                    markdown@,
                ) == Err::<(PublishView, RequestView), Seq<char>>(e@),
            },
    {
        let target = NotionTarget::parse(&config.parent_page_id);
        if chars_of(&target.id).len() == 0 {
            return Err("Notion parent page or database ID is empty".to_owned());
        }
        let children = match notion_blocks(markdown) {
            Ok(children) => children,
            Err(e) => {
                return Err(e);
            },
        };
        let stage = if target.database_hint {
            NotionStage::Database
        } else {
            NotionStage::Page
        };
        let publish = NotionPublish {
            token: config.token.clone(),
            target: target.id,
            title: title.to_owned(),
            markdown: markdown.to_owned(),
            page_missing: false,
            stage,
        };
        let request = if target.database_hint {
            publish.ask_database()
        } else {
            let parent = object1("page_id", text_value(&publish.target));
            let payload = notion_page_payload(parent, "title", title, children);
            notion_request(
                &publish.token,
                HttpMethod::Post,
                "https://api.notion.com/v1/pages".to_owned(),
                Some(payload),
            )
        };
        Ok((publish, request))
    }

    fn ask_database(&self) -> (r: HttpRequest)
        ensures
            r@ == database_request(self@),
    {
        notion_request(
            &self.token,
            HttpMethod::Get,
            concat2("https://api.notion.com/v1/databases/", &self.target),
            None,
        )
    }

    fn ask_data_source(&self, id: &str) -> (r: HttpRequest)
        ensures
            r@ == data_source_request(self@, id@),
    {
        notion_request(
            &self.token,
            HttpMethod::Get,
            concat2("https://api.notion.com/v1/data_sources/", id),
            None,
        )
    }

    fn make_row(&self, data_source: &str, property: &str) -> (r: HttpRequest)
        ensures
            r@ == row_request(self@, data_source@, property@),
    {
        let children = blocks_to_notion(&parse_blocks(&self.markdown));
        let parent = object1("data_source_id", text_value(data_source));
        let payload = notion_page_payload(parent, property, &self.title, children);
        notion_request(
            &self.token,
            HttpMethod::Post,
            "https://api.notion.com/v1/pages".to_owned(),
            Some(payload),
        )
    }

    fn fail(&mut self, message: String) -> (r: NotionStep)
        ensures
            (final(self)@, r@) == failed(old(self)@, message@),
    {
        self.stage = NotionStage::Finished;
        if self.page_missing {
            NotionStep::Failed(
                concat2(
                    "Notion returned HTTP 404: the parent page was not found; database/data-source fallback also failed: ",
                    &message,
                ),
            )
        } else {
            NotionStep::Failed(message)
        }
    }

    fn end(&mut self, status: u16, body: &[u8]) -> (r: NotionStep)
        ensures
            (final(self)@, r@) == ended(old(self)@, page_reply(status, body@)),
    {
        match parse_notion_page_id(status, body) {
            Ok(page) => {
                self.stage = NotionStage::Finished;
                NotionStep::Done(page)
            },
            Err(e) => self.fail(e),
        }
    }

    fn take_page(&mut self, status: u16, body: &[u8]) -> (r: NotionStep)
        requires
            old(self)@.stage is Page,
        ensures
            (final(self)@, r@) == after_reply(old(self)@, status, body@),
    {
        if status_is_success(status) || status != 404 {
            return self.end(status, body);
        }
        let request = self.ask_database();
        self.page_missing = true;
        self.stage = NotionStage::Database;
        NotionStep::Send(request)
    }

    fn take_database(&mut self, status: u16, body: &[u8]) -> (r: NotionStep)
        requires
            old(self)@.stage is Database,
        ensures
            (final(self)@, r@) == after_reply(old(self)@, status, body@),
    {
        if status_is_success(status) {
            return match data_source_of(json_error(body), read_source_ids(body)) {
                Ok(id) => {
                    let request = self.ask_data_source(&id);
                    self.stage = NotionStage::TitleProperty { data_source: id };
                    NotionStep::Send(request)
                },
                Err(e) => self.fail(e),
            };
        }
        if status != 404 {
            return self.fail(http_error("Notion database lookup returned", status, body));
        }
        let request = self.ask_data_source(&self.target);
        self.stage = NotionStage::DataSource {
            database_status: status,
            database_text: response_text(body),
        };
        NotionStep::Send(request)
    }

    fn take_data_source(&mut self, database_status: u16, database_text: String, status: u16, body: &[u8]) -> (r:
        NotionStep)
        requires
            old(self)@.stage == (StageView::DataSource {
                database_status,
                database_text: database_text@,
            }),
        ensures
            (final(self)@, r@) == after_reply(old(self)@, status, body@),
    {
        if status_is_success(status) {
            let request = self.ask_data_source(&self.target);
            self.stage = NotionStage::TitleProperty { data_source: self.target.clone() };
            return NotionStep::Send(request);
        }
        let mut message = concat3("database HTTP ", &to_decimal(database_status as u64), ": ");
        push_text(&mut message, &database_text);
        push_text(&mut message, &http_error("; data source", status, body));
        self.fail(message)
    }

    fn take_title_property(&mut self, data_source: String, status: u16, body: &[u8]) -> (r: NotionStep)
        requires
            old(self)@.stage == (StageView::TitleProperty { data_source: data_source@ }),
        ensures
            (final(self)@, r@) == after_reply(old(self)@, status, body@),
    {
        if !status_is_success(status) {
            return self.fail(http_error("Notion data-source lookup returned", status, body));
        }
        match read_title_property(body) {
            Ok(property) => {
                let request = self.make_row(&data_source, &property);
                self.stage = NotionStage::Row;
                NotionStep::Send(request)
            },
            Err(e) => self.fail(e),
        }
    }

    /// Takes what came of the request that was sent last, and says what is to be done next.
    pub fn resume(&mut self, reply: HttpReply) -> (r: NotionStep)
        requires
            !(old(self)@.stage is Finished),
        ensures
            (final(self)@, r@) == next_step(old(self)@, reply),
    {
        match reply {
            HttpReply::Failure(message) => self.fail(message),
            HttpReply::Response { status, body } => {
                match &self.stage {
                    NotionStage::Page => self.take_page(status, body.as_slice()),
                    NotionStage::Database => self.take_database(status, body.as_slice()),
                    NotionStage::DataSource { database_status, database_text } => {
                        let database_status: u16 = *database_status;
                        let database_text = database_text.clone();
                        self.take_data_source(
                            database_status,
                            database_text,
                            status,
                            body.as_slice(),
                        )
                    },
                    NotionStage::TitleProperty { data_source } => {
                        let data_source = data_source.clone();
                        self.take_title_property(data_source, status, body.as_slice())
                    },
                    NotionStage::Row => self.end(status, body.as_slice()),
                    NotionStage::Finished => NotionStep::Failed(String::new()),
                }
            },
        }
    }
}

} // verus!
