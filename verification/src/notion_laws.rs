//! What an article becomes in Notion, and what its publication asks for.

use vstd::prelude::*;

use crate::http::{HttpMethod, HttpReply, RequestView};
use crate::json::JsonView;
use crate::lines::{fields, lemma_fields_concat, lemma_fields_single};
use crate::markdown::{document_blocks, inline_pieces, BlockView, InlineStyle, PieceView};
use crate::notion::{
    account_of, after_reply, annotations_of, article_export, chunks_of, export_of, first_flagged,
    first_step, first_text, has_view, http_message, language_of, next_step, notion_block,
    notion_children, notion_headers, padded, page_of, page_reply, page_request, path_chars,
    path_of, plain_rich_of, query_of, rich_chunk, rich_chunks, rich_of, rich_pieces, row_json,
    source_ids, source_of, target_id, title_property_in, title_property_reply, widest, PublishView,
    StageView, StepView,
};
use crate::number::decimal;
use crate::publishing::{is_public, is_success};
use crate::reply::json_fault;
use crate::text::{
    ascii_lower, find_from, first_chars, has_prefix, is_blank, lemma_find_is, lemma_run_back_is,
    lemma_run_is, only, trim_of,
};

verus! {

// ---------------------------------------------------------------------------
// Rich text
// ---------------------------------------------------------------------------

/// What an object has under a key.
pub open spec fn member(value: JsonView, key: Seq<char>) -> Option<JsonView> {
    match value {
        JsonView::Object(members) => if members.dom().contains(key) {
            Some(members[key])
        } else {
            None
        },
        _ => None,
    }
}

/// The object has these keys and no others.
pub open spec fn has_keys(value: JsonView, keys: Set<Seq<char>>) -> bool {
    value is Object && forall|key: Seq<char>|
        #[trigger] member(value, key) is Some <==> keys.contains(key)
}

/// The object names the styles, and nothing else.
pub open spec fn names_styles(value: JsonView, styles: Seq<InlineStyle>) -> bool {
    let yes = Some(JsonView::Bool(true));
    &&& value is Object
    &&& member(value, "bold"@) == if styles.contains(InlineStyle::Bold) {
        yes
    } else {
        None
    }
    &&& member(value, "italic"@) == if styles.contains(InlineStyle::Italic) {
        yes
    } else {
        None
    }
    &&& member(value, "strikethrough"@) == if styles.contains(InlineStyle::Strike) {
        yes
    } else {
        None
    }
    &&& member(value, "code"@) == if styles.contains(InlineStyle::Code) {
        yes
    } else {
        None
    }
    &&& forall|key: Seq<char>|
        #[trigger] member(value, key) is Some ==> key == "bold"@ || key == "italic"@ || key
            == "strikethrough"@ || key == "code"@
}

proof fn lemma_style_names()
    ensures
        "bold"@ != "italic"@,
        "bold"@ != "strikethrough"@,
        "bold"@ != "code"@,
        "italic"@ != "strikethrough"@,
        "italic"@ != "code"@,
        "strikethrough"@ != "code"@,
{
    reveal_strlit("bold");
    reveal_strlit("italic");
    reveal_strlit("strikethrough");
    reveal_strlit("code");
    assert("bold"@.len() == 4 && "italic"@.len() == 6 && "strikethrough"@.len() == 13);
    assert("bold"@[0] == 'b' && "code"@[0] == 'c');
}

/// The annotations of a text name its styles, each by its name in Notion.
pub proof fn law_annotations(styles: Seq<InlineStyle>)
    ensures
        names_styles(annotations_of(styles), styles),
    decreases styles.len(),
{
    lemma_style_names();
    if styles.len() > 0 {
        let before = styles.drop_last();
        let last = styles.last();
        law_annotations(before);
        let a = annotations_of(before);
        let b = annotations_of(styles);
        assert(styles =~= before.push(last));
        assert forall|style: InlineStyle|
            #[trigger] styles.contains(style) == (before.contains(style) || style == last) by {
            if before.contains(style) {
                let k = choose|k: int| 0 <= k < before.len() && before[k] == style;
                assert(styles[k] == style);
            }
            if style == last {
                assert(styles[styles.len() - 1] == style);
            }
            if styles.contains(style) && style != last {
                let k = choose|k: int| 0 <= k < styles.len() && styles[k] == style;
                assert(before[k] == style);
            }
        }
        assert forall|key: Seq<char>| #[trigger] member(b, key) is Some implies key == "bold"@ || key
            == "italic"@ || key == "strikethrough"@ || key == "code"@ by {
            assert(member(a, key) is Some || key == crate::notion::annotation_of(last));
        }
    }
}

proof fn lemma_rich_keys()
    ensures
        "type"@ != "text"@,
        "type"@ != "annotations"@,
        "text"@ != "annotations"@,
        "content"@ != "link"@,
{
    reveal_strlit("type");
    reveal_strlit("text");
    reveal_strlit("annotations");
    reveal_strlit("content");
    reveal_strlit("link");
    assert("type"@[1] == 'y' && "text"@[1] == 'e');
    assert("annotations"@.len() == 11 && "type"@.len() == 4 && "text"@.len() == 4);
    assert("content"@.len() == 7 && "link"@.len() == 4);
}

/// The value is a part of a rich text with this content, these styles and this link: nothing of them
/// is lost, and there is nothing else.
pub open spec fn is_rich_part(
    value: JsonView,
    content: Seq<char>,
    styles: Seq<InlineStyle>,
    link: Option<Seq<char>>,
) -> bool {
    let text = member(value, "text"@).unwrap();
    &&& member(value, "type"@) == Some(JsonView::Text("text"@))
    &&& member(value, "text"@) is Some
    &&& member(text, "content"@) == Some(JsonView::Text(content))
    &&& match link {
        Some(url) => member(text, "link"@) is Some && member(
            member(text, "link"@).unwrap(),
            "url"@,
        ) == Some(JsonView::Text(url)),
        None => member(text, "link"@) is None,
    }
    &&& if styles.len() == 0 {
        member(value, "annotations"@) is None
    } else {
        member(value, "annotations"@) is Some && names_styles(
            member(value, "annotations"@).unwrap(),
            styles,
        )
    }
}

/// A part of a rich text has its content, its link and its styles under the keys of Notion.
pub proof fn law_rich_part(content: Seq<char>, styles: Seq<InlineStyle>, link: Option<Seq<char>>)
    ensures
        is_rich_part(rich_chunk(content, styles, link), content, styles, link),
{
    lemma_rich_keys();
    law_annotations(styles);
}

proof fn lemma_rich_concat(a: Seq<PieceView>, b: Seq<PieceView>)
    ensures
        rich_pieces(a + b) == rich_pieces(a) + rich_pieces(b),
    decreases b.len(),
{
    if b.len() == 0 {
        assert(a + b =~= a);
        assert(rich_pieces(a) + Seq::empty() =~= rich_pieces(a));
    } else {
        lemma_rich_concat(a, b.drop_last());
        assert((a + b).drop_last() =~= a + b.drop_last());
        let last = b.last();
        let own = rich_chunks(chunks_of(last.text), last.styles, last.link);
        assert(rich_pieces(a) + rich_pieces(b.drop_last()) + own =~= rich_pieces(a) + (rich_pieces(
            b.drop_last(),
        ) + own));
    }
}

/// The rich text of pieces has the parts of each piece, in order. A piece that is not too long is
/// one part, with its text, its styles and its link.
pub proof fn law_rich_text_in_order(a: Seq<PieceView>, piece: PieceView, b: Seq<PieceView>)
    requires
        0 < piece.text.len() <= 2000,
    ensures
        ({
            let all = rich_pieces(a + seq![piece] + b);
            let n = rich_pieces(a).len() as int;
            &&& all.len() == n + 1 + rich_pieces(b).len()
            &&& all.take(n) == rich_pieces(a)
            &&& is_rich_part(all[n], piece.text, piece.styles, piece.link)
            &&& all.skip(n + 1) == rich_pieces(b)
        }),
{
    let one = seq![piece];
    lemma_rich_concat(a + one, b);
    lemma_rich_concat(a, one);
    assert(one.drop_last() =~= Seq::<PieceView>::empty());
    assert(rich_pieces(Seq::<PieceView>::empty()) == Seq::<JsonView>::empty());
    let own = rich_chunks(chunks_of(piece.text), piece.styles, piece.link);
    assert(rich_pieces(one) == rich_pieces(one.drop_last()) + own);
    assert(rich_pieces(one) =~= seq![rich_chunk(piece.text, piece.styles, piece.link)]);
    law_rich_part(piece.text, piece.styles, piece.link);
    let all = rich_pieces(a + one + b);
    let n = rich_pieces(a).len() as int;
    assert(all.take(n) =~= rich_pieces(a));
    assert(all.skip(n + 1) =~= rich_pieces(b));
}

/// The rich text of a text without markup is the text in parts, without styles and links.
pub proof fn law_plain_rich_text(text: Seq<char>)
    ensures
        plain_rich_of(text) is Array,
        plain_rich_of(text)->Array_0.len() == chunks_of(text).len(),
        forall|k: int|
            0 <= k < chunks_of(text).len() ==> is_rich_part(
                #[trigger] plain_rich_of(text)->Array_0[k],
                chunks_of(text)[k],
                Seq::empty(),
                None,
            ),
        0 < text.len() <= 2000 ==> chunks_of(text) == seq![text],
{
    assert forall|k: int| 0 <= k < chunks_of(text).len() implies is_rich_part(
        #[trigger] plain_rich_of(text)->Array_0[k],
        chunks_of(text)[k],
        Seq::empty(),
        None,
    ) by {
        law_rich_part(chunks_of(text)[k], Seq::empty(), None);
    }
}

// ---------------------------------------------------------------------------
// Blocks
// ---------------------------------------------------------------------------

/// The value is a block of this kind; its content stands under the name of the kind.
pub open spec fn is_block(value: JsonView, kind: Seq<char>) -> bool {
    &&& member(value, "object"@) == Some(JsonView::Text("block"@))
    &&& member(value, "type"@) == Some(JsonView::Text(kind))
    &&& member(value, kind) is Some
}

/// What a block holds under a key of its content.
pub open spec fn content(value: JsonView, kind: Seq<char>, key: Seq<char>) -> Option<JsonView> {
    match member(value, kind) {
        Some(inside) => member(inside, key),
        None => None,
    }
}

/// The value is a block of this kind with the rich text of the text, and with nothing besides it.
pub open spec fn is_text_block(value: JsonView, kind: Seq<char>, text: Seq<char>) -> bool {
    &&& is_block(value, kind)
    &&& content(value, kind, "rich_text"@) == Some(JsonView::Array(rich_pieces(inline_pieces(text))))
    &&& has_keys(member(value, kind).unwrap(), set!["rich_text"@])
}

/// The words for the kinds of blocks, and for their parts, are all different.
proof fn lemma_block_words()
    ensures
        forall|kind: Seq<char>|
            #[trigger] is_kind(kind) ==> kind != "object"@ && kind != "type"@ && kind
                != "children"@,
        "object"@ != "type"@,
        "object"@ != "children"@,
        "type"@ != "children"@,
        "rich_text"@ != "checked"@,
        "rich_text"@ != "icon"@,
        "rich_text"@ != "language"@,
        "type"@ != "external"@,
        "type"@ != "emoji"@,
        "table_width"@ != "has_column_header"@,
        "table_width"@ != "has_row_header"@,
        "has_column_header"@ != "has_row_header"@,
{
    reveal_strlit("object");
    reveal_strlit("type");
    reveal_strlit("children");
    reveal_strlit("rich_text");
    reveal_strlit("checked");
    reveal_strlit("icon");
    reveal_strlit("language");
    reveal_strlit("external");
    reveal_strlit("emoji");
    reveal_strlit("table_width");
    reveal_strlit("has_column_header");
    reveal_strlit("has_row_header");
    reveal_strlit("paragraph");
    reveal_strlit("bulleted_list_item");
    reveal_strlit("numbered_list_item");
    reveal_strlit("to_do");
    reveal_strlit("quote");
    reveal_strlit("callout");
    reveal_strlit("code");
    reveal_strlit("image");
    reveal_strlit("video");
    reveal_strlit("table");
    reveal_strlit("table_row");
    reveal_strlit("divider");
    reveal_strlit("heading_1");
    reveal_strlit("heading_2");
    reveal_strlit("heading_3");
    assert("object"@[0] == 'o' && "type"@[0] == 't' && "type"@[1] == 'y' && "children"@[0] == 'c'
        && "children"@[1] == 'h');
    assert("rich_text"@[0] == 'r' && "checked"@[0] == 'c' && "icon"@[0] == 'i' && "language"@[0]
        == 'l');
    assert("external"@[0] == 'e' && "emoji"@[0] == 'e');
    assert("table_width"@[0] == 't' && "has_column_header"@[4] == 'c' && "has_row_header"@[4]
        == 'r' && "has_column_header"@[0] == 'h' && "has_row_header"@[0] == 'h');
    assert forall|kind: Seq<char>| #[trigger] is_kind(kind) implies kind != "object"@ && kind
        != "type"@ && kind != "children"@ by {
        assert(kind[0] == 'p' || kind[0] == 'b' || kind[0] == 'n' || kind[0] == 't' || kind[0]
            == 'q' || kind[0] == 'c' || kind[0] == 'i' || kind[0] == 'v' || kind[0] == 'd'
            || kind[0] == 'h');
        assert(kind[0] == 't' ==> kind[1] == 'o' || kind[1] == 'a');
        assert(kind[0] == 'c' ==> kind[1] == 'a' || kind[1] == 'o');
    }
}

/// The word is a kind of block in Notion.
pub open spec fn is_kind(kind: Seq<char>) -> bool {
    ||| kind == "paragraph"@
    ||| kind == "bulleted_list_item"@
    ||| kind == "numbered_list_item"@
    ||| kind == "to_do"@
    ||| kind == "quote"@
    ||| kind == "callout"@
    ||| kind == "code"@
    ||| kind == "image"@
    ||| kind == "video"@
    ||| kind == "table"@
    ||| kind == "table_row"@
    ||| kind == "divider"@
    ||| kind == "heading_1"@
    ||| kind == "heading_2"@
    ||| kind == "heading_3"@
}

/// No two of the kinds of blocks that an article is made of have the same name.
pub proof fn law_kinds_differ()
    ensures
        ({
            let kinds = seq![
                "paragraph"@,
                "bulleted_list_item"@,
                "numbered_list_item"@,
                "to_do"@,
                "quote"@,
                "callout"@,
                "code"@,
                "table"@,
                "divider"@,
                "image"@,
                "video"@,
                "heading_1"@,
                "heading_2"@,
                "heading_3"@,
            ];
            kinds.no_duplicates()
        }),
{
    reveal_strlit("paragraph");
    reveal_strlit("bulleted_list_item");
    reveal_strlit("numbered_list_item");
    reveal_strlit("to_do");
    reveal_strlit("quote");
    reveal_strlit("callout");
    reveal_strlit("code");
    reveal_strlit("image");
    reveal_strlit("video");
    reveal_strlit("table");
    reveal_strlit("divider");
    reveal_strlit("heading_1");
    reveal_strlit("heading_2");
    reveal_strlit("heading_3");
    assert("paragraph"@[0] == 'p' && "bulleted_list_item"@[0] == 'b' && "numbered_list_item"@[0]
        == 'n' && "to_do"@[0] == 't' && "to_do"@[1] == 'o' && "quote"@[0] == 'q' && "callout"@[0]
        == 'c' && "callout"@[1] == 'a' && "code"@[0] == 'c' && "code"@[1] == 'o' && "table"@[0]
        == 't' && "table"@[1] == 'a' && "divider"@[0] == 'd' && "image"@[0] == 'i' && "video"@[0]
        == 'v' && "heading_1"@[0] == 'h' && "heading_1"@[8] == '1' && "heading_2"@[0] == 'h'
        && "heading_2"@[8] == '2' && "heading_3"@[0] == 'h' && "heading_3"@[8] == '3');
}

proof fn lemma_text_block(kind: Seq<char>, text: Seq<char>)
    requires
        is_kind(kind),
    ensures
        is_text_block(crate::notion::text_block(kind, text), kind, text),
{
    lemma_block_words();
    let inside = member(crate::notion::text_block(kind, text), kind).unwrap();
    assert forall|key: Seq<char>| #[trigger] member(inside, key) is Some <==> set![
        "rich_text"@
    ].contains(key) by {}
}

/// Every block of an article is published, in order, each as it would be by itself.
pub proof fn law_blocks_published_in_order(blocks: Seq<BlockView>)
    ensures
        notion_children(blocks).len() == blocks.len(),
        forall|k: int|
            0 <= k < blocks.len() ==> #[trigger] notion_children(blocks)[k] == notion_block(
                blocks[k],
            ),
{
}

/// An article of at most a hundred blocks is exported with all of them, in order, and a longer one not
/// at all.
pub proof fn law_export(blocks: Seq<BlockView>, markdown: Seq<char>)
    ensures
        export_of(blocks) is Ok <==> blocks.len() <= 100,
        export_of(blocks) is Ok ==> export_of(blocks)->Ok_0.len() == blocks.len() && forall|k: int|
            0 <= k < blocks.len() ==> #[trigger] export_of(blocks)->Ok_0[k] == notion_block(
                blocks[k],
            ),
        blocks.len() > 100 ==> export_of(blocks)->Err_0
            == "Notion 单次发布最多支持 100 个区块，请拆分文章"@,
        article_export(markdown) == export_of(document_blocks(markdown)),
{
}

/// Paragraphs, items of lists and quotes are published as the blocks of Notion of the same name, with
/// all of their text; HTML is published as a paragraph.
pub proof fn law_text_published(marker: Seq<char>, text: Seq<char>, depth: usize)
    ensures
        is_text_block(notion_block(BlockView::Paragraph(text)), "paragraph"@, text),
        is_text_block(notion_block(BlockView::Html(text)), "paragraph"@, text),
        is_text_block(
            notion_block(BlockView::Bullet { text, depth }),
            "bulleted_list_item"@,
            text,
        ),
        is_text_block(
            notion_block(BlockView::Numbered { marker, text, depth }),
            "numbered_list_item"@,
            text,
        ),
        is_text_block(notion_block(BlockView::Quote(text)), "quote"@, text),
{
    lemma_text_block("paragraph"@, text);
    lemma_text_block("bulleted_list_item"@, text);
    lemma_text_block("numbered_list_item"@, text);
    lemma_text_block("quote"@, text);
}

/// A heading is published as a heading of its level, as far as Notion has it: lower ones are headings
/// of the third level.
pub proof fn law_heading_published(level: u8, text: Seq<char>)
    ensures
        is_text_block(
            notion_block(BlockView::Heading { level, text }),
            if level <= 1 {
                "heading_1"@
            } else if level == 2 {
                "heading_2"@
            } else {
                "heading_3"@
            },
            text,
        ),
{
    reveal_strlit("heading_");
    reveal_strlit("heading_1");
    reveal_strlit("heading_2");
    reveal_strlit("heading_3");
    assert(decimal(1) =~= seq!['1'] && decimal(2) =~= seq!['2'] && decimal(3) =~= seq!['3']);
    assert("heading_"@ + seq!['1'] =~= "heading_1"@);
    assert("heading_"@ + seq!['2'] =~= "heading_2"@);
    assert("heading_"@ + seq!['3'] =~= "heading_3"@);
    lemma_text_block("heading_1"@, text);
    lemma_text_block("heading_2"@, text);
    lemma_text_block("heading_3"@, text);
}

/// A task is published with its text, and ticked exactly where it is done; an aside is published as a
/// callout with its text and a light bulb.
pub proof fn law_tasks_and_asides_published(checked: bool, text: Seq<char>, depth: usize)
    ensures
        ({
            let task = notion_block(BlockView::Task { checked, text, depth });
            let aside = notion_block(BlockView::Aside(text));
            let rich = Some(JsonView::Array(rich_pieces(inline_pieces(text))));
            &&& is_block(task, "to_do"@)
            &&& content(task, "to_do"@, "rich_text"@) == rich
            &&& content(task, "to_do"@, "checked"@) == Some(JsonView::Bool(checked))
            &&& is_block(aside, "callout"@)
            &&& content(aside, "callout"@, "rich_text"@) == rich
            &&& content(aside, "callout"@, "icon"@) is Some
            &&& member(content(aside, "callout"@, "icon"@).unwrap(), "type"@) == Some(
                JsonView::Text("emoji"@),
            )
            &&& member(content(aside, "callout"@, "icon"@).unwrap(), "emoji"@) == Some(
                JsonView::Text("💡"@),
            )
        }),
{
    lemma_block_words();
    assert(is_kind("to_do"@) && is_kind("callout"@));
}

/// Code is published as it is, without markup in it, and under its language; a line across the page is
/// published as a divider.
pub proof fn law_code_published(text: Seq<char>, language: Option<Seq<char>>)
    ensures
        ({
            let code = notion_block(BlockView::Code { text, language });
            &&& is_block(code, "code"@)
            &&& content(code, "code"@, "rich_text"@) == Some(plain_rich_of(text))
            &&& content(code, "code"@, "language"@) == Some(JsonView::Text(language_of(language)))
            &&& is_block(notion_block(BlockView::Divider), "divider"@)
            &&& has_keys(member(notion_block(BlockView::Divider), "divider"@).unwrap(), set![])
        }),
{
    lemma_block_words();
    assert(is_kind("code"@) && is_kind("divider"@));
}

/// The value is a block of this kind that shows what the address leads to.
pub open spec fn is_media_block(value: JsonView, kind: Seq<char>, url: Seq<char>) -> bool {
    let external = content(value, kind, "external"@);
    &&& is_block(value, kind)
    &&& content(value, kind, "type"@) == Some(JsonView::Text("external"@))
    &&& external is Some
    &&& member(external.unwrap(), "url"@) == Some(JsonView::Text(url))
}

/// An image or a video that others can reach is published by its address.
pub proof fn law_media_published(alt: Seq<char>, url: Seq<char>)
    requires
        is_public(url),
    ensures
        is_media_block(notion_block(BlockView::Image { alt, url }), "image"@, url),
        is_media_block(notion_block(BlockView::Video { url }), "video"@, url),
{
    lemma_block_words();
    assert(is_kind("image"@) && is_kind("video"@));
}

/// Of an image or a video that others cannot reach, a paragraph is published that names what it is, its
/// description where it has one, and its address.
pub proof fn law_local_media_noted(alt: Seq<char>, url: Seq<char>)
    requires
        !is_public(url),
    ensures
        is_text_block(
            notion_block(BlockView::Image { alt, url }),
            "paragraph"@,
            if is_blank(alt) {
                "图片未上传："@ + url
            } else {
                "图片未上传："@ + trim_of(alt) + "（"@ + url + "）"@
            },
        ),
        is_text_block(
            notion_block(BlockView::Video { url }),
            "paragraph"@,
            "视频未上传："@ + url,
        ),
{
    reveal_strlit("图片");
    reveal_strlit("视频");
    reveal_strlit("未上传：");
    reveal_strlit("图片未上传：");
    reveal_strlit("视频未上传：");
    assert("图片"@ + "未上传："@ =~= "图片未上传："@);
    assert("视频"@ + "未上传："@ =~= "视频未上传："@);
    lemma_text_block("paragraph"@, crate::notion::media_note("图片"@, alt, url));
    lemma_text_block("paragraph"@, crate::notion::media_note("视频"@, Seq::empty(), url));
}

proof fn lemma_widest(rows: Seq<Seq<Seq<char>>>)
    ensures
        widest(rows) >= 1,
        forall|k: int| 0 <= k < rows.len() ==> (#[trigger] rows[k]).len() <= widest(rows),
        widest(rows) == 1 || exists|k: int|
            0 <= k < rows.len() && (#[trigger] rows[k]).len() == widest(rows),
    decreases rows.len(),
{
    if rows.len() > 0 {
        let short = rows.drop_last();
        lemma_widest(short);
        assert forall|k: int| 0 <= k < rows.len() implies (#[trigger] rows[k]).len() <= widest(
            rows,
        ) by {
            if k < short.len() {
                assert(short[k].len() <= widest(short));
            }
        }
        if widest(rows) != 1 {
            if rows.last().len() == widest(rows) {
                assert(rows[rows.len() - 1].len() == widest(rows));
            } else {
                let k = choose|k: int|
                    0 <= k < short.len() && (#[trigger] short[k]).len() == widest(short);
                assert(rows[k].len() == widest(rows));
            }
        }
    }
}

/// The value is a row of a table with the rich text of the cells, in order, filled up to the width
/// with empty cells.
pub open spec fn is_table_row(value: JsonView, cells: Seq<Seq<char>>, width: int) -> bool {
    let texts = content(value, "table_row"@, "cells"@).unwrap()->Array_0;
    &&& is_block(value, "table_row"@)
    &&& content(value, "table_row"@, "cells"@) is Some
    &&& content(value, "table_row"@, "cells"@).unwrap() is Array
    &&& texts.len() == width
    &&& forall|j: int|
        0 <= j < width ==> #[trigger] texts[j] == rich_of(
            if j < cells.len() {
                cells[j]
            } else {
                Seq::empty()
            },
        )
}

proof fn lemma_table_row(cells: Seq<Seq<char>>, width: int)
    requires
        0 <= width,
    ensures
        is_table_row(row_json(padded(cells, width)), cells, width),
{
    lemma_block_words();
    assert(is_kind("table_row"@));
}

/// A table is published with its headers as the first row and all of its rows behind it, in order.
/// Every row has as many cells as the widest one, and the first row is marked as the headers.
pub proof fn law_table_published(headers: Seq<Seq<char>>, rows: Seq<Seq<Seq<char>>>)
    ensures
        ({
            let value = notion_block(BlockView::Table { headers, rows });
            let width = content(value, "table"@, "table_width"@).unwrap()->Number_0 as int;
            let children = member(value, "children"@).unwrap()->Array_0;
            &&& is_block(value, "table"@)
            &&& content(value, "table"@, "table_width"@) is Some
            &&& content(value, "table"@, "table_width"@).unwrap() is Number
            &&& content(value, "table"@, "has_column_header"@) == Some(JsonView::Bool(true))
            &&& content(value, "table"@, "has_row_header"@) == Some(JsonView::Bool(false))
            &&& headers.len() <= width
            &&& forall|k: int| 0 <= k < rows.len() ==> (#[trigger] rows[k]).len() <= width
            &&& width == 1 || width == headers.len() || exists|k: int|
                0 <= k < rows.len() && (#[trigger] rows[k]).len() == width
            &&& member(value, "children"@) is Some
            &&& member(value, "children"@).unwrap() is Array
            &&& children.len() == rows.len() + 1
            &&& is_table_row(children[0], headers, width)
            &&& forall|k: int|
                0 <= k < rows.len() ==> is_table_row(#[trigger] children[k + 1], rows[k], width)
        }),
{
    lemma_block_words();
    assert(is_kind("table"@));
    let all = seq![headers] + rows;
    let width = widest(all);
    lemma_widest(all);
    assert(all[0] == headers);
    assert forall|k: int| 0 <= k < rows.len() implies (#[trigger] rows[k]).len() <= width by {
        assert(all[k + 1] == rows[k]);
    }
    if width != 1 && width != headers.len() {
        let k = choose|k: int| 0 <= k < all.len() && (#[trigger] all[k]).len() == width;
        assert(rows[k - 1].len() == width);
    }
    let value = notion_block(BlockView::Table { headers, rows });
    let children = member(value, "children"@).unwrap()->Array_0;
    lemma_table_row(headers, width);
    assert forall|k: int| 0 <= k < rows.len() implies is_table_row(
        #[trigger] children[k + 1],
        rows[k],
        width,
    ) by {
        assert(all[k + 1] == rows[k]);
        lemma_table_row(rows[k], width);
    }
}

/// A language is known by its name and by its short names, in capital or small letters; a language
/// that Notion does not know, and none at all, is plain text.
pub proof fn law_languages(name: Seq<char>)
    ensures
        ({
            let l = ascii_lower(name);
            let r = language_of(Some(name));
            &&& l == "javascript"@ || l == "js"@ ==> r == "javascript"@
            &&& l == "typescript"@ || l == "ts"@ ==> r == "typescript"@
            &&& l == "python"@ || l == "py"@ ==> r == "python"@
            &&& l == "rust"@ || l == "rs"@ ==> r == "rust"@
            &&& l == "go"@ || l == "golang"@ ==> r == "go"@
            &&& l == "cpp"@ || l == "c++"@ ==> r == "cpp"@
            &&& l == "yaml"@ || l == "yml"@ ==> r == "yaml"@
            &&& l == "markdown"@ || l == "md"@ ==> r == "markdown"@
            &&& l == "bash"@ || l == "sh"@ || l == "zsh"@ || l == "shell"@ ==> r == "bash"@
            &&& l == "ruby"@ || l == "rb"@ ==> r == "ruby"@
            &&& l == "c"@ || l == "java"@ || l == "json"@ || l == "html"@ || l == "css"@ || l
                == "sql"@ || l == "swift"@ || l == "kotlin"@ || l == "php"@ || l == "dart"@ || l
                == "xml"@ ==> r == l
            &&& r != "plain text"@ ==> r == l || is_short_name(l)
            &&& language_of(None) == "plain text"@
            &&& language_of(Some(name)) == language_of(Some(l))
        }),
{
    lemma_lower_twice(name);
    reveal_strlit("js");
    reveal_strlit("javascript");
    reveal_strlit("ts");
    reveal_strlit("typescript");
    reveal_strlit("python");
    reveal_strlit("py");
    reveal_strlit("rust");
    reveal_strlit("rs");
    reveal_strlit("go");
    reveal_strlit("golang");
    reveal_strlit("c");
    reveal_strlit("cpp");
    reveal_strlit("c++");
    reveal_strlit("java");
    reveal_strlit("json");
    reveal_strlit("yaml");
    reveal_strlit("yml");
    reveal_strlit("markdown");
    reveal_strlit("md");
    reveal_strlit("html");
    reveal_strlit("css");
    reveal_strlit("shell");
    reveal_strlit("sh");
    reveal_strlit("bash");
    reveal_strlit("zsh");
    reveal_strlit("sql");
    reveal_strlit("swift");
    reveal_strlit("kotlin");
    reveal_strlit("ruby");
    reveal_strlit("rb");
    reveal_strlit("php");
    reveal_strlit("dart");
    reveal_strlit("xml");
    reveal_strlit("plain text");
    assert("js"@[0] == 'j' && "js"@[1] == 's');
    assert("javascript"@[0] == 'j' && "javascript"@[1] == 'a' && "javascript"@[2] == 'v');
    assert("ts"@[0] == 't' && "ts"@[1] == 's');
    assert("typescript"@[0] == 't' && "typescript"@[1] == 'y' && "typescript"@[2] == 'p');
    assert("python"@[0] == 'p' && "python"@[1] == 'y' && "python"@[2] == 't');
    assert("py"@[0] == 'p' && "py"@[1] == 'y');
    assert("rust"@[0] == 'r' && "rust"@[1] == 'u' && "rust"@[2] == 's');
    assert("rs"@[0] == 'r' && "rs"@[1] == 's');
    assert("go"@[0] == 'g' && "go"@[1] == 'o');
    assert("golang"@[0] == 'g' && "golang"@[1] == 'o' && "golang"@[2] == 'l');
    assert("c"@[0] == 'c');
    assert("cpp"@[0] == 'c' && "cpp"@[1] == 'p' && "cpp"@[2] == 'p');
    assert("c++"@[0] == 'c' && "c++"@[1] == '+' && "c++"@[2] == '+');
    assert("java"@[0] == 'j' && "java"@[1] == 'a' && "java"@[2] == 'v');
    assert("json"@[0] == 'j' && "json"@[1] == 's' && "json"@[2] == 'o');
    assert("yaml"@[0] == 'y' && "yaml"@[1] == 'a' && "yaml"@[2] == 'm');
    assert("yml"@[0] == 'y' && "yml"@[1] == 'm' && "yml"@[2] == 'l');
    assert("markdown"@[0] == 'm' && "markdown"@[1] == 'a' && "markdown"@[2] == 'r');
    assert("md"@[0] == 'm' && "md"@[1] == 'd');
    assert("html"@[0] == 'h' && "html"@[1] == 't' && "html"@[2] == 'm');
    assert("css"@[0] == 'c' && "css"@[1] == 's' && "css"@[2] == 's');
    assert("shell"@[0] == 's' && "shell"@[1] == 'h' && "shell"@[2] == 'e');
    assert("sh"@[0] == 's' && "sh"@[1] == 'h');
    assert("bash"@[0] == 'b' && "bash"@[1] == 'a' && "bash"@[2] == 's');
    assert("zsh"@[0] == 'z' && "zsh"@[1] == 's' && "zsh"@[2] == 'h');
    assert("sql"@[0] == 's' && "sql"@[1] == 'q' && "sql"@[2] == 'l');
    assert("swift"@[0] == 's' && "swift"@[1] == 'w' && "swift"@[2] == 'i');
    assert("kotlin"@[0] == 'k' && "kotlin"@[1] == 'o' && "kotlin"@[2] == 't');
    assert("ruby"@[0] == 'r' && "ruby"@[1] == 'u' && "ruby"@[2] == 'b');
    assert("rb"@[0] == 'r' && "rb"@[1] == 'b');
    assert("php"@[0] == 'p' && "php"@[1] == 'h' && "php"@[2] == 'p');
    assert("dart"@[0] == 'd' && "dart"@[1] == 'a' && "dart"@[2] == 'r');
    assert("xml"@[0] == 'x' && "xml"@[1] == 'm' && "xml"@[2] == 'l');
    assert("plain text"@[0] == 'p' && "plain text"@[1] == 'l');

}

proof fn lemma_lower_twice(name: Seq<char>)
    ensures
        ascii_lower(ascii_lower(name)) == ascii_lower(name),
{
    assert(ascii_lower(ascii_lower(name)) =~= ascii_lower(name));
}

/// A short name of a language that has a longer one.
pub open spec fn is_short_name(l: Seq<char>) -> bool {
    l == "js"@ || l == "ts"@ || l == "py"@ || l == "rs"@ || l == "golang"@ || l == "c++"@ || l
        == "yml"@ || l == "md"@ || l == "sh"@ || l == "zsh"@ || l == "shell"@ || l == "rb"@
}

// ---------------------------------------------------------------------------
// Targets
// ---------------------------------------------------------------------------

/// The text has none of the characters that separate the parts of an address.
pub open spec fn is_bare(id: Seq<char>) -> bool {
    forall|k: int| 0 <= k < id.len() ==> id[k] != '/' && id[k] != '?' && id[k] != '#'
}

/// The text has neither a query nor a fragment.
pub open spec fn is_path(path: Seq<char>) -> bool {
    forall|k: int| 0 <= k < path.len() ==> path[k] != '?' && path[k] != '#'
}

/// The text is made of nothing but slashes.
pub open spec fn is_slashes(s: Seq<char>) -> bool {
    forall|k: int| 0 <= k < s.len() ==> s[k] == '/'
}

/// The text is the query or the fragment of an address, or nothing.
pub open spec fn is_tail(s: Seq<char>) -> bool {
    s.len() == 0 || s[0] == '?' || s[0] == '#'
}

/// The page or database that an address names is the last part of its path, whatever comes before it,
/// and whatever slashes, query and fragment come behind it.
pub proof fn law_target_of_address(
    before: Seq<char>,
    id: Seq<char>,
    slashes: Seq<char>,
    behind: Seq<char>,
)
    requires
        is_path(before),
        is_bare(id),
        id.len() > 0,
        is_slashes(slashes),
        is_tail(behind),
        ({
            let whole = before + seq!['/'] + id + slashes + behind;
            trim_of(whole) == whole
        }),
    ensures
        target_id(before + seq!['/'] + id + slashes + behind) == id,
{
    let name = before + seq!['/'] + id;
    let path = name + slashes;
    let whole = path + behind;
    assert(whole =~= before + seq!['/'] + id + slashes + behind);
    let n = path.len() as int;
    assert forall|k: int| 0 <= k < n implies path_chars()(#[trigger] whole[k]) by {
        if k < before.len() {
            assert(whole[k] == before[k]);
        } else if k == before.len() {
            assert(whole[k] == '/');
        } else if k < name.len() {
            assert(whole[k] == id[k - before.len() - 1]);
        } else {
            assert(whole[k] == slashes[k - name.len()]);
        }
    }
    if behind.len() > 0 {
        assert(whole[n] == behind[0]);
    }
    lemma_run_is(whole, path_chars(), n);
    assert(whole.take(n) =~= path);
    assert forall|k: int| path.len() - slashes.len() <= k < path.len() implies only('/')(
        #[trigger] path[k],
    ) by {
        assert(path[k] == slashes[k - name.len()]);
    }
    assert(path[path.len() - slashes.len() - 1] == id.last());
    lemma_run_back_is(path, only('/'), slashes.len() as int);
    assert(path_of(whole) =~= name);
    lemma_fields_concat(before, id, '/');
    lemma_fields_single(id, '/');
    assert(fields(name, '/').last() == id);
}

/// An identifier alone names itself.
pub proof fn law_target_of_identifier(id: Seq<char>)
    requires
        is_bare(id),
        trim_of(id) == id,
    ensures
        target_id(id) == id,
        !has_view(fields(query_of(trim_of(id)), '&')),
{
    let n = id.len() as int;
    assert forall|k: int| 0 <= k < n implies path_chars()(#[trigger] id[k]) by {}
    lemma_run_is(id, path_chars(), n);
    assert(id.take(n) =~= id);
    if n > 0 {
        assert(!only('/')(id[n - 1]));
    }
    lemma_run_back_is(id, only('/'), 0);
    assert(id.take(n - 0) =~= id);
    lemma_fields_single(id, '/');
    law_query(id, Seq::empty());
    reveal_strlit("v");
    reveal_strlit("v=");
    lemma_fields_single(Seq::empty(), '&');
    let none = fields(Seq::empty(), '&');
    assert(none.len() == 1 && none[0] == Seq::<char>::empty());
}

/// The query of an address is what follows its first question mark.
pub proof fn law_query(path: Seq<char>, query: Seq<char>)
    requires
        forall|k: int| 0 <= k < path.len() ==> path[k] != '?',
    ensures
        query_of(path + seq!['?'] + query) == query,
        query_of(path) == Seq::<char>::empty(),
{
    reveal_strlit("?");
    let whole = path + seq!['?'] + query;
    let n = path.len() as int;
    assert("?"@ =~= seq!['?']);
    assert forall|k: int| 0 <= k < n implies !crate::text::matches_at(whole, k, "?"@) by {
        if crate::text::matches_at(whole, k, "?"@) {
            assert(whole.subrange(k, k + 1)[0] == path[k]);
        }
    }
    assert(whole.subrange(n, n + 1) =~= "?"@);
    lemma_find_is(whole, "?"@, 0, n);
    assert(whole.skip(n + 1) =~= query);
    crate::text::lemma_find_from(path, "?"@, 0);
    if let Some(i) = find_from(path, "?"@, 0) {
        assert(path.subrange(i, i + 1)[0] == path[i]);
    }
}

/// A query names a view, and so a database, just where one of its parameters is a view.
pub proof fn law_view_among_parameters(a: Seq<char>, b: Seq<char>)
    ensures
        has_view(fields(a + seq!['&'] + b, '&')) == (has_view(fields(a, '&')) || has_view(
            fields(b, '&'),
        )),
        (forall|k: int| 0 <= k < a.len() ==> a[k] != '&') ==> has_view(fields(a, '&')) == (a
            == seq!['v'] || (a.len() >= 2 && a[0] == 'v' && a[1] == '=')),
{
    reveal_strlit("v");
    reveal_strlit("v=");
    let fa = fields(a, '&');
    let fb = fields(b, '&');
    lemma_fields_concat(a, b, '&');
    let all = fa + fb;
    if has_view(all) {
        let k = choose|k: int| 0 <= k < all.len() && crate::notion::names_view(#[trigger] all[k]);
        if k < fa.len() {
            assert(crate::notion::names_view(fa[k]));
        } else {
            assert(crate::notion::names_view(fb[k - fa.len()]));
        }
    }
    if has_view(fa) {
        let k = choose|k: int| 0 <= k < fa.len() && crate::notion::names_view(#[trigger] fa[k]);
        assert(crate::notion::names_view(all[k]));
    }
    if has_view(fb) {
        let k = choose|k: int| 0 <= k < fb.len() && crate::notion::names_view(#[trigger] fb[k]);
        assert(crate::notion::names_view(all[k + fa.len()]));
    }
    if forall|k: int| 0 <= k < a.len() ==> a[k] != '&' {
        lemma_fields_single(a, '&');
        assert(fa[0] == a);
        assert("v"@ =~= seq!['v']);
        if a.len() >= 2 && a[0] == 'v' && a[1] == '=' {
            assert(a.take(2) =~= "v="@);
            assert(crate::notion::names_view(fa[0]));
        }
        if has_prefix(a, "v="@) {
            assert(a.take(2)[0] == a[0] && a.take(2)[1] == a[1]);
        }
        if a == seq!['v'] {
            assert(crate::notion::names_view(fa[0]));
        }
    }
}

// ---------------------------------------------------------------------------
// Requests
// ---------------------------------------------------------------------------

/// The request is signed with the token, and speaks the version of the interface and the format that
/// the replies are read by.
pub open spec fn is_signed(request: RequestView, token: Seq<char>) -> bool {
    &&& request.headers.contains(("Authorization"@, "Bearer "@ + token))
    &&& request.headers.contains(("Notion-Version"@, "2026-03-11"@))
    &&& request.headers.contains(("Content-Type"@, "application/json"@))
    &&& request.headers.len() == 3
}

proof fn lemma_signed(token: Seq<char>)
    ensures
        forall|request: RequestView|
            request.headers == notion_headers(token) ==> #[trigger] is_signed(request, token),
{
    let headers = notion_headers(token);
    assert(headers[0] == ("Authorization"@, "Bearer "@ + token));
    assert(headers[1] == ("Notion-Version"@, "2026-03-11"@));
    assert(headers[2] == ("Content-Type"@, "application/json"@));
}

/// The request asks for what is at the address, and carries nothing.
pub open spec fn asks_for(request: RequestView, token: Seq<char>, uri: Seq<char>) -> bool {
    &&& request.method == HttpMethod::Get
    &&& request.uri == uri
    &&& request.body is Empty
    &&& is_signed(request, token)
}

/// The value is the title of a page.
pub open spec fn is_title(value: JsonView, title: Seq<char>) -> bool {
    let texts = member(value, "title"@).unwrap()->Array_0;
    &&& member(value, "type"@) == Some(JsonView::Text("title"@))
    &&& member(value, "title"@) is Some
    &&& member(value, "title"@).unwrap() is Array
    &&& texts.len() == 1
    &&& is_rich_part(texts[0], title, Seq::empty(), None)
}

/// The request makes a page: below the parent that stands under the key, with the title in the
/// property, and with all blocks of the article in order.
pub open spec fn makes_page(
    request: RequestView,
    token: Seq<char>,
    parent_key: Seq<char>,
    parent: Seq<char>,
    property: Seq<char>,
    title: Seq<char>,
    markdown: Seq<char>,
) -> bool {
    let page = request.body->Json_0;
    &&& request.method == HttpMethod::Post
    &&& request.uri == "https://api.notion.com/v1/pages"@
    &&& is_signed(request, token)
    &&& request.body is Json
    &&& member(page, "parent"@) is Some
    &&& has_keys(member(page, "parent"@).unwrap(), set![parent_key])
    &&& member(member(page, "parent"@).unwrap(), parent_key) == Some(JsonView::Text(parent))
    &&& member(page, "properties"@) is Some
    &&& has_keys(member(page, "properties"@).unwrap(), set![property])
    &&& is_title(member(member(page, "properties"@).unwrap(), property).unwrap(), title)
    &&& member(page, "children"@) == Some(
        JsonView::Array(notion_children(document_blocks(markdown))),
    )
}

proof fn lemma_page_words()
    ensures
        "parent"@ != "properties"@,
        "parent"@ != "children"@,
        "properties"@ != "children"@,
        "type"@ != "title"@,
{
    reveal_strlit("parent");
    reveal_strlit("properties");
    reveal_strlit("children");
    reveal_strlit("type");
    reveal_strlit("title");
    assert("parent"@[1] == 'a' && "properties"@[1] == 'r' && "children"@[1] == 'h' && "type"@[1]
        == 'y' && "title"@[1] == 'i');
}

proof fn lemma_makes_page(
    token: Seq<char>,
    parent_key: Seq<char>,
    parent: Seq<char>,
    property: Seq<char>,
    title: Seq<char>,
    markdown: Seq<char>,
)
    ensures
        makes_page(
            page_request(
                token,
                crate::notion::page_json(
                    crate::json::obj1(parent_key, JsonView::Text(parent)),
                    property,
                    title,
                    notion_children(document_blocks(markdown)),
                ),
            ),
            token,
            parent_key,
            parent,
            property,
            title,
            markdown,
        ),
{
    lemma_page_words();
    lemma_rich_keys();
    lemma_signed(token);
    let parent_value = crate::json::obj1(parent_key, JsonView::Text(parent));
    let properties = crate::json::obj1(property, crate::notion::title_json(title));
    assert forall|key: Seq<char>| #[trigger] member(parent_value, key) is Some <==> set![
        parent_key
    ].contains(key) by {}
    assert forall|key: Seq<char>| #[trigger] member(properties, key) is Some <==> set![
        property
    ].contains(key) by {}
}

/// Where a publication goes first: to the database that the address shows, or else to the page. There
/// is none without a target, and none of an article with more than a hundred blocks.
pub proof fn law_publication_starts(
    token: Seq<char>,
    parent: Seq<char>,
    title: Seq<char>,
    markdown: Seq<char>,
)
    ensures
        ({
            let id = target_id(parent);
            let database = has_view(fields(query_of(trim_of(parent)), '&'));
            match first_step(token, parent, title, markdown) {
                Ok((p, request)) => {
                    &&& id.len() > 0
                    &&& document_blocks(markdown).len() <= 100
                    &&& p.token == token && p.target == id && p.title == title && p.markdown
                        == markdown && !p.page_missing
                    &&& database ==> p.stage is Database && asks_for(
                        request,
                        token,
                        "https://api.notion.com/v1/databases/"@ + id,
                    )
                    &&& !database ==> p.stage is Page && makes_page(
                        request,
                        token,
                        "page_id"@,
                        id,
                        "title"@,
                        title,
                        markdown,
                    )
                },
                Err(message) => {
                    &&& id.len() == 0 || document_blocks(markdown).len() > 100
                    &&& id.len() == 0 ==> message == "Notion parent page or database ID is empty"@
                    &&& id.len() > 0 ==> message
                        == "Notion 单次发布最多支持 100 个区块，请拆分文章"@
                },
            }
        }),
{
    let id = target_id(parent);
    lemma_makes_page(token, "page_id"@, id, "title"@, title, markdown);
    lemma_signed(token);
}

/// The publication is the same but for its stage.
pub open spec fn only_stage_differs(p: PublishView, q: PublishView) -> bool {
    p.token == q.token && p.target == q.target && p.title == q.title && p.markdown == q.markdown
        && p.page_missing == q.page_missing
}

/// A publication that failed ends with the message; where the page was not found before, the message
/// says so first.
pub open spec fn fails_with(p: PublishView, next: (PublishView, StepView), message: Seq<char>) -> bool {
    &&& only_stage_differs(next.0, p)
    &&& next.0.stage is Finished
    &&& next.1 is Failed
    &&& next.1->Failed_0 == if p.page_missing {
        "Notion returned HTTP 404: the parent page was not found; database/data-source fallback also failed: "@
            + message
    } else {
        message
    }
}

/// A page that was asked for ends the publication: with its identifier and address where the reply has
/// them, and with a message where not.
pub open spec fn ends_with_page(
    p: PublishView,
    next: (PublishView, StepView),
    page: Result<(Seq<char>, Seq<char>), Seq<char>>,
) -> bool {
    match page {
        Ok((id, url)) => only_stage_differs(next.0, p) && next.0.stage is Finished && next.1
            == StepView::Done(id, url),
        Err(message) => fails_with(p, next, message),
    }
}

/// What happens with a reply that tells of the page: it ends the publication, but for a page that is
/// not found, which is looked for among the databases.
pub proof fn law_after_page(p: PublishView, status: u16, body: Seq<u8>)
    requires
        p.stage is Page || p.stage is Row,
    ensures
        ({
            let next = after_reply(p, status, body);
            if p.stage is Page && status == 404 {
                &&& only_stage_differs(next.0, (PublishView { page_missing: true, ..p }))
                &&& next.0.stage is Database
                &&& next.1 is Send
                &&& asks_for(
                    next.1->Send_0,
                    p.token,
                    "https://api.notion.com/v1/databases/"@ + p.target,
                )
            } else {
                ends_with_page(p, next, page_reply(status, body))
            }
        }),
{
    lemma_signed(p.token);
}

/// What happens with a reply that tells of a database: its first data source is asked for its
/// properties. Where there is no such database, the target is looked for among the data sources.
pub proof fn law_after_database(p: PublishView, status: u16, body: Seq<u8>)
    requires
        p.stage is Database,
    ensures
        ({
            let next = after_reply(p, status, body);
            if is_success(status) {
                match source_of(json_fault(body), source_ids(body)) {
                    Ok(id) => {
                        &&& only_stage_differs(next.0, p)
                        &&& next.0.stage == (StageView::TitleProperty { data_source: id })
                        &&& next.1 is Send
                        &&& asks_for(
                            next.1->Send_0,
                            p.token,
                            "https://api.notion.com/v1/data_sources/"@ + id,
                        )
                    },
                    Err(message) => fails_with(p, next, message),
                }
            } else if status == 404 {
                &&& only_stage_differs(next.0, p)
                &&& next.0.stage is DataSource
                &&& next.1 is Send
                &&& asks_for(
                    next.1->Send_0,
                    p.token,
                    "https://api.notion.com/v1/data_sources/"@ + p.target,
                )
            } else {
                fails_with(p, next, http_message("Notion database lookup returned"@, status, body))
            }
        }),
{
    lemma_signed(p.token);
}

/// What happens with a reply that tells of a data source: where there is one it is asked for its
/// properties, and the page is made in it, with the title in the property that holds titles.
pub proof fn law_after_data_source(p: PublishView, status: u16, body: Seq<u8>)
    requires
        p.stage is DataSource || p.stage is TitleProperty,
    ensures
        ({
            let next = after_reply(p, status, body);
            if !is_success(status) {
                next.0.stage is Finished && next.1 is Failed
            } else if p.stage is DataSource {
                &&& only_stage_differs(next.0, p)
                &&& next.0.stage == (StageView::TitleProperty { data_source: p.target })
                &&& next.1 is Send
                &&& asks_for(
                    next.1->Send_0,
                    p.token,
                    "https://api.notion.com/v1/data_sources/"@ + p.target,
                )
            } else {
                match title_property_reply(body) {
                    Ok(property) => {
                        &&& only_stage_differs(next.0, p)
                        &&& next.0.stage is Row
                        &&& next.1 is Send
                        &&& makes_page(
                            next.1->Send_0,
                            p.token,
                            "data_source_id"@,
                            p.stage->TitleProperty_data_source,
                            property,
                            p.title,
                            p.markdown,
                        )
                    },
                    Err(message) => fails_with(p, next, message),
                }
            }
        }),
{
    lemma_signed(p.token);
    if let StageView::TitleProperty { data_source } = p.stage {
        if let Ok(property) = title_property_reply(body) {
            lemma_makes_page(p.token, "data_source_id"@, data_source, property, p.title, p.markdown);
        }
    }
}

/// The messages for lookups that are refused name what was looked for, the status and the start of the
/// reply.
pub proof fn law_refused_lookups(p: PublishView, status: u16, body: Seq<u8>)
    requires
        !is_success(status),
    ensures
        ({
            let next = after_reply(p, status, body);
            let said = seq![' ', 'H', 'T', 'T', 'P', ' '] + decimal(status as nat) + seq![':', ' ']
                + first_chars(crate::bytes::lossy_text(body), 500);
            &&& page_reply(status, body) == Err::<(Seq<char>, Seq<char>), Seq<char>>(
                "Notion returned"@ + said,
            )
            &&& p.stage is Database && status != 404 ==> fails_with(
                p,
                next,
                "Notion database lookup returned"@ + said,
            )
            &&& p.stage is TitleProperty ==> fails_with(
                p,
                next,
                "Notion data-source lookup returned"@ + said,
            )
            &&& p.stage is DataSource ==> fails_with(
                p,
                next,
                "database HTTP "@ + decimal(p.stage->DataSource_database_status as nat) + ": "@
                    + p.stage->DataSource_database_text + ("; data source"@ + said),
            )
            &&& p.stage is Database && status == 404 ==> next.0.stage == (StageView::DataSource {
                database_status: 404,
                database_text: first_chars(crate::bytes::lossy_text(body), 500),
            })
        }),
{
    reveal_strlit(" HTTP ");
    reveal_strlit(": ");
    assert(" HTTP "@ =~= seq![' ', 'H', 'T', 'T', 'P', ' ']);
    assert(": "@ =~= seq![':', ' ']);
    let text = first_chars(crate::bytes::lossy_text(body), 500);
    let said = " HTTP "@ + decimal(status as nat) + ": "@ + text;
    assert forall|what: Seq<char>| #[trigger] http_message(what, status, body) == what + said by {
        assert(what + " HTTP "@ + decimal(status as nat) + ": "@ + text =~= what + said);
    }
}

/// A request that came to nothing ends the publication with its message.
pub proof fn law_failed_request(p: PublishView, message: String)
    ensures
        fails_with(p, next_step(p, HttpReply::Failure(message)), message@),
{
}

/// A reply is read as a page just where it is JSON with an identifier and an address that is not
/// blank.
pub proof fn law_page_of_reply(
    fault: Option<Seq<char>>,
    id: Option<Seq<char>>,
    url: Option<Seq<char>>,
)
    ensures
        ({
            let page = page_of(fault, id, url);
            &&& page is Ok <==> fault is None && id is Some && url is Some && !is_blank(
                url.unwrap(),
            )
            &&& page is Ok ==> page->Ok_0 == (id.unwrap(), url.unwrap())
            &&& fault is Some ==> page == Err::<(Seq<char>, Seq<char>), Seq<char>>(fault.unwrap())
        }),
{
}

/// The page that a reply tells of has the identifier and the address that the reply has under these
/// names.
pub proof fn law_page_reply(status: u16, body: Seq<u8>)
    requires
        is_success(status),
    ensures
        page_reply(status, body) == page_of(
            json_fault(body),
            crate::reply::json_text_at(body, "/id"@),
            crate::reply::json_text_at(body, "/url"@),
        ),
{
}

/// The first text that is there counts, whatever follows it.
pub proof fn law_first_text(missing: Seq<Option<Seq<char>>>, id: Seq<char>, rest: Seq<Option<Seq<char>>>)
    requires
        forall|k: int| 0 <= k < missing.len() ==> (#[trigger] missing[k]) is None,
    ensures
        first_text(missing) is None,
        first_text(missing + seq![Some(id)] + rest) == Some(id),
        source_of(None, Some(missing + seq![Some(id)] + rest)) == Ok::<Seq<char>, Seq<char>>(id),
        source_of(None, Some(missing)) is Err,
        source_of(None, None) is Err,
    decreases missing.len(),
{
    let all = missing + seq![Some(id)] + rest;
    if missing.len() > 0 {
        assert(missing[0] is None);
        let short = missing.skip(1);
        assert forall|k: int| 0 <= k < short.len() implies (#[trigger] short[k]) is None by {
            assert(missing[k + 1] is None);
        }
        law_first_text(short, id, rest);
        assert(all.skip(1) =~= short + seq![Some(id)] + rest);
        assert(all[0] is None);
    } else {
        assert(all[0] == Some(id));
    }
}

/// The first property that is a title counts, whatever follows it.
pub proof fn law_first_title_property(names: Seq<Seq<char>>, flags: Seq<bool>, k: int)
    requires
        0 <= k < names.len(),
        flags.len() == names.len(),
        flags[k],
        forall|j: int| 0 <= j < k ==> !flags[j],
    ensures
        first_flagged(names, flags) == Some(names[k]),
        title_property_in(None, Some(names), flags) == Ok::<Seq<char>, Seq<char>>(names[k]),
    decreases names.len(),
{
    if k > 0 {
        assert(!flags[0]);
        assert forall|j: int| 0 <= j < k - 1 implies !flags.skip(1)[j] by {
            assert(!flags[j + 1]);
        }
        law_first_title_property(names.skip(1), flags.skip(1), k - 1);
    }
}

/// The properties of a data source are those that the reply names, in its order, and each is a title
/// where the reply says so.
pub proof fn law_title_property_of_reply(body: Seq<u8>)
    ensures
        ({
            let names = crate::reply::json_keys_at(body, "/properties"@);
            let flags = Seq::new(
                names.unwrap().len(),
                |k: int| crate::notion::is_title_property(body, names.unwrap()[k]),
            );
            &&& names is None ==> title_property_reply(body) is Err
            &&& names is Some ==> title_property_reply(body) == title_property_in(
                json_fault(body),
                names,
                flags,
            )
            &&& json_fault(body) is Some ==> title_property_reply(body) == Err::<
                Seq<char>,
                Seq<char>,
            >(json_fault(body).unwrap())
        }),
{
    let names = crate::reply::json_keys_at(body, "/properties"@);
    if names is Some {
        let flags = Seq::new(
            names.unwrap().len(),
            |k: int| crate::notion::is_title_property(body, names.unwrap()[k]),
        );
        assert(crate::notion::title_flags(body, names.unwrap()) =~= flags);
    }
}

/// The messages for replies that lack what was asked for.
pub proof fn law_missing_in_replies(id: Seq<char>, names: Seq<Seq<char>>)
    ensures
        page_of(None, None, None) == Err::<(Seq<char>, Seq<char>), Seq<char>>(
            "Notion returned success without a page ID"@,
        ),
        page_of(None, Some(id), None) == Err::<(Seq<char>, Seq<char>), Seq<char>>(
            "Notion returned success without a page URL"@,
        ),
        source_of(None, None) == Err::<Seq<char>, Seq<char>>(
            "Notion database has no available data source"@,
        ),
        source_of(None, Some(Seq::empty())) == Err::<Seq<char>, Seq<char>>(
            "Notion database has no available data source"@,
        ),
        title_property_in(None, Some(names), Seq::empty()) == Err::<Seq<char>, Seq<char>>(
            "Notion data source has no title property"@,
        ),
        title_property_in(None, None, Seq::empty()) == Err::<Seq<char>, Seq<char>>(
            "Notion data source has no title property"@,
        ),
{
}

/// A reply without a property that is a title is refused.
pub proof fn law_no_title_property(names: Seq<Seq<char>>, flags: Seq<bool>)
    requires
        forall|j: int| 0 <= j < flags.len() ==> !flags[j],
    ensures
        first_flagged(names, flags) is None,
        title_property_in(None, Some(names), flags) is Err,
        title_property_in(None, None, flags) is Err,
    decreases names.len(),
{
    if names.len() > 0 && flags.len() > 0 {
        assert(!flags[0]);
        assert forall|j: int| 0 <= j < flags.skip(1).len() implies !flags.skip(1)[j] by {
            assert(!flags[j + 1]);
        }
        law_no_title_property(names.skip(1), flags.skip(1));
    }
}

/// Where the properties of a data source are looked for in a reply: under its properties, by the name
/// of each; and where its data sources are.
pub proof fn law_places_in_replies(body: Seq<u8>, name: Seq<char>, k: int)
    ensures
        crate::notion::is_title_property(body, name) <==> (crate::reply::json_text_at(
            body,
            "/properties/"@ + crate::reply::pointer_token(name) + "/type"@,
        ) == Some("title"@) || crate::reply::json_has_at(
            body,
            "/properties/"@ + crate::reply::pointer_token(name) + "/title"@,
        )),
        source_ids(body) is Some <==> crate::reply::json_len_at(body, "/data_sources"@) is Some,
        source_ids(body) is Some && 0 <= k < source_ids(body).unwrap().len() ==> source_ids(
            body,
        ).unwrap()[k] == crate::reply::json_text_at(
            body,
            "/data_sources/"@ + decimal(k as nat) + "/id"@,
        ),
        source_ids(body) is Some ==> source_ids(body).unwrap().len() == crate::reply::json_len_at(
            body,
            "/data_sources"@,
        ).unwrap(),
{
}

/// A connection is tested by the name of the account, which is its own or that of its owner.
pub proof fn law_account(fault: Option<Seq<char>>, name: Option<Seq<char>>, owner: Option<Seq<char>>)
    ensures
        fault is Some ==> account_of(fault, name, owner) == Err::<Seq<char>, Seq<char>>(
            fault.unwrap(),
        ),
        fault is None && name is Some ==> account_of(fault, name, owner) == Ok::<
            Seq<char>,
            Seq<char>,
        >(name.unwrap()),
        fault is None && name is None && owner is Some ==> account_of(fault, name, owner) == Ok::<
            Seq<char>,
            Seq<char>,
        >(owner.unwrap()),
        fault is None && name is None && owner is None ==> account_of(fault, name, owner) == Ok::<
            Seq<char>,
            Seq<char>,
        >("Notion"@),
{
}

/// A connection is tested by asking for the account, and fails where the reply is refused.
pub proof fn law_connection_test(token: Seq<char>, status: u16, body: Seq<u8>)
    ensures
        asks_for(
            crate::notion::account_request(token),
            token,
            "https://api.notion.com/v1/users/me"@,
        ),
        is_success(status) ==> crate::notion::account_reply(status, body) == account_of(
            json_fault(body),
            crate::reply::json_text_at(body, "/name"@),
            crate::reply::json_text_at(body, "/bot/owner/user/name"@),
        ),
        !is_success(status) ==> crate::notion::account_reply(status, body) == Err::<
            Seq<char>,
            Seq<char>,
        >(http_message("Notion test"@, status, body)),
{
    lemma_signed(token);
}

} // verus!
