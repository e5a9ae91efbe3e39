//! What publishing promises: encodings that can be undone, limits that are kept, and a course that
//! comes to an end.

use vstd::prelude::*;

use crate::http::HttpReply;
use crate::json::JsonView;
use crate::markdown::{
    document_blocks, inline_pieces, pieces_text, BlockView, InlineStyle, PieceView,
};
use crate::notion::{
    chunks_of, first_step, next_step, notion_children, notion_headers, padded, rich_chunk,
    rich_chunks, rich_pieces, widest, PublishView, StageView,
};
use crate::publishing::{
    base64, base64_char, chosen_title, count_other_images, entered_notion, entered_typecho,
    first_heading, first_paragraph, gfm_html, html_of, is_public, is_success, local_images_in,
    local_places, notion_of_env, title_of, trimmed_value, typecho_of_env, with_address, xml_char,
    xml_escaped, xml_tag,
};
use crate::text::{
    ascii_lower, contains_text, count_of, has_prefix, is_blank, lemma_find_is, matches_at, trim_of,
};
use crate::text_laws::{law_replace, starts_not_in};

verus! {

// ---------------------------------------------------------------------------
// Base64
// ---------------------------------------------------------------------------

/// The six bits that a character stands for.
pub open spec fn base64_value(c: char) -> int {
    let u = c as int;
    if 65 <= u <= 90 {
        u - 65
    } else if 97 <= u <= 122 {
        u - 71
    } else if 48 <= u <= 57 {
        u + 4
    } else if c == '+' {
        62
    } else {
        63
    }
}

/// The bytes that a text in Base64 stands for.
pub open spec fn base64_bytes(s: Seq<char>) -> Seq<u8>
    decreases s.len(),
{
    if s.len() < 4 {
        Seq::empty()
    } else {
        let v0 = base64_value(s[0]);
        let v1 = base64_value(s[1]);
        let v2 = base64_value(s[2]);
        let v3 = base64_value(s[3]);
        let first = seq![(v0 * 4 + v1 / 16) as u8];
        let group = if s[2] == '=' {
            first
        } else if s[3] == '=' {
            first.push(((v1 % 16) * 16 + v2 / 4) as u8)
        } else {
            first.push(((v1 % 16) * 16 + v2 / 4) as u8).push(((v2 % 4) * 64 + v3) as u8)
        };
        group + base64_bytes(s.skip(4))
    }
}

proof fn lemma_base64_char(n: int)
    requires
        0 <= n < 64,
    ensures
        base64_value(base64_char(n)) == n,
        base64_char(n) != '=',
{
}

/// Base64 can be undone, and takes four characters for each three bytes begun.
pub proof fn law_base64(bytes: Seq<u8>)
    ensures
        base64_bytes(base64(bytes)) == bytes,
        base64(bytes).len() == 4 * ((bytes.len() + 2) / 3),
    decreases bytes.len(),
{
    let s = base64(bytes);
    if bytes.len() == 0 {
        assert(base64_bytes(s) =~= bytes);
    } else {
        let b0 = bytes[0] as int;
        let b1 = if bytes.len() > 1 {
            bytes[1] as int
        } else {
            0
        };
        let b2 = if bytes.len() > 2 {
            bytes[2] as int
        } else {
            0
        };
        lemma_base64_char(b0 / 4);
        lemma_base64_char((b0 % 4) * 16 + b1 / 16);
        lemma_base64_char((b1 % 16) * 4 + b2 / 64);
        lemma_base64_char(b2 % 64);
        assert(s[0] == base64_char(b0 / 4));
        assert(s[1] == base64_char((b0 % 4) * 16 + b1 / 16));
        if bytes.len() <= 3 {
            assert(s.skip(4) =~= Seq::empty());
            assert(base64_bytes(s.skip(4)) =~= Seq::empty());
            assert(base64_bytes(s) =~= bytes);
        } else {
            let rest = bytes.skip(3);
            law_base64(rest);
            assert(s.skip(4) =~= base64(rest));
            assert(bytes =~= seq![bytes[0], bytes[1], bytes[2]] + rest);
            assert(base64_bytes(s) =~= bytes);
        }
    }
}

// ---------------------------------------------------------------------------
// XML
// ---------------------------------------------------------------------------

/// The text that XML text with the five named entities stands for.
pub open spec fn xml_plain(s: Seq<char>) -> Seq<char>
    decreases s.len(),
{
    if s.len() == 0 {
        Seq::empty()
    } else if s.len() >= 5 && has_prefix(s, "&amp;"@) {
        seq!['&'] + xml_plain(s.skip(5))
    } else if s.len() >= 4 && has_prefix(s, "&lt;"@) {
        seq!['<'] + xml_plain(s.skip(4))
    } else if s.len() >= 4 && has_prefix(s, "&gt;"@) {
        seq!['>'] + xml_plain(s.skip(4))
    } else if s.len() >= 6 && has_prefix(s, "&quot;"@) {
        seq!['"'] + xml_plain(s.skip(6))
    } else if s.len() >= 6 && has_prefix(s, "&apos;"@) {
        seq!['\''] + xml_plain(s.skip(6))
    } else {
        seq![s[0]] + xml_plain(s.skip(1))
    }
}

proof fn lemma_escaped_concat(a: Seq<char>, b: Seq<char>)
    ensures
        xml_escaped(a + b) == xml_escaped(a) + xml_escaped(b),
    decreases b.len(),
{
    if b.len() == 0 {
        assert(a + b =~= a);
        assert(xml_escaped(a) + Seq::empty() =~= xml_escaped(a));
    } else {
        assert((a + b).drop_last() =~= a + b.drop_last());
        lemma_escaped_concat(a, b.drop_last());
        assert(xml_escaped(a + b) =~= xml_escaped(a) + xml_escaped(b));
    }
}

proof fn lemma_entities()
    ensures
        "&amp;"@ == seq!['&', 'a', 'm', 'p', ';'],
        "&lt;"@ == seq!['&', 'l', 't', ';'],
        "&gt;"@ == seq!['&', 'g', 't', ';'],
        "&quot;"@ == seq!['&', 'q', 'u', 'o', 't', ';'],
        "&apos;"@ == seq!['&', 'a', 'p', 'o', 's', ';'],
{
    reveal_strlit("&amp;");
    reveal_strlit("&lt;");
    reveal_strlit("&gt;");
    reveal_strlit("&quot;");
    reveal_strlit("&apos;");
    assert("&amp;"@ =~= seq!['&', 'a', 'm', 'p', ';']);
    assert("&lt;"@ =~= seq!['&', 'l', 't', ';']);
    assert("&gt;"@ =~= seq!['&', 'g', 't', ';']);
    assert("&quot;"@ =~= seq!['&', 'q', 'u', 'o', 't', ';']);
    assert("&apos;"@ =~= seq!['&', 'a', 'p', 'o', 's', ';']);
}

/// Reading XML text back takes its first character or entity first.
proof fn lemma_plain_step(c: char, rest: Seq<char>)
    ensures
        xml_plain(xml_char(c) + rest) == seq![c] + xml_plain(rest),
{
    lemma_entities();
    let w = xml_char(c) + rest;
    if c == '&' {
        assert(w.take(5) =~= "&amp;"@);
        assert(w.skip(5) =~= rest);
    } else if c == '<' {
        assert(w.take(4) =~= "&lt;"@);
        assert(w.skip(4) =~= rest);
        assert(w[1] == 'l');
        assert(w.len() >= 5 ==> w.take(5)[1] == 'l');
    } else if c == '>' {
        assert(w.take(4) =~= "&gt;"@);
        assert(w.skip(4) =~= rest);
        assert(w[1] == 'g');
        assert(w.len() >= 5 ==> w.take(5)[1] == 'g');
        assert(w.take(4)[1] == 'g');
    } else if c == '"' {
        assert(w.take(6) =~= "&quot;"@);
        assert(w.skip(6) =~= rest);
        assert(w[1] == 'q');
        assert(w.take(5)[1] == 'q');
        assert(w.take(4)[1] == 'q');
    } else if c == '\'' {
        assert(w.take(6) =~= "&apos;"@);
        assert(w.skip(6) =~= rest);
        assert(w[1] == 'a' && w[2] == 'p');
        assert(w.take(5)[2] == 'p');
        assert(w.take(4)[1] == 'a');
        assert(w.take(6)[1] == 'a');
    } else {
        assert(w[0] == c);
        assert(w.skip(1) =~= rest);
        assert(w.len() >= 5 ==> w.take(5)[0] == c);
        assert(w.len() >= 4 ==> w.take(4)[0] == c);
        assert(w.len() >= 6 ==> w.take(6)[0] == c);
    }
}

/// Escaping a text for XML can be undone.
pub proof fn law_xml_escape_can_be_undone(s: Seq<char>)
    ensures
        xml_plain(xml_escaped(s)) == s,
    decreases s.len(),
{
    if s.len() == 0 {
        assert(xml_plain(xml_escaped(s)) =~= s);
    } else {
        let rest = s.skip(1);
        let one = seq![s[0]];
        assert(s =~= one + rest);
        lemma_escaped_concat(one, rest);
        assert(xml_escaped(one) =~= xml_char(s[0])) by {
            reveal_with_fuel(xml_escaped, 2);
            assert(one.drop_last() =~= Seq::empty());
        }
        law_xml_escape_can_be_undone(rest);
        lemma_plain_step(s[0], xml_escaped(rest));
        assert(one + rest =~= s);
    }
}

/// An escaped text has no character that would end or start a tag or an attribute.
pub proof fn law_xml_escape_is_clean(s: Seq<char>)
    ensures
        forall|k: int|
            0 <= k < xml_escaped(s).len() ==> (#[trigger] xml_escaped(s)[k]) != '<' && xml_escaped(
                s,
            )[k] != '>' && xml_escaped(s)[k] != '"' && xml_escaped(s)[k] != '\'',
    decreases s.len(),
{
    lemma_entities();
    if s.len() > 0 {
        let a = xml_escaped(s.drop_last());
        law_xml_escape_is_clean(s.drop_last());
        let b = xml_char(s.last());
        assert forall|k: int| 0 <= k < (a + b).len() implies (#[trigger] (a + b)[k]) != '<' && (a
            + b)[k] != '>' && (a + b)[k] != '"' && (a + b)[k] != '\'' by {
            if k < a.len() {
                assert((a + b)[k] == a[k]);
            } else {
                assert((a + b)[k] == b[k - a.len()]);
            }
        }
    }
}

/// What was put between two tags is found between them, where no opening tag of the name stands
/// before and the text has no tags.
pub proof fn law_xml_tag_found(before: Seq<char>, tag: Seq<char>, value: Seq<char>, behind: Seq<char>)
    requires
        forall|k: int|
            0 <= k < before.len() ==> !matches_at(
                before + ("<"@ + tag + ">"@) + value + ("</"@ + tag + ">"@) + behind,
                k,
                "<"@ + tag + ">"@,
            ),
        forall|k: int| 0 <= k < value.len() ==> value[k] != '<',
    ensures
        xml_tag(
            before + ("<"@ + tag + ">"@) + value + ("</"@ + tag + ">"@) + behind,
            tag,
        ) == Some(value),
{
    reveal_strlit("<");
    reveal_strlit("</");
    reveal_strlit(">");
    let open = "<"@ + tag + ">"@;
    let close = "</"@ + tag + ">"@;
    let w = before + open + value + close + behind;
    let i = before.len() as int;
    let j = i + open.len();
    let n = j + value.len();
    assert(w.subrange(i, i + open.len()) =~= open);
    lemma_find_is(w, open, 0, i);
    assert(w.subrange(n, n + close.len()) =~= close);
    assert forall|k: int| j <= k < n implies !matches_at(w, k, close) by {
        if matches_at(w, k, close) {
            assert(w.subrange(k, k + close.len())[0] == '<');
            assert(w[k] == value[k - j]);
        }
    }
    lemma_find_is(w, close, j, n);
    assert(w.subrange(j, n) =~= value);
}

// ---------------------------------------------------------------------------
// Limits of Notion
// ---------------------------------------------------------------------------

/// Texts, one after the other.
pub open spec fn concatenated(parts: Seq<Seq<char>>) -> Seq<char>
    decreases parts.len(),
{
    if parts.len() == 0 {
        Seq::empty()
    } else {
        parts[0] + concatenated(parts.skip(1))
    }
}

/// The parts of a text make up the text, and each has at least one and at most two thousand
/// characters.
pub proof fn law_chunks(text: Seq<char>)
    ensures
        concatenated(chunks_of(text)) == text,
        forall|k: int|
            0 <= k < chunks_of(text).len() ==> 1 <= (#[trigger] chunks_of(text)[k]).len() <= 2000,
    decreases text.len(),
{
    let parts = chunks_of(text);
    if text.len() == 0 {
        assert(concatenated(parts) =~= text);
    } else if text.len() <= 2000 {
        reveal_with_fuel(concatenated, 2);
        assert(parts.skip(1) =~= Seq::empty());
        assert(concatenated(parts) =~= text);
    } else {
        let rest = text.skip(2000);
        law_chunks(rest);
        assert(parts.skip(1) =~= chunks_of(rest));
        assert(text.take(2000) + rest =~= text);
        assert forall|k: int| 0 <= k < parts.len() implies 1 <= (#[trigger] parts[k]).len()
            <= 2000 by {
            if k > 0 {
                assert(parts[k] == chunks_of(rest)[k - 1]);
            }
        }
    }
}

/// The text of a part of a rich text.
pub open spec fn part_content(part: JsonView) -> Seq<char> {
    part->Object_0["text"@]->Object_0["content"@]->Text_0
}

/// The texts of the parts of a rich text, one after the other.
pub open spec fn parts_text(parts: Seq<JsonView>) -> Seq<char>
    decreases parts.len(),
{
    if parts.len() == 0 {
        Seq::empty()
    } else {
        parts_text(parts.drop_last()) + part_content(parts.last())
    }
}

proof fn lemma_part_content(content: Seq<char>, styles: Seq<InlineStyle>, link: Option<Seq<char>>)
    ensures
        part_content(rich_chunk(content, styles, link)) == content,
{
    reveal_strlit("text");
    reveal_strlit("type");
    reveal_strlit("annotations");
    reveal_strlit("content");
    reveal_strlit("link");
    assert("text"@.len() == 4 && "annotations"@.len() == 11);
    assert("text"@[1] == 'e');
    assert("type"@[1] == 'y');
    assert("content"@.len() == 7 && "link"@.len() == 4);
    assert("text"@ != "type"@);
    assert("text"@ != "annotations"@);
    assert("content"@ != "link"@);
}

proof fn lemma_parts_concat(a: Seq<JsonView>, b: Seq<JsonView>)
    ensures
        parts_text(a + b) == parts_text(a) + parts_text(b),
    decreases b.len(),
{
    if b.len() == 0 {
        assert(a + b =~= a);
        assert(parts_text(a) + Seq::empty() =~= parts_text(a));
    } else {
        assert((a + b).drop_last() =~= a + b.drop_last());
        lemma_parts_concat(a, b.drop_last());
        assert(parts_text(a + b) =~= parts_text(a) + parts_text(b));
    }
}

proof fn lemma_chunks_text(text: Seq<char>, styles: Seq<InlineStyle>, link: Option<Seq<char>>)
    ensures
        parts_text(rich_chunks(chunks_of(text), styles, link)) == text,
    decreases text.len(),
{
    let parts = rich_chunks(chunks_of(text), styles, link);
    if text.len() == 0 {
        assert(parts_text(parts) =~= text);
    } else if text.len() <= 2000 {
        lemma_part_content(text, styles, link);
        assert(parts =~= seq![rich_chunk(text, styles, link)]);
        assert(parts.drop_last() =~= Seq::empty());
        assert(parts_text(parts.drop_last()) + text =~= text);
    } else {
        let head = text.take(2000);
        let rest = text.skip(2000);
        let first = seq![rich_chunk(head, styles, link)];
        lemma_part_content(head, styles, link);
        lemma_chunks_text(rest, styles, link);
        assert(parts =~= first + rich_chunks(chunks_of(rest), styles, link));
        lemma_parts_concat(first, rich_chunks(chunks_of(rest), styles, link));
        assert(first.drop_last() =~= Seq::empty());
        assert(parts_text(first.drop_last()) + head =~= head);
        assert(parts_text(first) == head);
        assert(head + rest =~= text);
    }
}

/// The rich text of some pieces holds the text of all of them, as the preview shows it.
pub proof fn law_export_keeps_all_text(pieces: Seq<PieceView>)
    ensures
        parts_text(rich_pieces(pieces)) == pieces_text(pieces),
    decreases pieces.len(),
{
    if pieces.len() > 0 {
        let last = pieces.last();
        law_export_keeps_all_text(pieces.drop_last());
        lemma_chunks_text(last.text, last.styles, last.link);
        lemma_parts_concat(
            rich_pieces(pieces.drop_last()),
            rich_chunks(chunks_of(last.text), last.styles, last.link),
        );
    }
}

/// All rows of a table have the same width, which is at least one and loses no cell.
pub proof fn law_table_rows_fit(rows: Seq<Seq<Seq<char>>>, k: int)
    requires
        0 <= k < rows.len(),
    ensures
        widest(rows) >= 1,
        rows[k].len() <= widest(rows),
        padded(rows[k], widest(rows)).len() == widest(rows),
        padded(rows[k], widest(rows)).take(rows[k].len() as int) == rows[k],
    decreases rows.len(),
{
    lemma_widest(rows, k);
    assert(padded(rows[k], widest(rows)).take(rows[k].len() as int) =~= rows[k]);
}

proof fn lemma_widest(rows: Seq<Seq<Seq<char>>>, k: int)
    ensures
        widest(rows) >= 1,
        0 <= k < rows.len() ==> rows[k].len() <= widest(rows),
    decreases rows.len(),
{
    if rows.len() > 0 {
        lemma_widest(rows.drop_last(), k);
        if 0 <= k < rows.len() - 1 {
            assert(rows.drop_last()[k] == rows[k]);
        }
    }
}

/// A title is never empty, and never longer than one hundred characters.
pub proof fn law_title_length(heading: Option<Seq<char>>, paragraph: Option<Seq<char>>)
    ensures
        1 <= chosen_title(heading, paragraph).len() <= 100,
{
    reveal_strlit("未命名文章");
}

/// No block is a heading.
pub open spec fn no_heading(blocks: Seq<BlockView>) -> bool {
    forall|k: int| 0 <= k < blocks.len() ==> !((#[trigger] blocks[k]) is Heading)
}

/// No block is a paragraph.
pub open spec fn no_paragraph(blocks: Seq<BlockView>) -> bool {
    forall|k: int| 0 <= k < blocks.len() ==> !((#[trigger] blocks[k]) is Paragraph)
}

/// The first heading counts, whatever level it has and whatever blocks follow it. There is none where
/// no block is a heading.
pub proof fn law_first_heading(
    before: Seq<BlockView>,
    level: u8,
    text: Seq<char>,
    behind: Seq<BlockView>,
)
    requires
        no_heading(before),
    ensures
        first_heading(before + seq![BlockView::Heading { level, text }] + behind) == Some(
            pieces_text(inline_pieces(text)),
        ),
        first_heading(before) is None,
    decreases before.len(),
{
    let heading = BlockView::Heading { level, text };
    let all = before + seq![heading] + behind;
    if before.len() == 0 {
        assert(all[0] == heading);
    } else {
        let short = before.skip(1);
        assert(!(before[0] is Heading));
        assert forall|k: int| 0 <= k < short.len() implies !((#[trigger] short[k]) is Heading) by {
            assert(!(before[k + 1] is Heading));
        }
        law_first_heading(short, level, text, behind);
        assert(all[0] == before[0]);
        assert(all.skip(1) =~= short + seq![heading] + behind);
    }
}

/// The first paragraph counts, whatever blocks follow it. There is none where no block is a paragraph.
pub proof fn law_first_paragraph(before: Seq<BlockView>, text: Seq<char>, behind: Seq<BlockView>)
    requires
        no_paragraph(before),
    ensures
        first_paragraph(before + seq![BlockView::Paragraph(text)] + behind) == Some(
            pieces_text(inline_pieces(text)),
        ),
        first_paragraph(before) is None,
    decreases before.len(),
{
    let paragraph = BlockView::Paragraph(text);
    let all = before + seq![paragraph] + behind;
    if before.len() == 0 {
        assert(all[0] == paragraph);
    } else {
        let short = before.skip(1);
        assert(!(before[0] is Paragraph));
        assert forall|k: int| 0 <= k < short.len() implies !((
        #[trigger] short[k]) is Paragraph) by {
            assert(!(before[k + 1] is Paragraph));
        }
        law_first_paragraph(short, text, behind);
        assert(all[0] == before[0]);
        assert(all.skip(1) =~= short + seq![paragraph] + behind);
    }
}

/// The text is the title that this text makes: its first hundred characters, or the title of an
/// article without one where it is blank.
pub open spec fn is_title_from(title: Seq<char>, text: Seq<char>) -> bool {
    if is_blank(text) {
        title == "未命名文章"@
    } else if text.len() <= 100 {
        title == text
    } else {
        title.len() == 100 && forall|k: int| 0 <= k < 100 ==> #[trigger] title[k] == text[k]
    }
}

/// An article that has a heading takes its title from the plain text of the first one; blocks behind
/// that heading never change the title.
pub proof fn law_title_is_first_heading(
    markdown: Seq<char>,
    before: Seq<BlockView>,
    level: u8,
    text: Seq<char>,
    behind: Seq<BlockView>,
)
    requires
        no_heading(before),
    ensures
        document_blocks(markdown) == before + seq![BlockView::Heading { level, text }] + behind
            ==> is_title_from(title_of(markdown), pieces_text(inline_pieces(text))),
{
    law_first_heading(before, level, text, behind);
    let plain = pieces_text(inline_pieces(text));
    assert(plain.take(plain.len() as int) =~= plain);
}

/// An article without a heading takes its title from the plain text of its first paragraph, and one
/// that has neither has the title of an article without one.
pub proof fn law_title_without_heading(
    markdown: Seq<char>,
    before: Seq<BlockView>,
    text: Seq<char>,
    behind: Seq<BlockView>,
)
    requires
        no_heading(before),
        no_paragraph(before),
        no_heading(behind),
    ensures
        document_blocks(markdown) == before + seq![BlockView::Paragraph(text)] + behind
            ==> is_title_from(title_of(markdown), pieces_text(inline_pieces(text))),
        document_blocks(markdown) == before ==> title_of(markdown) == "未命名文章"@,
{
    let all = before + seq![BlockView::Paragraph(text)] + behind;
    assert forall|k: int| 0 <= k < all.len() implies !((#[trigger] all[k]) is Heading) by {
        if k < before.len() {
            assert(!(before[k] is Heading));
        } else if k > before.len() {
            assert(!(behind[k - before.len() - 1] is Heading));
        }
    }
    law_first_heading(all, 1, Seq::empty(), Seq::empty());
    law_first_heading(before, 1, Seq::empty(), Seq::empty());
    law_first_paragraph(before, text, behind);
    let plain = pieces_text(inline_pieces(text));
    assert(plain.take(plain.len() as int) =~= plain);
}

// ---------------------------------------------------------------------------
// Images
// ---------------------------------------------------------------------------

/// Others can reach an address that starts as one of the web does, in capital or small letters, and no
/// other one.
pub proof fn law_public_addresses(url: Seq<char>)
    ensures
        ({
            let l = ascii_lower(trim_of(url));
            is_public(url) <==> (l.len() >= 7 && l.take(7) == seq!['h', 't', 't', 'p', ':', '/', '/'])
                || (l.len() >= 8 && l.take(8) == seq!['h', 't', 't', 'p', 's', ':', '/', '/'])
        }),
{
    reveal_strlit("https://");
    reveal_strlit("http://");
    assert("https://"@ =~= seq!['h', 't', 't', 'p', 's', ':', '/', '/']);
    assert("http://"@ =~= seq!['h', 't', 't', 'p', ':', '/', '/']);
}

/// The images that others cannot reach are found in order, each with its description and its address,
/// wherever in the article they stand; other blocks, and images that others can reach, are not among
/// them.
pub proof fn law_local_images(a: Seq<BlockView>, block: BlockView, b: Seq<BlockView>)
    ensures
        local_images_in(a + b) == local_images_in(a) + local_images_in(b),
        local_images_in(seq![block]) == match block {
            BlockView::Image { alt, url } => if is_public(url) {
                Seq::empty()
            } else {
                seq![(alt, url)]
            },
            _ => Seq::empty(),
        },
    decreases b.len(),
{
    assert(seq![block].drop_last() =~= Seq::<BlockView>::empty());
    reveal_with_fuel(local_images_in, 2);
    if let BlockView::Image { alt, url } = block {
        assert(Seq::<(Seq<char>, Seq<char>)>::empty().push((alt, url)) =~= seq![(alt, url)]);
    }
    if b.len() == 0 {
        assert(a + b =~= a);
        assert(local_images_in(a) + Seq::empty() =~= local_images_in(a));
    } else {
        law_local_images(a, block, b.drop_last());
        assert((a + b).drop_last() =~= a + b.drop_last());
        assert(local_images_in(a + b) =~= local_images_in(a) + local_images_in(b));
    }
}

/// Images are counted one for one, but for those that are named as files: these are counted where they
/// are named.
pub proof fn law_local_image_count(a: Seq<(Seq<char>, Seq<char>)>, image: (Seq<char>, Seq<char>))
    ensures
        count_other_images(a.push(image)) == count_other_images(a) + if contains_text(
            ascii_lower(image.1),
            "file://"@,
        ) {
            0nat
        } else {
            1nat
        },
        count_other_images(Seq::empty()) == 0,
{
    assert(a.push(image).drop_last() =~= a);
}

/// The places that others will not see are those where a file is named, and the other images that they
/// cannot reach.
pub proof fn law_local_places(markdown: Seq<char>)
    ensures
        local_places(markdown) == count_of(ascii_lower(markdown), "file://"@) + count_other_images(
            local_images_in(document_blocks(markdown)),
        ),
{
}

// ---------------------------------------------------------------------------
// HTML
// ---------------------------------------------------------------------------

/// An article is sent as the HTML that was made of it, and as it is only where none could be made.
pub proof fn law_html(markdown: Seq<char>)
    ensures
        gfm_html(markdown) is Some ==> html_of(markdown) == gfm_html(markdown).unwrap(),
        gfm_html(markdown) is None ==> html_of(markdown) == markdown,
{
}

/// A value that was entered counts without the white space around it, and only where something is left.
pub proof fn law_trimmed_value(value: Seq<char>)
    ensures
        trimmed_value(None) is None,
        trimmed_value(Some(value)) is Some <==> !is_blank(value),
        !is_blank(value) ==> trimmed_value(Some(value)) == Some(trim_of(value)),
{
}

/// Settings count just where none of them is blank. They count without the white space around them, but
/// for a password that was entered, which counts as it is.
pub proof fn law_settings(a: Seq<char>, b: Seq<char>, c: Seq<char>)
    ensures
        entered_notion(a, b) is Some <==> !is_blank(a) && !is_blank(b),
        entered_notion(a, b) is Some ==> entered_notion(a, b).unwrap() == (trim_of(a), trim_of(b)),
        notion_of_env(Some(a), Some(b)) == entered_notion(a, b),
        notion_of_env(None, Some(b)) is None,
        notion_of_env(Some(a), None) is None,
        entered_typecho(a, b, c) is Some <==> !is_blank(a) && !is_blank(b) && !is_blank(c),
        entered_typecho(a, b, c) is Some ==> entered_typecho(a, b, c).unwrap() == (
            trim_of(a),
            trim_of(b),
            c,
        ),
        typecho_of_env(Some(a), Some(b), Some(c)) is Some <==> !is_blank(a) && !is_blank(b)
            && !is_blank(c),
        typecho_of_env(Some(a), Some(b), Some(c)) is Some ==> typecho_of_env(
            Some(a),
            Some(b),
            Some(c),
        ).unwrap() == (trim_of(a), trim_of(b), trim_of(c)),
        typecho_of_env(None, Some(b), Some(c)) is None,
        typecho_of_env(Some(a), None, Some(c)) is None,
        typecho_of_env(Some(a), Some(b), None) is None,
{
}

/// The address of a link or an image gives way to another one wherever it stands, and nothing else
/// changes.
pub proof fn law_address_changed(a: Seq<char>, b: Seq<char>, from: Seq<char>, to: Seq<char>)
    requires
        starts_not_in(a, seq![']', '('] + from + seq![')'] + b, seq![']', '('] + from + seq![')']),
    ensures
        with_address(a + (seq![']', '('] + from + seq![')']) + b, from, to) == a + (seq![']', '(']
            + to + seq![')']) + with_address(b, from, to),
{
    reveal_strlit("](");
    reveal_strlit(")");
    assert("]("@ =~= seq![']', '(']);
    assert(")"@ =~= seq![')']);
    law_replace(
        a,
        b,
        seq![']', '('] + from + seq![')'],
        seq![']', '('] + to + seq![')'],
    );
}

/// A request succeeded where its status is one of the two hundreds.
pub proof fn law_success(status: u16)
    ensures
        is_success(status) <==> status / 100 == 2,
{
}

// ---------------------------------------------------------------------------
// The course of a publication
// ---------------------------------------------------------------------------

/// The number of replies that a publication can still wait for.
pub open spec fn replies_left(stage: StageView) -> nat {
    match stage {
        StageView::Page => 5,
        StageView::Database => 4,
        StageView::DataSource { .. } => 3,
        StageView::TitleProperty { .. } => 2,
        StageView::Row => 1,
        StageView::Finished => 0,
    }
}

/// Every reply brings a publication closer to its end, and it sends a request exactly as long as it
/// has not ended. Nothing but the stage changes on the way, save that a missing page is remembered.
pub proof fn law_publication_ends(p: PublishView, reply: HttpReply)
    requires
        !(p.stage is Finished),
    ensures
        replies_left(next_step(p, reply).0.stage) < replies_left(p.stage),
        next_step(p, reply).1 is Send <==> !(next_step(p, reply).0.stage is Finished),
        next_step(p, reply).0.token == p.token,
        next_step(p, reply).0.target == p.target,
        next_step(p, reply).0.title == p.title,
        next_step(p, reply).0.markdown == p.markdown,
        p.page_missing ==> next_step(p, reply).0.page_missing,
{
}

/// Every request of a publication carries the token, and no request goes anywhere but to Notion's own
/// interface.
pub proof fn law_requests_are_signed(p: PublishView, reply: HttpReply)
    requires
        !(p.stage is Finished),
        next_step(p, reply).1 is Send,
    ensures
        next_step(p, reply).1->Send_0.headers == notion_headers(p.token),
        has_prefix(next_step(p, reply).1->Send_0.uri, "https://api.notion.com/v1/"@),
{
    let uri = next_step(p, reply).1->Send_0.uri;
    reveal_strlit("https://api.notion.com/v1/");
    reveal_strlit("https://api.notion.com/v1/pages");
    reveal_strlit("https://api.notion.com/v1/databases/");
    reveal_strlit("https://api.notion.com/v1/data_sources/");
    assert(uri.take(26) =~= "https://api.notion.com/v1/"@);
}

/// A publication never starts with more blocks than Notion takes at once.
pub proof fn law_no_start_with_too_many_blocks(
    token: Seq<char>,
    parent: Seq<char>,
    title: Seq<char>,
    markdown: Seq<char>,
)
    ensures
        first_step(token, parent, title, markdown) is Ok ==> notion_children(
            crate::markdown::document_blocks(markdown),
        ).len() <= 100,
{
}

} // verus!
