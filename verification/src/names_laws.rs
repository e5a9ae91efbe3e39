//! What files, their names and their addresses promise.

use vstd::prelude::*;
use vstd::utf8::{decode_utf8, encode_utf8, valid_utf8};

use crate::bytes::{char_units, gbk_encoding, gbk_text, utf16};
use crate::document::{
    decoded, encoded, ending_of, normalized, units_bytes, utf16_decoded, FileEncoding,
};
use crate::editing::is_url;
use crate::names::{
    chars_before, chars_before_unit, dots_and_spaces, file_url, hex_number, image_place, is_image,
    is_image_name, markdown_name, name_stem, percent_byte, percent_bytes, percent_encoded,
    to_utf16_offset, to_utf8_offset, warning_for,
};
use crate::number::decimal;
use crate::storage::{cleaned, is_clean, is_forbidden, name_parts};
use crate::text::{
    ascii_lower, byte_len, has_prefix, lemma_find_from, lemma_prefix_grows, lemma_run_back_is,
    matches_at, replace_all, trim_of,
};
use crate::text_laws::{law_replace, starts_not_in};

verus! {

// ---------------------------------------------------------------------------
// Files
// ---------------------------------------------------------------------------

/// The code units of a text are those of its characters, in order. A character beyond the first plane
/// has two of them, from which it can be computed; every other one is its own code unit.
pub proof fn law_code_units(a: Seq<char>, c: char)
    ensures
        utf16(a.push(c)) == utf16(a) + char_units(c),
        (c as u32) < 0x10000 ==> char_units(c).len() == 1 && char_units(c)[0] == c as u32,
        (c as u32) >= 0x10000 ==> char_units(c).len() == 2 && 0xD800 <= char_units(c)[0] < 0xDC00
            && 0xDC00 <= char_units(c)[1] < 0xE000 && (char_units(c)[0] - 0xD800) * 0x400 + (
        char_units(c)[1] - 0xDC00) + 0x10000 == c as u32,
{
    assert(a.push(c).drop_last() =~= a);
    let u = c as u32;
    if u >= 0x10000 {
        assert(u <= 0x10FFFF);
        assert((u - 0x10000) / 0x400 < 0x400);
        assert((u - 0x10000) / 0x400 * 0x400 + (u - 0x10000) % 0x400 == u - 0x10000);
    }
}

proof fn lemma_units_in_order(units: Seq<u16>, little: bool)
    ensures
        units_bytes(units, little).len() == 2 * units.len(),
        forall|k: int|
            0 <= k < units.len() ==> {
                let low = units_bytes(units, little)[if little {
                    2 * k
                } else {
                    2 * k + 1
                }];
                let high = units_bytes(units, little)[if little {
                    2 * k + 1
                } else {
                    2 * k
                }];
                low + 256 * high == #[trigger] units[k]
            },
    decreases units.len(),
{
    if units.len() > 0 {
        let short = units.drop_last();
        lemma_units_in_order(short, little);
        assert forall|k: int| 0 <= k < units.len() implies ({
            let low = units_bytes(units, little)[if little {
                2 * k
            } else {
                2 * k + 1
            }];
            let high = units_bytes(units, little)[if little {
                2 * k + 1
            } else {
                2 * k
            }];
            low + 256 * high == #[trigger] units[k]
        }) by {
            if k < short.len() {
                assert(short[k] == units[k]);
            }
        }
    }
}

/// A file in UTF-16 starts with its byte order mark, and has the two bytes of each code unit in that
/// order: the low one first in the one order, and the high one first in the other.
pub proof fn law_utf16_file(text: Seq<char>, little: bool)
    ensures
        ({
            let units = utf16(text);
            let file = encoded(
                text,
                if little {
                    FileEncoding::Utf16Le
                } else {
                    FileEncoding::Utf16Be
                },
            );
            let bytes = file->Ok_0;
            &&& file is Ok
            &&& bytes.len() == 2 + 2 * units.len()
            &&& little ==> bytes[0] == 0xFF && bytes[1] == 0xFE
            &&& !little ==> bytes[0] == 0xFE && bytes[1] == 0xFF
            &&& forall|k: int|
                0 <= k < units.len() ==> {
                    let first = bytes[2 + 2 * k];
                    let second = bytes[3 + 2 * k];
                    (#[trigger] units[k]) == if little {
                        first + 256 * second
                    } else {
                        256 * first + second
                    }
                }
        }),
{
    lemma_units_in_order(utf16(text), little);
}

/// A file in UTF-8 is the encoding of its text, behind the three bytes of its mark where it has one. A
/// file in GBK is the encoding of its text, and there is none where GBK lacks a character.
pub proof fn law_utf8_and_gbk_files(text: Seq<char>)
    ensures
        encoded(text, FileEncoding::Utf8) == Ok::<Seq<u8>, Seq<char>>(encode_utf8(text)),
        encoded(text, FileEncoding::Utf8Bom) == Ok::<Seq<u8>, Seq<char>>(
            seq![0xEFu8, 0xBBu8, 0xBFu8] + encode_utf8(text),
        ),
        encoded(text, FileEncoding::Gbk) is Ok <==> !gbk_encoding(text).1,
        !gbk_encoding(text).1 ==> encoded(text, FileEncoding::Gbk)->Ok_0 == gbk_encoding(text).0,
{
}

/// Which encoding a file is read in: that of its mark, or else UTF-8 where it can be, and GBK where
/// not.
pub proof fn law_encoding_of_file(bytes: Seq<u8>)
    ensures
        ({
            let mark8 = bytes.len() >= 3 && bytes[0] == 0xEF && bytes[1] == 0xBB && bytes[2] == 0xBF;
            let mark_le = bytes.len() >= 2 && bytes[0] == 0xFF && bytes[1] == 0xFE;
            let mark_be = bytes.len() >= 2 && bytes[0] == 0xFE && bytes[1] == 0xFF;
            let file = decoded(bytes);
            &&& mark8 && file is Ok ==> file->Ok_0.1 == FileEncoding::Utf8Bom
            &&& mark8 ==> (file is Ok <==> valid_utf8(bytes.skip(3)))
            &&& mark8 && file is Ok ==> file->Ok_0.0 == decode_utf8(bytes.skip(3))
            &&& mark_le && file is Ok ==> file->Ok_0.1 == FileEncoding::Utf16Le
            &&& mark_be && file is Ok ==> file->Ok_0.1 == FileEncoding::Utf16Be
            &&& (mark_le || mark_be) && file is Ok ==> bytes.len() % 2 == 0
            &&& !mark8 && !mark_le && !mark_be ==> file is Ok && file->Ok_0 == if valid_utf8(
                bytes,
            ) {
                (decode_utf8(bytes), FileEncoding::Utf8)
            } else {
                (gbk_text(bytes), FileEncoding::Gbk)
            }
        }),
{
    let mark8 = seq![0xEFu8, 0xBBu8, 0xBFu8];
    let mark_le = seq![0xFFu8, 0xFEu8];
    let mark_be = seq![0xFEu8, 0xFFu8];
    if bytes.len() >= 3 {
        assert(bytes.take(3)[0] == bytes[0] && bytes.take(3)[1] == bytes[1] && bytes.take(3)[2]
            == bytes[2]);
        if bytes[0] == 0xEF && bytes[1] == 0xBB && bytes[2] == 0xBF {
            assert(bytes.take(3) =~= mark8);
        }
    }
    if bytes.len() >= 2 {
        assert(bytes.take(2)[0] == bytes[0] && bytes.take(2)[1] == bytes[1]);
        if bytes[0] == 0xFF && bytes[1] == 0xFE {
            assert(bytes.take(2) =~= mark_le);
        }
        if bytes[0] == 0xFE && bytes[1] == 0xFF {
            assert(bytes.take(2) =~= mark_be);
        }
    }
}

/// A file in UTF-16 is refused where it has an odd number of bytes, or is not the encoding of a text.
pub proof fn law_broken_utf16(bytes: Seq<u8>, text: Seq<char>, little: bool)
    ensures
        bytes.len() % 2 != 0 ==> utf16_decoded(bytes, little) == Err::<Seq<char>, Seq<char>>(
            "UTF-16 文件损坏：字节长度不是偶数"@,
        ),
        utf16_decoded(bytes, little) == Ok::<Seq<char>, Seq<char>>(text) ==> bytes.len() == 2
            * utf16(text).len(),
{
}

/// Percent signs with two hexadecimal digits behind them, capital or small, stand for the byte of this
/// number; every other byte stands for itself.
pub proof fn law_percent_signs(high: u8, low: u8, rest: Seq<u8>, byte: u8)
    requires
        byte != 37,
    ensures
        hex_number(high) is Some && hex_number(low) is Some ==> percent_bytes(
            seq![37u8, high, low] + rest,
        ) == seq![(hex_number(high).unwrap() * 16 + hex_number(low).unwrap()) as u8]
            + percent_bytes(rest),
        percent_bytes(seq![byte] + rest) == seq![byte] + percent_bytes(rest),
        !(hex_number(high) is Some) ==> percent_bytes(seq![37u8, high] + rest) == seq![37u8]
            + percent_bytes(seq![high] + rest),
        percent_bytes(Seq::empty()).len() == 0,
{
    let a = seq![37u8, high, low] + rest;
    assert(a.skip(3) =~= rest);
    let b = seq![byte] + rest;
    assert(b.skip(1) =~= rest);
    let c = seq![37u8, high] + rest;
    assert(c.skip(1) =~= seq![high] + rest);
}

/// The digits of hexadecimal numbers.
pub proof fn law_hexadecimal(b: u8)
    ensures
        ({
            let c = b as char;
            &&& '0' <= c <= '9' ==> hex_number(b) == Some((b - 48) as u8)
            &&& 'a' <= c <= 'f' ==> hex_number(b) == Some((b - 97 + 10) as u8)
            &&& 'A' <= c <= 'F' ==> hex_number(b) == Some((b - 65 + 10) as u8)
            &&& !('0' <= c <= '9' || 'a' <= c <= 'f' || 'A' <= c <= 'F') ==> hex_number(b) is None
        }),
{
}

/// A path is that of an image by the extension of its last name.
pub proof fn law_image_name(stem: Seq<char>, extension: Seq<char>)
    requires
        stem.len() > 0,
        forall|k: int| 0 <= k < extension.len() ==> extension[k] != '.',
    ensures
        is_image_name(Some(stem + seq!['.'] + extension)) == is_image(Some(extension)),
        !is_image_name(Some(extension)),
        !is_image_name(None),
{
    law_extension(stem, extension);
}

/// The text is one line.
pub open spec fn is_one_line(s: Seq<char>) -> bool {
    forall|k: int| 0 <= k < s.len() ==> s[k] != '\r' && s[k] != '\n'
}

/// A line keeps its text, and every way to end a line becomes one line feed: a line feed, a carriage
/// return with a line feed behind it, and a carriage return alone.
pub proof fn law_line_endings_normalized(line: Seq<char>, rest: Seq<char>)
    requires
        is_one_line(line),
    ensures
        normalized(line) == line,
        normalized(line + seq!['\n'] + rest) == line + seq!['\n'] + normalized(rest),
        normalized(line + seq!['\r', '\n'] + rest) == line + seq!['\n'] + normalized(rest),
        (rest.len() > 0 ==> rest[0] != '\n') ==> normalized(line + seq!['\r'] + rest) == line
            + seq!['\n'] + normalized(rest),
{
    reveal_strlit("\r\n");
    reveal_strlit("\r");
    reveal_strlit("\n");
    let crlf = "\r\n"@;
    let cr = "\r"@;
    let lf = "\n"@;
    assert(crlf =~= seq!['\r', '\n']);
    assert(cr =~= seq!['\r']);
    assert(lf =~= seq!['\n']);
    let none = Seq::<char>::empty();
    let more = replace_all(rest, crlf, lf);
    lemma_no_return_no_match(line, none);
    law_replace(line, none, crlf, lf);
    law_replace(line, none, cr, lf);
    assert(line + none =~= line);
    let fed = line + seq!['\n'];
    lemma_no_return_no_match(fed, rest);
    lemma_no_return_no_match(fed, more);
    law_replace(fed, rest, crlf, lf);
    law_replace(fed, more, cr, lf);
    assert(fed + replace_all(more, cr, lf) =~= line + seq!['\n'] + normalized(rest));
    lemma_no_return_no_match(line, crlf + rest);
    law_replace(line, rest, crlf, lf);
    assert(line + seq!['\r', '\n'] + rest =~= line + crlf + rest);
    assert(line + lf + more =~= fed + more);
    if rest.len() > 0 ==> rest[0] != '\n' {
        let returned = line + seq!['\r'];
        assert forall|k: int| 0 <= k < returned.len() implies !#[trigger] matches_at(
            returned + rest,
            k,
            crlf,
        ) by {
            let s = returned + rest;
            if matches_at(s, k, crlf) {
                assert(s.subrange(k, k + 2)[0] == s[k] && s.subrange(k, k + 2)[1] == s[k + 1]);
                if k < line.len() {
                    assert(s[k] == line[k]);
                } else {
                    assert(s[k + 1] == rest[0]);
                }
            }
        }
        law_replace(returned, rest, crlf, lf);
        lemma_no_return_no_match(line, cr + more);
        law_replace(line, more, cr, lf);
        assert(returned + more =~= line + cr + more);
        assert(line + lf + replace_all(more, cr, lf) =~= line + seq!['\n'] + normalized(rest));
    }
}

proof fn lemma_no_return_no_match(a: Seq<char>, b: Seq<char>)
    requires
        forall|k: int| 0 <= k < a.len() ==> a[k] != '\r',
    ensures
        starts_not_in(a, b, "\r\n"@),
        starts_not_in(a, b, "\r"@),
{
    reveal_strlit("\r\n");
    reveal_strlit("\r");
    let s = a + b;
    assert forall|k: int| 0 <= k < a.len() implies !#[trigger] matches_at(s, k, "\r\n"@) by {
        if matches_at(s, k, "\r\n"@) {
            assert(s.subrange(k, k + 2)[0] == a[k]);
        }
    }
    assert forall|k: int| 0 <= k < a.len() implies !#[trigger] matches_at(s, k, "\r"@) by {
        if matches_at(s, k, "\r"@) {
            assert(s.subrange(k, k + 1)[0] == a[k]);
        }
    }
}

/// The line ending of a file is a carriage return with a line feed where the file has one of these,
/// a carriage return alone where it has only those, and a line feed else.
pub proof fn law_line_ending_of_file(s: Seq<char>)
    ensures
        (exists|k: int| 0 <= k < s.len() - 1 && s[k] == '\r' && #[trigger] s[k + 1] == '\n')
            ==> ending_of(s) == seq!['\r', '\n'],
        !(exists|k: int| 0 <= k < s.len() - 1 && s[k] == '\r' && #[trigger] s[k + 1] == '\n') && (
        exists|k: int| 0 <= k < s.len() && s[k] == '\r') ==> ending_of(s) == seq!['\r'],
        !(exists|k: int| 0 <= k < s.len() && s[k] == '\r') ==> ending_of(s) == seq!['\n'],
{
    reveal_strlit("\r\n");
    reveal_strlit("\r");
    reveal_strlit("\n");
    assert("\r\n"@ =~= seq!['\r', '\n']);
    assert("\r"@ =~= seq!['\r']);
    assert("\n"@ =~= seq!['\n']);
    lemma_find_from(s, "\r\n"@, 0);
    lemma_find_from(s, "\r"@, 0);
    assert forall|k: int| 0 <= k < s.len() - 1 && s[k] == '\r' && #[trigger] s[k + 1] == '\n' implies matches_at(
        s,
        k,
        "\r\n"@,
    ) by {
        assert(s.subrange(k, k + 2) =~= "\r\n"@);
    }
    assert forall|k: int| 0 <= k < s.len() && #[trigger] s[k] == '\r' implies matches_at(
        s,
        k,
        "\r"@,
    ) by {
        assert(s.subrange(k, k + 1) =~= "\r"@);
    }
    if let Some(i) = crate::text::find_from(s, "\r\n"@, 0) {
        assert(s.subrange(i, i + 2)[0] == s[i] && s.subrange(i, i + 2)[1] == s[i + 1]);
    }
    if let Some(i) = crate::text::find_from(s, "\r"@, 0) {
        assert(s.subrange(i, i + 1)[0] == s[i]);
    }
}

// ---------------------------------------------------------------------------
// Names
// ---------------------------------------------------------------------------

/// The characters that have no place in the name of a file, on any system, give way to an underscore
/// each; every other one stays.
pub proof fn law_forbidden_characters(s: Seq<char>, k: int)
    requires
        0 <= k < s.len(),
    ensures
        cleaned(s).len() == s.len(),
        ({
            let c = s[k];
            let bad = c == '<' || c == '>' || c == ':' || c == '"' || c == '/' || c == '\\' || c == '|'
                || c == '?' || c == '*' || c as u32 <= 31 || 127 <= c as u32 <= 159;
            cleaned(s)[k] == if bad {
                '_'
            } else {
                c
            }
        }),
{
}

/// A title that can be the name of a file as it is gives that name, with the extension of Markdown
/// behind it where it lacks it.
pub proof fn law_name_of_title(title: Seq<char>)
    requires
        title.len() > 0,
        is_clean(title),
        trim_of(title) == title,
        title.last() != '.' && title.last() != ' ',
    ensures
        ({
            let l = ascii_lower(title);
            let extended = l.len() >= 3 && l[l.len() - 3] == '.' && l[l.len() - 2] == 'm' && l[l.len()
                - 1] == 'd';
            markdown_name(title) == if extended {
                title
            } else {
                title + seq!['.', 'm', 'd']
            }
        }),
{
    reveal_strlit(".md");
    assert(".md"@ =~= seq!['.', 'm', 'd']);
    assert(cleaned(title) =~= title) by {
        assert forall|k: int| 0 <= k < title.len() implies cleaned(title)[k] == title[k] by {
            assert(!is_forbidden(title[k]));
        }
    }
    assert(!dots_and_spaces()(title[title.len() - 1]));
    lemma_run_back_is(title, dots_and_spaces(), 0);
    assert(title.take(title.len() - 0) =~= title);
    let l = ascii_lower(title);
    if l.len() >= 3 {
        let end = l.skip(l.len() - 3);
        assert(end[0] == l[l.len() - 3] && end[1] == l[l.len() - 2] && end[2] == l[l.len() - 1]);
        if end[0] == '.' && end[1] == 'm' && end[2] == 'd' {
            assert(end =~= ".md"@);
        }
    }
}

/// What a title cannot have at its end, full stops and spaces, gives way; and a title of which nothing
/// is left gives the name of an article without one.
pub proof fn law_name_without_dots(stem: Seq<char>, dots: Seq<char>)
    requires
        is_clean(stem),
        trim_of(stem + dots) == stem + dots,
        stem.len() > 0 ==> stem.last() != '.' && stem.last() != ' ',
        forall|k: int| 0 <= k < dots.len() ==> dots[k] == '.' || dots[k] == ' ',
    ensures
        name_stem(stem + dots) == if stem.len() > 0 {
            stem
        } else {
            "未命名文章"@
        },
{
    let title = stem + dots;
    assert(cleaned(title) =~= title) by {
        assert forall|k: int| 0 <= k < title.len() implies cleaned(title)[k] == title[k] by {
            if k < stem.len() {
                assert(!is_forbidden(stem[k]));
            } else {
                assert(title[k] == dots[k - stem.len()]);
            }
        }
    }
    assert forall|k: int| title.len() - dots.len() <= k < title.len() implies dots_and_spaces()(
        #[trigger] title[k],
    ) by {
        assert(title[k] == dots[k - stem.len()]);
    }
    if stem.len() > 0 {
        assert(title[stem.len() - 1] == stem.last());
    }
    lemma_run_back_is(title, dots_and_spaces(), dots.len() as int);
    assert(title.take(title.len() - dots.len()) =~= stem);
}

/// The files of images are known by these extensions, in capital or small letters.
pub proof fn law_image_extensions(extension: Seq<char>)
    ensures
        ({
            let e = ascii_lower(extension);
            is_image(Some(extension)) <==> e == "png"@ || e == "jpg"@ || e == "jpeg"@ || e == "gif"@
                || e == "webp"@ || e == "svg"@ || e == "bmp"@
        }),
        !is_image(None),
{
}

/// The extension of a name is what follows its last full stop, but for one at its start.
pub proof fn law_extension(stem: Seq<char>, extension: Seq<char>)
    requires
        stem.len() > 0,
        forall|k: int| 0 <= k < extension.len() ==> extension[k] != '.',
    ensures
        name_parts(stem + seq!['.'] + extension) == (stem, Some(extension)),
        name_parts(extension) == (extension, None::<Seq<char>>),
        name_parts(seq!['.'] + extension) == (seq!['.'] + extension, None::<Seq<char>>),
{
    let name = stem + seq!['.'] + extension;
    lemma_last_dot_is(name, name.len() as int, stem.len() as int);
    assert(name.take(stem.len() as int) =~= stem);
    assert(name.skip(stem.len() as int + 1) =~= extension);
    lemma_no_dot(extension, extension.len() as int);
    let hidden = seq!['.'] + extension;
    assert forall|k: int| 1 <= k < hidden.len() implies hidden[k] != '.' by {
        assert(hidden[k] == extension[k - 1]);
    }
    lemma_no_dot(hidden, hidden.len() as int);
}

proof fn lemma_last_dot_is(name: Seq<char>, to: int, at: int)
    requires
        0 < at < to <= name.len(),
        name[at] == '.',
        forall|k: int| at < k < to ==> name[k] != '.',
    ensures
        crate::storage::last_dot(name, to) == Some(at),
    decreases to,
{
    if to - 1 > at {
        lemma_last_dot_is(name, to - 1, at);
    }
}

proof fn lemma_no_dot(name: Seq<char>, to: int)
    requires
        0 <= to <= name.len(),
        forall|k: int| 1 <= k < to ==> name[k] != '.',
    ensures
        crate::storage::last_dot(name, to) is None,
    decreases to,
{
    if to > 1 {
        lemma_no_dot(name, to - 1);
    }
}

// ---------------------------------------------------------------------------
// Addresses
// ---------------------------------------------------------------------------

/// Letters, digits and the marks of a path stand for themselves in an address; every other byte is
/// written as a percent sign and its two hexadecimal digits.
pub proof fn law_bytes_in_addresses(a: Seq<u8>, b: u8)
    ensures
        percent_encoded(a.push(b)) == percent_encoded(a) + percent_byte(b),
        ({
            let c = b as char;
            let plain = 'a' <= c <= 'z' || 'A' <= c <= 'Z' || '0' <= c <= '9' || c == ':' || c == '/'
                || c == '.' || c == '-' || c == '_' || c == '~';
            &&& plain ==> percent_byte(b) == seq![c]
            &&& !plain ==> percent_byte(b).len() == 3 && percent_byte(b)[0] == '%'
        }),
{
    assert(a.push(b).drop_last() =~= a);
}

/// The address of a file has three slashes before its path, one of which is that of the path where it
/// has one; backslashes are written as slashes.
pub proof fn law_address_of_file(path: Seq<char>)
    ensures
        ({
            let encoded = percent_encoded(encode_utf8(replace_all(path, "\\"@, "/"@)));
            &&& encoded.len() > 0 && encoded[0] == '/' ==> file_url(path) == "file://"@ + encoded
            &&& !(encoded.len() > 0 && encoded[0] == '/') ==> file_url(path) == "file:///"@ + encoded
        }),
{
}

/// The preview looks for an image in the file that its address names, at its address where that is one
/// of the web, and else in a file beside the document, or as it is where the document has none.
pub proof fn law_place_of_image(path: Seq<char>, has_base: bool)
    ensures
        image_place("file:///"@ + path, has_base) == (0int, path),
        (path.len() == 0 || path[0] != '/') ==> image_place("file://"@ + path, has_base) == (
            0int,
            path,
        ),
        !has_prefix(path, "file://"@) && is_url(path) ==> image_place(path, has_base) == (
            1int,
            path,
        ),
        !has_prefix(path, "file://"@) && !is_url(path) ==> image_place(path, has_base) == (
            if has_base {
                2int
            } else {
                0int
            },
            path,
        ),
{
    reveal_strlit("file:///");
    reveal_strlit("file://");
    let a = "file:///"@ + path;
    assert(a.take(8) =~= "file:///"@);
    assert(a.skip(8) =~= path);
    let b = "file://"@ + path;
    assert(b.take(7) =~= "file://"@);
    assert(b.skip(7) =~= path);
    if has_prefix(b, "file:///"@) {
        assert(b.take(8)[7] == '/');
        assert(b[7] == path[0]);
    }
    if has_prefix(path, "file:///"@) {
        assert(path.take(7) =~= "file://"@) by {
            assert(path.take(8).take(7) =~= path.take(7));
            assert("file:///"@.take(7) =~= "file://"@);
        }
    }
}

/// An address, but for white space before it, starts with the name of a way to reach it or as the name
/// of a host does.
pub proof fn law_address(value: Seq<char>)
    ensures
        is_url(value) <==> has_prefix(trim_of(value), "https://"@) || has_prefix(
            trim_of(value),
            "http://"@,
        ) || has_prefix(trim_of(value), "mailto:"@) || has_prefix(trim_of(value), "www."@),
{
}

/// Nothing is said where all images can be seen, and else their number.
pub proof fn law_image_warning(count: nat)
    ensures
        count == 0 ==> warning_for(count).len() == 0,
        count > 0 ==> warning_for(count) == "（含 "@ + decimal(count)
            + " 处本地/相对图片，发布后可能无法直接显示）"@,
{
}

// ---------------------------------------------------------------------------
// Offsets
// ---------------------------------------------------------------------------

/// The characters before an offset are those that start before it.
pub proof fn law_characters_before(s: Seq<char>, offset: int, k: int)
    requires
        0 <= k < s.len(),
    ensures
        0 <= chars_before(s, offset) <= s.len(),
        k < chars_before(s, offset) <==> byte_len(s.take(k)) < offset,
    decreases s.len(),
{
    let t = s.drop_last();
    let n = s.len() - 1;
    assert(t =~= s.take(n));
    if k < n {
        lemma_prefix_grows(s, k, n);
        law_characters_before(t, offset, k);
        assert(t.take(k) =~= s.take(k));
    } else if byte_len(t) >= offset {
        if n > 0 {
            law_characters_before(t, offset, n - 1);
        }
    }
}

/// The characters before an offset in code units are those that start before it.
pub proof fn law_characters_before_unit(s: Seq<char>, offset: int, k: int)
    requires
        0 <= k < s.len(),
    ensures
        0 <= chars_before_unit(s, offset) <= s.len(),
        k < chars_before_unit(s, offset) <==> utf16(s.take(k)).len() < offset,
    decreases s.len(),
{
    let t = s.drop_last();
    let n = s.len() - 1;
    assert(t =~= s.take(n));
    if k < n {
        crate::names::lemma_units_bound(t, k);
        law_characters_before_unit(t, offset, k);
        assert(t.take(k) =~= s.take(k));
    } else if utf16(t).len() >= offset {
        if n > 0 {
            law_characters_before_unit(t, offset, n - 1);
        }
    }
}

/// An offset in the one measure is, in the other, the length of the characters before it.
pub proof fn law_offsets(s: Seq<char>, offset: int)
    ensures
        to_utf16_offset(s, offset) == utf16(s.take(chars_before(s, offset))).len(),
        to_utf8_offset(s, offset) == byte_len(s.take(chars_before_unit(s, offset))),
{
}

} // verus!
