//! The names of files, the addresses of images, and offsets in UTF-8 and in UTF-16.

use std::ops::Range;
use vstd::prelude::*;
use vstd::utf8::{
    decode_utf8, encode_utf8, encode_utf8_decode_utf8, encode_utf8_valid_utf8, is_ascii_chars,
    is_ascii_chars_encode_utf8, valid_utf8,
};

use crate::bytes::{char_units, lossy_text, utf16, utf8_lossy};
use crate::editing::{is_url, looks_like_url};
use crate::number::{decimal, to_decimal};
use crate::publishing::{document_title, local_image_count, local_places, title_of, untitled};
use crate::storage::{
    clean_char, clean_name, cleaned, is_clean, is_forbidden, is_last_name, is_plain_path,
    last_name, name_parts, path_name, split_name,
};
use crate::storage_laws::law_last_name;
use crate::text::{
    ascii_lower, byte_len, chars_of, concat2, concat3, ends_with, has_prefix, has_suffix, index_at,
    is_boundary, lemma_boundary, lemma_prefix_grows, lemma_run_back, lemma_run_back_is,
    lemma_trimmed_ends, replace, replace_all, run_back, same_text, slice_of, starts_with, str_len,
    to_ascii_lowercase, trim, trim_of, width_of,
};
use crate::tree::opt_text;

verus! {

// ---------------------------------------------------------------------------
// Names of files
// ---------------------------------------------------------------------------

pub open spec fn dots_and_spaces() -> spec_fn(char) -> bool {
    |c: char| c == '.' || c == ' '
}

/// The title as the start of the name of a file.
pub open spec fn name_stem(title: Seq<char>) -> Seq<char> {
    let t = trim_of(cleaned(title));
    let s = t.take(t.len() - run_back(t, dots_and_spaces()));
    if s.len() == 0 {
        untitled()
    } else {
        s
    }
}

/// The name of a file for an article with this title.
pub open spec fn markdown_name(title: Seq<char>) -> Seq<char> {
    let stem = name_stem(title);
    if has_suffix(ascii_lower(stem), ".md"@) {
        stem
    } else {
        stem + ".md"@
    }
}

/// The name of a file for an article with this title.
pub fn filename_for_title(title: &str) -> (r: String)
    ensures
        r@ == markdown_name(title@),
{
    let cs = chars_of(&trim(&clean_name(title)));
    let mut n: usize = 0;
    while n < cs.len() && (cs[cs.len() - n - 1] == '.' || cs[cs.len() - n - 1] == ' ')
        invariant
            n <= cs.len(),
            forall|k: int|
                cs@.len() - n <= k < cs@.len() ==> dots_and_spaces()(#[trigger] cs@[k]),
        decreases cs.len() - n,
    {
        n = n + 1;
    }
    proof {
        lemma_run_back_is(cs@, dots_and_spaces(), n as int);
        assert(cs@.subrange(0, cs@.len() - n) =~= cs@.take(cs@.len() - n));
    }
    let stem = if n == cs.len() {
        "未命名文章".to_owned()
    } else {
        slice_of(&cs, 0, cs.len() - n)
    };
    if ends_with(&chars_of(&to_ascii_lowercase(&stem)), ".md") {
        stem
    } else {
        concat2(&stem, ".md")
    }
}

/// The name to offer for the file of an article.
pub fn default_markdown_filename(markdown: &str) -> (r: String)
    ensures
        r@ == markdown_name(title_of(markdown@)),
{
    filename_for_title(&document_title(markdown))
}

/// The extension is that of an image.
pub open spec fn is_image(extension: Option<Seq<char>>) -> bool {
    match extension {
        Some(s) => {
            let e = ascii_lower(s);
            e == "png"@ || e == "jpg"@ || e == "jpeg"@ || e == "gif"@ || e == "webp"@ || e
                == "svg"@ || e == "bmp"@
        },
        None => false,
    }
}

/// Whether the extension is that of an image.
pub fn is_image_extension(extension: Option<&str>) -> (r: bool)
    ensures
        r == is_image(
            match extension {
                Some(s) => Some(s@),
                None => None,
            },
        ),
{
    match extension {
        Some(s) => {
            let e = to_ascii_lowercase(s);
            same_text(&e, "png") || same_text(&e, "jpg") || same_text(&e, "jpeg") || same_text(
                &e,
                "gif",
            ) || same_text(&e, "webp") || same_text(&e, "svg") || same_text(&e, "bmp")
        },
        None => false,
    }
}

/// The last name of a path is that of an image, by its extension.
pub open spec fn is_image_name(name: Option<Seq<char>>) -> bool {
    match name {
        Some(s) => is_image(name_parts(s).1),
        None => false,
    }
}

/// Whether the last name of a path is that of an image.
pub fn is_image_file_name(name: Option<String>) -> (r: bool)
    ensures
        r == is_image_name(opt_text(name)),
{
    match name {
        Some(name) => {
            let (_, extension) = split_name(&name);
            match &extension {
                Some(s) => is_image_extension(Some(s.as_str())),
                None => false,
            }
        },
        None => false,
    }
}

/// Whether the path is that of an image, by the extension of its last name. Which part is the last
/// name of a path that holds a backslash, or starts as the name of a drive or a share, depends on the
/// system.
pub fn is_image_path(path: &str) -> (r: bool)
    ensures
        exists|name: Option<Seq<char>>|
            is_last_name(path@, name) && r == #[trigger] is_image_name(name),
        is_plain_path(path@) ==> r == is_image_name(path_name(path@)),
{
    let name = last_name(path);
    let ghost found = opt_text(name);
    let r = is_image_file_name(name);
    assert(r == is_image_name(found));
    proof {
        law_last_name(path@, found);
    }
    r
}

// ---------------------------------------------------------------------------
// Addresses
// ---------------------------------------------------------------------------

/// The byte stands for itself in an address.
pub open spec fn is_plain_byte(b: u8) -> bool {
    97 <= b <= 122 || 65 <= b <= 90 || 48 <= b <= 57 || b == 58 || b == 47 || b == 46 || b == 45
        || b == 95 || b == 126
}

/// A hexadecimal digit.
pub open spec fn hex_digit(n: int) -> char {
    if n < 10 {
        ((48 + n) as u8) as char
    } else {
        ((55 + n) as u8) as char
    }
}

/// A byte as it stands in an address.
pub open spec fn percent_byte(b: u8) -> Seq<char> {
    if is_plain_byte(b) {
        seq![b as char]
    } else {
        seq!['%', hex_digit(b as int / 16), hex_digit(b as int % 16)]
    }
}

/// Bytes as they stand in an address.
pub open spec fn percent_encoded(bytes: Seq<u8>) -> Seq<char>
    decreases bytes.len(),
{
    if bytes.len() == 0 {
        Seq::empty()
    } else {
        percent_encoded(bytes.drop_last()) + percent_byte(bytes.last())
    }
}

fn hex_char(n: u8) -> (c: char)
    requires
        n < 16,
    ensures
        c == hex_digit(n as int),
{
    if n < 10 {
        (48 + n) as char
    } else {
        (55 + n) as char
    }
}

/// A path as it stands in an address.
pub fn percent_encode_path(path: &str) -> (r: String)
    ensures
        r@ == percent_encoded(encode_utf8(path@)),
{
    let bytes = path.as_bytes();
    let mut out = String::new();
    let mut i: usize = 0;
    while i < bytes.len()
        invariant
            i <= bytes@.len(),
            out@ == percent_encoded(bytes@.take(i as int)),
        decreases bytes@.len() - i,
    {
        let b: u8 = bytes[i];
        let ghost before = out@;
        assert(bytes@.take(i + 1).drop_last() =~= bytes@.take(i as int));
        if (97 <= b && b <= 122) || (65 <= b && b <= 90) || (48 <= b && b <= 57) || b == 58 || b
            == 47 || b == 46 || b == 45 || b == 95 || b == 126 {
            out.push(b as char);
        } else {
            out.push('%');
            out.push(hex_char(b / 16));
            out.push(hex_char(b % 16));
        }
        assert(out@ =~= before + percent_byte(b));
        i = i + 1;
    }
    assert(bytes@.take(i as int) =~= bytes@);
    out
}

/// The address of a file.
pub open spec fn file_url(path: Seq<char>) -> Seq<char> {
    let encoded = percent_encoded(encode_utf8(replace_all(path, "\\"@, "/"@)));
    if encoded.len() > 0 && encoded[0] == '/' {
        "file://"@ + encoded
    } else {
        "file:///"@ + encoded
    }
}

/// The address of a file.
pub fn markdown_image_url(path: &str) -> (r: String)
    ensures
        r@ == file_url(path@),
{
    proof {
        reveal_strlit("\\");
    }
    let encoded = percent_encode_path(&replace(path, "\\", "/"));
    let cs = chars_of(&encoded);
    if cs.len() > 0 && cs[0] == '/' {
        concat2("file://", &encoded)
    } else {
        concat2("file:///", &encoded)
    }
}

/// The value of a hexadecimal digit.
pub open spec fn hex_number(b: u8) -> Option<u8> {
    if 48 <= b <= 57 {
        Some((b - 48) as u8)
    } else if 97 <= b <= 102 {
        Some((b - 87) as u8)
    } else if 65 <= b <= 70 {
        Some((b - 55) as u8)
    } else {
        None
    }
}

/// The value of a hexadecimal digit.
pub fn hex_value(byte: u8) -> (r: Option<u8>)
    ensures
        r == hex_number(byte),
{
    if 48 <= byte && byte <= 57 {
        Some(byte - 48)
    } else if 97 <= byte && byte <= 102 {
        Some(byte - 87)
    } else if 65 <= byte && byte <= 70 {
        Some(byte - 55)
    } else {
        None
    }
}

/// The bytes start with a percent sign and two hexadecimal digits.
pub open spec fn starts_escape(bytes: Seq<u8>) -> bool {
    bytes.len() >= 3 && bytes[0] == 37 && hex_number(bytes[1]) is Some && hex_number(bytes[2])
        is Some
}

/// The bytes that an address stands for.
pub open spec fn percent_bytes(bytes: Seq<u8>) -> Seq<u8>
    decreases bytes.len(),
{
    if bytes.len() == 0 {
        Seq::empty()
    } else if starts_escape(bytes) {
        seq![(hex_number(bytes[1]).unwrap() * 16 + hex_number(bytes[2]).unwrap()) as u8]
            + percent_bytes(bytes.skip(3))
    } else {
        seq![bytes[0]] + percent_bytes(bytes.skip(1))
    }
}

/// The bytes that an address stands for.
pub fn percent_decode_bytes(input: &str) -> (r: Vec<u8>)
    ensures
        r@ == percent_bytes(encode_utf8(input@)),
{
    let bytes = input.as_bytes();
    let mut out: Vec<u8> = Vec::new();
    let mut i: usize = 0;
    assert(bytes@.skip(0) =~= bytes@);
    assert(out@ + percent_bytes(bytes@) =~= percent_bytes(bytes@));
    while i < bytes.len()
        invariant
            i <= bytes@.len(),
            out@ + percent_bytes(bytes@.skip(i as int)) == percent_bytes(bytes@),
        decreases bytes@.len() - i,
    {
        let ghost before = out@;
        let ghost rest = bytes@.skip(i as int);
        assert(rest[0] == bytes@[i as int]);
        if bytes[i] == 37 && bytes.len() - i >= 3 {
            assert(rest[1] == bytes@[i + 1] && rest[2] == bytes@[i + 2]);
            if let (Some(high), Some(low)) = (hex_value(bytes[i + 1]), hex_value(bytes[i + 2])) {
                out.push(high * 16 + low);
                proof {
                    assert(rest.skip(3) =~= bytes@.skip(i + 3));
                    assert(out@ + percent_bytes(rest.skip(3)) =~= before + (seq![
                        (high * 16 + low) as u8,
                    ] + percent_bytes(rest.skip(3))));
                }
                i = i + 3;
                continue;
            }
        }
        out.push(bytes[i]);
        proof {
            assert(rest.skip(1) =~= bytes@.skip(i + 1));
            assert(out@ + percent_bytes(rest.skip(1)) =~= before + (seq![rest[0]] + percent_bytes(
                rest.skip(1),
            )));
        }
        i = i + 1;
    }
    assert(out@ + Seq::empty() =~= out@);
    out
}

/// The text that an address stands for.
pub fn percent_decode(input: &str) -> (r: String)
    ensures
        r@ == lossy_text(percent_bytes(encode_utf8(input@))),
        valid_utf8(percent_bytes(encode_utf8(input@))) ==> r@ == decode_utf8(
            percent_bytes(encode_utf8(input@)),
        ),
{
    utf8_lossy(percent_decode_bytes(input).as_slice())
}

/// Where the preview finds an image.
#[derive(Clone, Debug, PartialEq, Eq)]
pub enum PreviewImage {
    /// In a file with this path.
    File(String),
    /// At this address.
    Url(String),
    /// In a file with this path from the directory of the document.
    Beside(String),
}

/// Where the preview finds an image, by its address without percent signs.
pub open spec fn image_place(decoded: Seq<char>, has_base: bool) -> (int, Seq<char>) {
    if has_prefix(decoded, "file:///"@) {
        (0, decoded.skip(8))
    } else if has_prefix(decoded, "file://"@) {
        (0, decoded.skip(7))
    } else if is_url(decoded) {
        (1, decoded)
    } else if has_base {
        (2, decoded)
    } else {
        (0, decoded)
    }
}

impl View for PreviewImage {
    type V = (int, Seq<char>);

    open spec fn view(&self) -> (int, Seq<char>) {
        match *self {
            PreviewImage::File(path) => (0, path@),
            PreviewImage::Url(url) => (1, url@),
            PreviewImage::Beside(path) => (2, path@),
        }
    }
}

/// Where the preview finds an image, by its address without percent signs.
pub fn preview_image_place(decoded: &str, has_base: bool) -> (r: PreviewImage)
    ensures
        r@ == image_place(decoded@, has_base),
{
    proof {
        reveal_strlit("file:///");
        reveal_strlit("file://");
    }
    let cs = chars_of(decoded);
    if starts_with(&cs, "file:///") {
        assert(cs@.subrange(8, cs@.len() as int) =~= cs@.skip(8));
        PreviewImage::File(slice_of(&cs, 8, cs.len()))
    } else if starts_with(&cs, "file://") {
        assert(cs@.subrange(7, cs@.len() as int) =~= cs@.skip(7));
        PreviewImage::File(slice_of(&cs, 7, cs.len()))
    } else if looks_like_url(decoded) {
        PreviewImage::Url(decoded.to_owned())
    } else if has_base {
        PreviewImage::Beside(decoded.to_owned())
    } else {
        PreviewImage::File(decoded.to_owned())
    }
}

/// Where the preview finds an image.
pub fn preview_image_source(url: &str, has_base: bool) -> (r: PreviewImage)
    ensures
        r@ == image_place(lossy_text(percent_bytes(encode_utf8(url@))), has_base),
{
    preview_image_place(&percent_decode(url), has_base)
}

// ---------------------------------------------------------------------------
// Warnings and targets
// ---------------------------------------------------------------------------

/// What is said of images that others will not see.
pub open spec fn warning_for(count: nat) -> Seq<char> {
    if count > 0 {
        "（含 "@ + decimal(count) + " 处本地/相对图片，发布后可能无法直接显示）"@
    } else {
        Seq::empty()
    }
}

/// What is said of this number of images that others will not see.
pub fn image_warning(count: usize) -> (r: String)
    ensures
        r@ == warning_for(count as nat),
{
    if count > 0 {
        concat3(
            "（含 ",
            &to_decimal(count as u64),
            " 处本地/相对图片，发布后可能无法直接显示）",
        )
    } else {
        let none = String::new();
        assert(none@ =~= Seq::empty());
        none
    }
}

/// What is said of the images of an article that others will not see.
pub fn local_image_warning(markdown: &str) -> (r: String)
    ensures
        local_places(markdown@) <= usize::MAX ==> r@ == warning_for(local_places(markdown@)),
{
    image_warning(local_image_count(markdown))
}

/// Whether Typecho is what the button for publishing stands for.
pub fn typecho_is_primary_publish_target(notion_configured: bool, typecho_configured: bool) -> (r:
    bool)
    ensures
        r == (typecho_configured && !notion_configured),
{
    typecho_configured && !notion_configured
}

// ---------------------------------------------------------------------------
// Offsets
// ---------------------------------------------------------------------------

/// The number of characters that start before a byte offset.
pub open spec fn chars_before(s: Seq<char>, offset: int) -> int
    decreases s.len(),
{
    if s.len() == 0 {
        0
    } else if byte_len(s.drop_last()) < offset {
        s.len() as int
    } else {
        chars_before(s.drop_last(), offset)
    }
}

/// The number of characters that start before an offset in UTF-16 code units.
pub open spec fn chars_before_unit(s: Seq<char>, offset: int) -> int
    decreases s.len(),
{
    if s.len() == 0 {
        0
    } else if utf16(s.drop_last()).len() < offset {
        s.len() as int
    } else {
        chars_before_unit(s.drop_last(), offset)
    }
}

/// An offset in bytes as an offset in UTF-16 code units.
pub open spec fn to_utf16_offset(s: Seq<char>, offset: int) -> int {
    utf16(s.take(chars_before(s, offset))).len() as int
}

/// An offset in UTF-16 code units as an offset in bytes.
pub open spec fn to_utf8_offset(s: Seq<char>, offset: int) -> int {
    byte_len(s.take(chars_before_unit(s, offset))) as int
}

/// A text has no more code units than bytes, and a longer start of it has more of them.
pub proof fn lemma_units_bound(s: Seq<char>, i: int)
    requires
        0 <= i <= s.len(),
    ensures
        utf16(s.take(i)).len() + (s.len() - i) <= utf16(s).len(),
        utf16(s).len() <= byte_len(s),
        s.len() <= utf16(s).len(),
    decreases s.len(),
{
    if s.len() > 0 {
        vstd::utf8::char_is_scalar(s.last());
        if i < s.len() {
            lemma_units_bound(s.drop_last(), i);
            assert(s.drop_last().take(i) =~= s.take(i));
        } else {
            lemma_units_bound(s.drop_last(), i - 1);
            assert(s.take(i) =~= s);
        }
    } else {
        assert(s.take(i) =~= s);
    }
}

/// The first character that starts at or behind the offset comes after all that start before it.
proof fn lemma_chars_before(s: Seq<char>, offset: int, n: int)
    requires
        0 <= n <= s.len(),
        n > 0 ==> byte_len(s.take(n - 1)) < offset,
        n < s.len() ==> byte_len(s.take(n)) >= offset,
    ensures
        chars_before(s, offset) == n,
    decreases s.len(),
{
    if s.len() > 0 {
        assert(s.drop_last() =~= s.take(s.len() - 1));
        if n < s.len() {
            let t = s.drop_last();
            lemma_prefix_grows(s, n, s.len() - 1);
            assert(n > 0 ==> t.take(n - 1) =~= s.take(n - 1));
            assert(n <= t.len() ==> t.take(n) =~= s.take(n));
            lemma_chars_before(t, offset, n);
        }
    }
}

proof fn lemma_chars_before_unit(s: Seq<char>, offset: int, n: int)
    requires
        0 <= n <= s.len(),
        n > 0 ==> utf16(s.take(n - 1)).len() < offset,
        n < s.len() ==> utf16(s.take(n)).len() >= offset,
    ensures
        chars_before_unit(s, offset) == n,
    decreases s.len(),
{
    if s.len() > 0 {
        assert(s.drop_last() =~= s.take(s.len() - 1));
        if n < s.len() {
            let t = s.drop_last();
            lemma_units_bound(t, n);
            assert(n > 0 ==> t.take(n - 1) =~= s.take(n - 1));
            assert(n <= t.len() ==> t.take(n) =~= s.take(n));
            lemma_chars_before_unit(t, offset, n);
        }
    }
}

fn units_of(c: char) -> (n: usize)
    ensures
        n == char_units(c).len(),
{
    if (c as u32) < 0x10000 {
        1
    } else {
        2
    }
}

/// An offset in bytes as an offset in UTF-16 code units.
pub fn utf16_offset_from_utf8(text: &str, byte_offset: usize) -> (r: usize)
    ensures
        r == to_utf16_offset(text@, byte_offset as int),
{
    let cs = chars_of(text);
    let total: usize = str_len(text);
    let mut i: usize = 0;
    let mut at: usize = 0;
    let mut units: usize = 0;
    assert(cs@.take(0) =~= Seq::empty());
    while i < cs.len() && at < byte_offset
        invariant
            i <= cs.len(),
            cs@ == text@,
            total == byte_len(text@),
            at == byte_len(cs@.take(i as int)),
            units == utf16(cs@.take(i as int)).len(),
            i > 0 ==> byte_len(cs@.take(i - 1)) < byte_offset,
        decreases cs.len() - i,
    {
        proof {
            assert(cs@.take(i + 1).drop_last() =~= cs@.take(i as int));
            lemma_prefix_grows(cs@, i as int, i + 1);
            lemma_units_bound(cs@.take(i + 1), i as int);
        }
        at = at + width_of(cs[i]);
        units = units + units_of(cs[i]);
        i = i + 1;
    }
    proof {
        lemma_chars_before(text@, byte_offset as int, i as int);
    }
    units
}

/// A range in bytes as a range in UTF-16 code units.
pub fn utf16_range_from_utf8(text: &str, range: Range<usize>) -> (r: Range<usize>)
    ensures
        r.start == to_utf16_offset(text@, range.start as int),
        r.end == to_utf16_offset(text@, range.end as int),
{
    utf16_offset_from_utf8(text, range.start)..utf16_offset_from_utf8(text, range.end)
}

/// An offset in UTF-16 code units as an offset in bytes.
pub fn utf8_offset_from_utf16(text: &str, offset: usize) -> (r: usize)
    ensures
        r == to_utf8_offset(text@, offset as int),
{
    let cs = chars_of(text);
    let total: usize = str_len(text);
    let mut i: usize = 0;
    let mut at: usize = 0;
    let mut units: usize = 0;
    assert(cs@.take(0) =~= Seq::empty());
    while i < cs.len() && units < offset
        invariant
            i <= cs.len(),
            cs@ == text@,
            total == byte_len(text@),
            at == byte_len(cs@.take(i as int)),
            units == utf16(cs@.take(i as int)).len(),
            i > 0 ==> utf16(cs@.take(i - 1)).len() < offset,
        decreases cs.len() - i,
    {
        proof {
            assert(cs@.take(i + 1).drop_last() =~= cs@.take(i as int));
            lemma_prefix_grows(cs@, i as int, i + 1);
            lemma_units_bound(cs@.take(i + 1), i as int);
        }
        at = at + width_of(cs[i]);
        units = units + units_of(cs[i]);
        i = i + 1;
    }
    proof {
        lemma_chars_before_unit(text@, offset as int, i as int);
    }
    at
}

/// A range in UTF-16 code units as a range in bytes.
pub fn utf16_range_to_utf8(text: &str, range: &Range<usize>) -> (r: Range<usize>)
    ensures
        r.start == to_utf8_offset(text@, range.start as int),
        r.end == to_utf8_offset(text@, range.end as int),
{
    utf8_offset_from_utf16(text, range.start)..utf8_offset_from_utf16(text, range.end)
}

// ---------------------------------------------------------------------------
// Laws
// ---------------------------------------------------------------------------

/// An offset between two characters comes back from UTF-16 as it was.
pub proof fn law_offset_round_trip(s: Seq<char>, offset: int)
    requires
        is_boundary(s, offset),
    ensures
        to_utf8_offset(s, to_utf16_offset(s, offset)) == offset,
{
    let n = index_at(s, offset);
    lemma_boundary(s, offset);
    if n > 0 {
        lemma_prefix_grows(s, n - 1, n);
    }
    lemma_chars_before(s, offset, n);
    let units = utf16(s.take(n)).len() as int;
    if n > 0 {
        lemma_units_bound(s.take(n), n - 1);
        assert(s.take(n).take(n - 1) =~= s.take(n - 1));
    }
    lemma_chars_before_unit(s, units, n);
}

/// The name of a file for an article ends in the extension of Markdown, has nothing but characters for
/// the name of a file, and is not the extension alone.
pub proof fn law_markdown_name(title: Seq<char>)
    ensures
        has_suffix(ascii_lower(markdown_name(title)), ".md"@),
        is_clean(markdown_name(title)),
        name_stem(title).len() > 0,
{
    reveal_strlit(".md");
    reveal_strlit("未命名文章");
    let c = cleaned(title);
    let t = trim_of(c);
    lemma_trimmed_ends(c);
    crate::text::lemma_run(c, crate::text::white());
    let start = crate::text::trim_start_of(c);
    lemma_run_back(start, crate::text::white());
    lemma_run_back(t, dots_and_spaces());
    let stem = name_stem(title);
    assert(is_clean(stem)) by {
        assert forall|k: int| 0 <= k < stem.len() implies !is_forbidden(#[trigger] stem[k]) by {
            if stem != untitled() {
                let n = crate::text::run(c, crate::text::white()) as int;
                assert(stem[k] == t[k]);
                assert(t[k] == start[k]);
                assert(start[k] == c[n + k]);
                assert(c[n + k] == clean_char(title[n + k]));
            }
        }
    }
    let name = markdown_name(title);
    if !has_suffix(ascii_lower(stem), ".md"@) {
        let w = ascii_lower(name);
        assert(w.skip(w.len() - 3) =~= ".md"@) by {
            assert(w[w.len() - 3] == '.' && w[w.len() - 2] == 'm' && w[w.len() - 1] == 'd');
        }
        assert forall|k: int| 0 <= k < name.len() implies !is_forbidden(#[trigger] name[k]) by {
            if k < stem.len() {
                assert(name[k] == stem[k]);
            } else {
                assert(name[k] == ".md"@[k - stem.len()]);
            }
        }
    }
}

proof fn lemma_hex(n: int)
    requires
        0 <= n < 16,
    ensures
        hex_number(hex_digit(n) as u8) == Some(n as u8),
        (hex_digit(n) as u32) < 0x80,
{
}

/// Percent signs and plain bytes are ASCII.
proof fn lemma_encoded_ascii(bytes: Seq<u8>)
    ensures
        is_ascii_chars(percent_encoded(bytes)),
    decreases bytes.len(),
{
    if bytes.len() > 0 {
        let a = percent_encoded(bytes.drop_last());
        lemma_encoded_ascii(bytes.drop_last());
        let b = bytes.last();
        let e = percent_byte(b);
        lemma_hex(b as int / 16);
        lemma_hex(b as int % 16);
        assert forall|k: int| 0 <= k < (a + e).len() implies '\0' <= #[trigger] (a + e)[k]
            <= '\u{7f}' by {
            if k < a.len() {
                assert((a + e)[k] == a[k]);
            } else {
                assert((a + e)[k] == e[k - a.len()]);
            }
        }
    }
}

/// The bytes of ASCII characters.
pub open spec fn ascii_bytes(s: Seq<char>) -> Seq<u8> {
    s.map_values(|c: char| c as u8)
}

proof fn lemma_encoded_concat(a: Seq<u8>, b: Seq<u8>)
    ensures
        percent_encoded(a + b) == percent_encoded(a) + percent_encoded(b),
    decreases b.len(),
{
    if b.len() == 0 {
        assert(a + b =~= a);
        assert(percent_encoded(a) + Seq::empty() =~= percent_encoded(a));
    } else {
        assert((a + b).drop_last() =~= a + b.drop_last());
        lemma_encoded_concat(a, b.drop_last());
        assert(percent_encoded(a + b) =~= percent_encoded(a) + percent_encoded(b));
    }
}

proof fn lemma_percent_back(bytes: Seq<u8>)
    ensures
        percent_bytes(ascii_bytes(percent_encoded(bytes))) == bytes,
    decreases bytes.len(),
{
    if bytes.len() == 0 {
        assert(ascii_bytes(percent_encoded(bytes)) =~= Seq::empty());
        assert(percent_bytes(ascii_bytes(percent_encoded(bytes))) =~= bytes);
    } else {
        let b = bytes[0];
        let one = seq![b];
        let rest = bytes.skip(1);
        assert(bytes =~= one + rest);
        lemma_encoded_concat(one, rest);
        assert(percent_encoded(one) =~= percent_byte(b)) by {
            reveal_with_fuel(percent_encoded, 2);
            assert(one.drop_last() =~= Seq::empty());
        }
        lemma_percent_back(rest);
        let w = ascii_bytes(percent_encoded(bytes));
        let more = ascii_bytes(percent_encoded(rest));
        lemma_hex(b as int / 16);
        lemma_hex(b as int % 16);
        if is_plain_byte(b) {
            assert(w[0] == b);
            assert(w.skip(1) =~= more);
        } else {
            assert(w[0] == 37);
            assert(w[1] == hex_digit(b as int / 16) as u8);
            assert(w[2] == hex_digit(b as int % 16) as u8);
            assert(w.skip(3) =~= more);
        }
        assert(one + rest =~= bytes);
    }
}

/// What was written into an address is read out of it again.
pub proof fn law_percent_round_trip(s: Seq<char>)
    ensures
        percent_bytes(encode_utf8(percent_encoded(encode_utf8(s)))) == encode_utf8(s),
        valid_utf8(percent_bytes(encode_utf8(percent_encoded(encode_utf8(s))))),
        decode_utf8(percent_bytes(encode_utf8(percent_encoded(encode_utf8(s))))) == s,
{
    let bytes = encode_utf8(s);
    let e = percent_encoded(bytes);
    lemma_encoded_ascii(bytes);
    assert(is_ascii_chars(e));
    is_ascii_chars_encode_utf8(e);
    assert(encode_utf8(e) =~= ascii_bytes(e));
    lemma_percent_back(bytes);
    encode_utf8_valid_utf8(s);
    encode_utf8_decode_utf8(s);
}

} // verus!
