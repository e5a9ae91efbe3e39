//! Documents on disk: their encoding, their line ending, and the text that the editor works on.

use vstd::prelude::*;
use vstd::utf8::{
    codepoint_width_3, decode_utf8, decode_utf8_encode_utf8, encode_utf8, encode_utf8_decode_utf8,
    encode_utf8_first_scalar, encode_utf8_valid_utf8, valid_utf8,
};

use crate::bytes::{
    gbk_decode, gbk_encode, gbk_encoding, gbk_text, law_utf16_injective, utf16, utf16_error,
    utf16_text, utf16_units, utf8_bytes, utf8_error, utf8_text,
};
use crate::text::{
    concat2, contains, contains_text, has_prefix, lemma_find_from, matches_at, replace,
    replace_all,
};

verus! {

/// The encoding of a file.
#[derive(Clone, Copy, Debug, PartialEq, Eq, Structural)]
pub enum FileEncoding {
    Utf8,
    Utf8Bom,
    Utf16Le,
    Utf16Be,
    Gbk,
}

/// A document that was read: its text with line feeds, and how it was stored.
#[derive(Clone, Debug)]
pub struct LoadedDocument {
    pub content: String,
    pub line_ending: String,
    pub encoding: FileEncoding,
}

// ---------------------------------------------------------------------------
// Line endings
// ---------------------------------------------------------------------------

/// The text with a line feed for every line ending.
pub open spec fn normalized(s: Seq<char>) -> Seq<char> {
    replace_all(replace_all(s, "\r\n"@, "\n"@), "\r"@, "\n"@)
}

/// The line ending of a text, as the first that occurs of the three.
pub open spec fn ending_of(s: Seq<char>) -> Seq<char> {
    if contains_text(s, "\r\n"@) {
        "\r\n"@
    } else if contains_text(s, "\r"@) {
        "\r"@
    } else {
        "\n"@
    }
}

/// The text with a line ending in place of every line feed.
pub open spec fn with_ending(s: Seq<char>, ending: Seq<char>) -> Seq<char> {
    replace_all(s, "\n"@, ending)
}

/// The text with a line feed for every line ending.
pub fn normalize_newlines(content: String) -> (r: String)
    ensures
        r@ == normalized(content@),
{
    proof {
        reveal_strlit("\r\n");
        reveal_strlit("\r");
    }
    let joined = replace(&content, "\r\n", "\n");
    replace(&joined, "\r", "\n")
}

/// The text with line feeds, and the line ending that it had.
pub fn prepare_content(content: String) -> (r: (String, String))
    ensures
        r.0@ == normalized(content@),
        r.1@ == ending_of(content@),
{
    let line_ending = if contains(&content, "\r\n") {
        "\r\n".to_owned()
    } else if contains(&content, "\r") {
        "\r".to_owned()
    } else {
        "\n".to_owned()
    };
    (normalize_newlines(content), line_ending)
}

impl LoadedDocument {
    /// A document of some text.
    pub fn new(content: String, encoding: FileEncoding) -> (r: LoadedDocument)
        ensures
            r.content@ == normalized(content@),
            r.line_ending@ == ending_of(content@),
            r.encoding == encoding,
    {
        let (content, line_ending) = prepare_content(content);
        LoadedDocument { content, line_ending, encoding }
    }
}

// ---------------------------------------------------------------------------
// Encodings
// ---------------------------------------------------------------------------

pub open spec fn utf8_mark() -> Seq<u8> {
    seq![0xEFu8, 0xBBu8, 0xBFu8]
}

pub open spec fn utf16_mark(little_endian: bool) -> Seq<u8> {
    if little_endian {
        seq![0xFFu8, 0xFEu8]
    } else {
        seq![0xFEu8, 0xFFu8]
    }
}

pub open spec fn starts_bytes(bytes: Seq<u8>, mark: Seq<u8>) -> bool {
    mark.len() <= bytes.len() && bytes.take(mark.len() as int) == mark
}

/// The two bytes of a UTF-16 code unit.
pub open spec fn unit_bytes(unit: u16, little_endian: bool) -> Seq<u8> {
    let low = (unit % 256) as u8;
    let high = (unit / 256) as u8;
    if little_endian {
        seq![low, high]
    } else {
        seq![high, low]
    }
}

pub open spec fn units_bytes(units: Seq<u16>, little_endian: bool) -> Seq<u8>
    decreases units.len(),
{
    if units.len() == 0 {
        Seq::empty()
    } else {
        units_bytes(units.drop_last(), little_endian) + unit_bytes(units.last(), little_endian)
    }
}

/// The UTF-16 code unit of two bytes.
pub open spec fn unit_at(bytes: Seq<u8>, k: int, little_endian: bool) -> u16 {
    if little_endian {
        (bytes[2 * k] + 256 * bytes[2 * k + 1]) as u16
    } else {
        (256 * bytes[2 * k] + bytes[2 * k + 1]) as u16
    }
}

/// The UTF-16 code units of an even number of bytes.
pub open spec fn bytes_units(bytes: Seq<u8>, little_endian: bool) -> Seq<u16> {
    Seq::new((bytes.len() / 2) as nat, |k: int| unit_at(bytes, k, little_endian))
}

/// The text with these code units, if there is one.
pub open spec fn units_text(units: Seq<u16>) -> Option<Seq<char>> {
    if exists|s: Seq<char>| #[trigger] utf16(s) == units {
        Some(choose|s: Seq<char>| #[trigger] utf16(s) == units)
    } else {
        None
    }
}

/// The text of UTF-16 bytes without a byte order mark, or the message for bytes that are none.
pub open spec fn utf16_decoded(bytes: Seq<u8>, little_endian: bool) -> Result<Seq<char>, Seq<char>> {
    let units = bytes_units(bytes, little_endian);
    if bytes.len() % 2 != 0 {
        Err("UTF-16 文件损坏：字节长度不是偶数"@)
    } else {
        match units_text(units) {
            Some(s) => Ok(s),
            None => Err("UTF-16 解码失败："@ + utf16_error(units)),
        }
    }
}

/// The text of a file, with its own line endings, and its encoding; or the message for a file that
/// cannot be read. A byte order mark decides; without one a file is UTF-8 if it can be, else GBK.
pub open spec fn decoded(bytes: Seq<u8>) -> Result<(Seq<char>, FileEncoding), Seq<char>> {
    if starts_bytes(bytes, utf8_mark()) {
        if valid_utf8(bytes.skip(3)) {
            Ok((decode_utf8(bytes.skip(3)), FileEncoding::Utf8Bom))
        } else {
            Err("UTF-8 解码失败："@ + utf8_error(bytes.skip(3)))
        }
    } else if starts_bytes(bytes, utf16_mark(true)) {
        match utf16_decoded(bytes.skip(2), true) {
            Ok(s) => Ok((s, FileEncoding::Utf16Le)),
            Err(e) => Err(e),
        }
    } else if starts_bytes(bytes, utf16_mark(false)) {
        match utf16_decoded(bytes.skip(2), false) {
            Ok(s) => Ok((s, FileEncoding::Utf16Be)),
            Err(e) => Err(e),
        }
    } else if valid_utf8(bytes) {
        Ok((decode_utf8(bytes), FileEncoding::Utf8))
    } else {
        Ok((gbk_text(bytes), FileEncoding::Gbk))
    }
}

/// The bytes of a text in an encoding, or the message where it cannot be encoded.
pub open spec fn encoded(text: Seq<char>, encoding: FileEncoding) -> Result<Seq<u8>, Seq<char>> {
    match encoding {
        FileEncoding::Utf8 => Ok(encode_utf8(text)),
        FileEncoding::Utf8Bom => Ok(utf8_mark() + encode_utf8(text)),
        FileEncoding::Utf16Le => Ok(utf16_mark(true) + units_bytes(utf16(text), true)),
        FileEncoding::Utf16Be => Ok(utf16_mark(false) + units_bytes(utf16(text), false)),
        FileEncoding::Gbk => if gbk_encoding(text).1 {
            Err("保存失败：当前内容包含 GBK 无法表示的字符"@)
        } else {
            Ok(gbk_encoding(text).0)
        },
    }
}

fn copy_from(bytes: &[u8], from: usize) -> (v: Vec<u8>)
    requires
        from <= bytes@.len(),
    ensures
        v@ == bytes@.skip(from as int),
{
    let mut v: Vec<u8> = Vec::new();
    let mut i: usize = from;
    while i < bytes.len()
        invariant
            from <= i <= bytes@.len(),
            v@ == bytes@.subrange(from as int, i as int),
        decreases bytes@.len() - i,
    {
        v.push(bytes[i]);
        i = i + 1;
        assert(v@ =~= bytes@.subrange(from as int, i as int));
    }
    assert(v@ =~= bytes@.skip(from as int));
    v
}

fn decode_utf16_bytes(bytes: &[u8], from: usize, little_endian: bool) -> (r: Result<String, String>)
    requires
        from <= bytes@.len(),
    ensures
        match r {
            Ok(s) => utf16_decoded(bytes@.skip(from as int), little_endian) == Ok::<
                Seq<char>,
                Seq<char>,
            >(s@),
            Err(e) => utf16_decoded(bytes@.skip(from as int), little_endian) == Err::<
                Seq<char>,
                Seq<char>,
            >(e@),
        },
{
    let ghost rest = bytes@.skip(from as int);
    let total: usize = bytes.len();
    let len: usize = total - from;
    if len % 2 != 0 {
        return Err("UTF-16 文件损坏：字节长度不是偶数".to_owned());
    }
    let mut units: Vec<u16> = Vec::new();
    let mut k: usize = 0;
    while k < len / 2
        invariant
            k <= len / 2,
            total == bytes@.len(),
            from + len == total,
            rest == bytes@.skip(from as int),
            units@ == bytes_units(rest, little_endian).take(k as int),
        decreases len / 2 - k,
    {
        let a: u16 = bytes[from + 2 * k] as u16;
        let b: u16 = bytes[from + 2 * k + 1] as u16;
        assert(rest[2 * k] == a && rest[2 * k + 1] == b);
        let unit: u16 = if little_endian {
            a + 256 * b
        } else {
            256 * a + b
        };
        units.push(unit);
        k = k + 1;
        assert(units@ =~= bytes_units(rest, little_endian).take(k as int));
    }
    assert(units@ =~= bytes_units(rest, little_endian));
    match utf16_text(units.as_slice()) {
        Ok(s) => {
            proof {
                let t = choose|t: Seq<char>| #[trigger] utf16(t) == units@;
                assert(utf16(s@) == units@);
                law_utf16_injective(s@, t);
            }
            Ok(s)
        },
        Err(e) => Err(concat2("UTF-16 解码失败：", &e)),
    }
}

/// Reads a Markdown file: its text with line feeds, its line ending and its encoding.
pub fn decode_markdown(bytes: &[u8]) -> (r: Result<LoadedDocument, String>)
    ensures
        match r {
            Ok(doc) => file_document(bytes@) == Ok::<
                (Seq<char>, Seq<char>, FileEncoding),
                Seq<char>,
            >((doc.content@, doc.line_ending@, doc.encoding)),
            Err(e) => file_document(bytes@) == Err::<
                (Seq<char>, Seq<char>, FileEncoding),
                Seq<char>,
            >(e@),
        },
{
    if bytes.len() >= 3 && bytes[0] == 0xEF && bytes[1] == 0xBB && bytes[2] == 0xBF {
        assert(bytes@.take(3) =~= utf8_mark());
        let rest = copy_from(bytes, 3);
        return match utf8_text(rest.as_slice()) {
            Ok(content) => Ok(LoadedDocument::new(content, FileEncoding::Utf8Bom)),
            Err(e) => Err(concat2("UTF-8 解码失败：", &e)),
        };
    }
    proof {
        if starts_bytes(bytes@, utf8_mark()) {
            assert(bytes@.take(3)[0] == 0xEF && bytes@.take(3)[1] == 0xBB && bytes@.take(3)[2]
                == 0xBF);
        }
    }
    if bytes.len() >= 2 && bytes[0] == 0xFF && bytes[1] == 0xFE {
        assert(bytes@.take(2) =~= utf16_mark(true));
        return match decode_utf16_bytes(bytes, 2, true) {
            Ok(content) => Ok(LoadedDocument::new(content, FileEncoding::Utf16Le)),
            Err(e) => Err(e),
        };
    }
    proof {
        if starts_bytes(bytes@, utf16_mark(true)) {
            assert(bytes@.take(2)[0] == 0xFF && bytes@.take(2)[1] == 0xFE);
        }
    }
    if bytes.len() >= 2 && bytes[0] == 0xFE && bytes[1] == 0xFF {
        assert(bytes@.take(2) =~= utf16_mark(false));
        return match decode_utf16_bytes(bytes, 2, false) {
            Ok(content) => Ok(LoadedDocument::new(content, FileEncoding::Utf16Be)),
            Err(e) => Err(e),
        };
    }
    proof {
        if starts_bytes(bytes@, utf16_mark(false)) {
            assert(bytes@.take(2)[0] == 0xFE && bytes@.take(2)[1] == 0xFF);
        }
    }
    match utf8_text(bytes) {
        Ok(content) => Ok(LoadedDocument::new(content, FileEncoding::Utf8)),
        Err(_) => Ok(LoadedDocument::new(gbk_decode(bytes), FileEncoding::Gbk)),
    }
}

fn push_units(out: &mut Vec<u8>, units: &Vec<u16>, little_endian: bool)
    ensures
        final(out)@ == old(out)@ + units_bytes(units@, little_endian),
{
    let ghost before = out@;
    let mut i: usize = 0;
    assert(before + Seq::empty() =~= before);
    while i < units.len()
        invariant
            i <= units.len(),
            out@ == before + units_bytes(units@.take(i as int), little_endian),
        decreases units.len() - i,
    {
        let low: u8 = (units[i] % 256) as u8;
        let high: u8 = (units[i] / 256) as u8;
        assert(units@.take(i + 1).drop_last() =~= units@.take(i as int));
        if little_endian {
            out.push(low);
            out.push(high);
        } else {
            out.push(high);
            out.push(low);
        }
        i = i + 1;
        assert(out@ =~= before + units_bytes(units@.take(i as int), little_endian));
    }
    assert(units@.take(i as int) =~= units@);
}

/// The bytes of a text in an encoding.
pub fn encode_markdown(content: &str, encoding: FileEncoding) -> (r: Result<Vec<u8>, String>)
    ensures
        match r {
            Ok(bytes) => encoded(content@, encoding) == Ok::<Seq<u8>, Seq<char>>(bytes@),
            Err(e) => encoded(content@, encoding) == Err::<Seq<u8>, Seq<char>>(e@),
        },
{
    match encoding {
        FileEncoding::Utf8 => Ok(utf8_bytes(content)),
        FileEncoding::Utf8Bom => {
            let mut bytes: Vec<u8> = Vec::new();
            bytes.push(0xEF);
            bytes.push(0xBB);
            bytes.push(0xBF);
            let mut rest = utf8_bytes(content);
            bytes.append(&mut rest);
            assert(bytes@ =~= utf8_mark() + encode_utf8(content@));
            Ok(bytes)
        },
        FileEncoding::Utf16Le => {
            let mut bytes: Vec<u8> = Vec::new();
            bytes.push(0xFF);
            bytes.push(0xFE);
            assert(bytes@ =~= utf16_mark(true));
            push_units(&mut bytes, &utf16_units(content), true);
            Ok(bytes)
        },
        FileEncoding::Utf16Be => {
            let mut bytes: Vec<u8> = Vec::new();
            bytes.push(0xFE);
            bytes.push(0xFF);
            assert(bytes@ =~= utf16_mark(false));
            push_units(&mut bytes, &utf16_units(content), false);
            Ok(bytes)
        },
        FileEncoding::Gbk => {
            let (bytes, had_errors) = gbk_encode(content);
            if had_errors {
                Err("保存失败：当前内容包含 GBK 无法表示的字符".to_owned())
            } else {
                Ok(bytes)
            }
        },
    }
}

/// The bytes that saving writes: the text with the line ending of the document, in its encoding.
pub open spec fn file_bytes(
    content: Seq<char>,
    line_ending: Seq<char>,
    encoding: FileEncoding,
) -> Result<Seq<u8>, Seq<char>> {
    encoded(with_ending(content, line_ending), encoding)
}

/// The document that opening reads: its text with line feeds, its line ending and its encoding.
pub open spec fn file_document(bytes: Seq<u8>) -> Result<
    (Seq<char>, Seq<char>, FileEncoding),
    Seq<char>,
> {
    match decoded(bytes) {
        Ok((text, encoding)) => Ok((normalized(text), ending_of(text), encoding)),
        Err(e) => Err(e),
    }
}

/// The bytes that saving writes: the text with the line ending of the document, in its encoding.
pub fn disk_bytes(content: &str, line_ending: &str, encoding: FileEncoding) -> (r: Result<
    Vec<u8>,
    String,
>)
    ensures
        match r {
            Ok(bytes) => file_bytes(content@, line_ending@, encoding) == Ok::<Seq<u8>, Seq<char>>(
                bytes@,
            ),
            Err(e) => file_bytes(content@, line_ending@, encoding) == Err::<Seq<u8>, Seq<char>>(
                e@,
            ),
        },
{
    proof {
        reveal_strlit("\n");
    }
    let disk_content = replace(content, "\n", line_ending);
    encode_markdown(&disk_content, encoding)
}

// ---------------------------------------------------------------------------
// Laws
// ---------------------------------------------------------------------------

/// The text holds no carriage return.
pub open spec fn no_return(s: Seq<char>) -> bool {
    forall|k: int| 0 <= k < s.len() ==> s[k] != '\r'
}

proof fn lemma_literals()
    ensures
        "\n"@ == seq!['\n'],
        "\r"@ == seq!['\r'],
        "\r\n"@ == seq!['\r', '\n'],
{
    reveal_strlit("\n");
    reveal_strlit("\r");
    reveal_strlit("\r\n");
    assert("\n"@ =~= seq!['\n']);
    assert("\r"@ =~= seq!['\r']);
    assert("\r\n"@ =~= seq!['\r', '\n']);
}

/// Replacing a character goes through the text one character at a time.
proof fn lemma_replace_char(s: Seq<char>, c: char, w: Seq<char>)
    requires
        s.len() > 0,
    ensures
        replace_all(s, seq![c], w) == (if s[0] == c {
            w
        } else {
            seq![s[0]]
        }) + replace_all(s.skip(1), seq![c], w),
{
    assert(s.take(1) =~= seq![s[0]]);
    assert(seq![s[0]][0] == s[0] && seq![c][0] == c);
}

proof fn lemma_replace_nothing(s: Seq<char>, c: char, w: Seq<char>)
    requires
        forall|k: int| 0 <= k < s.len() ==> s[k] != c,
    ensures
        replace_all(s, seq![c], w) == s,
    decreases s.len(),
{
    if s.len() > 0 {
        lemma_replace_char(s, c, w);
        lemma_replace_nothing(s.skip(1), c, w);
        assert(seq![s[0]] + s.skip(1) =~= s);
    }
}

/// Replacing a character by itself changes nothing.
proof fn lemma_replace_same(s: Seq<char>, c: char)
    ensures
        replace_all(s, seq![c], seq![c]) == s,
    decreases s.len(),
{
    if s.len() > 0 {
        lemma_replace_char(s, c, seq![c]);
        lemma_replace_same(s.skip(1), c);
        assert(seq![s[0]] + s.skip(1) =~= s);
    }
}

proof fn lemma_replaced_free(s: Seq<char>, c: char, w: Seq<char>)
    requires
        forall|k: int| 0 <= k < w.len() ==> w[k] != c,
    ensures
        forall|k: int|
            0 <= k < replace_all(s, seq![c], w).len() ==> replace_all(s, seq![c], w)[k] != c,
    decreases s.len(),
{
    if s.len() > 0 {
        lemma_replace_char(s, c, w);
        lemma_replaced_free(s.skip(1), c, w);
    }
}

/// A normalized text has no carriage return, and normalizing it again changes nothing.
pub proof fn law_normalized(s: Seq<char>)
    ensures
        no_return(normalized(s)),
        normalized(normalized(s)) == normalized(s),
        ending_of(normalized(s)) == "\n"@,
{
    lemma_literals();
    lemma_replaced_free(replace_all(s, "\r\n"@, "\n"@), '\r', "\n"@);
    lemma_normal_stays(normalized(s));
}

/// A text without carriage returns is normalized already.
pub proof fn lemma_normal_stays(s: Seq<char>)
    requires
        no_return(s),
    ensures
        normalized(s) == s,
        ending_of(s) == "\n"@,
{
    lemma_literals();
    lemma_no_pair(s);
    lemma_replace_nothing(s, '\r', "\n"@);
    lemma_find_from(s, "\r\n"@, 0);
    lemma_find_from(s, "\r"@, 0);
    assert forall|k: int| !matches_at(s, k, "\r\n"@) && !matches_at(s, k, "\r"@) by {
        if matches_at(s, k, "\r\n"@) {
            assert(s.subrange(k, k + 2)[0] == '\r');
        }
        if matches_at(s, k, "\r"@) {
            assert(s.subrange(k, k + 1)[0] == '\r');
        }
    }
}

/// Where no carriage return stands before a line feed, there is no pair to replace.
proof fn lemma_no_pair(s: Seq<char>)
    requires
        forall|k: int| 0 <= k < s.len() - 1 ==> !(#[trigger] s[k] == '\r' && s[k + 1] == '\n'),
    ensures
        replace_all(s, "\r\n"@, "\n"@) == s,
    decreases s.len(),
{
    lemma_literals();
    if s.len() >= 2 {
        if has_prefix(s, "\r\n"@) {
            assert(s.take(2)[0] == '\r' && s.take(2)[1] == '\n');
        }
        let t = s.skip(1);
        assert forall|k: int| 0 <= k < t.len() - 1 implies !(#[trigger] t[k] == '\r' && t[k + 1] == '\n') by {
            assert(t[k] == s[k + 1] && t[k + 1] == s[k + 2]);
        }
        lemma_no_pair(t);
        assert(seq![s[0]] + t =~= s);
    }
}

/// One of the three line endings.
pub open spec fn is_ending(ending: Seq<char>) -> bool {
    ending == "\n"@ || ending == "\r\n"@ || ending == "\r"@
}

proof fn lemma_pairs_back(s: Seq<char>)
    requires
        no_return(s),
    ensures
        replace_all(replace_all(s, "\n"@, "\r\n"@), "\r\n"@, "\n"@) == s,
    decreases s.len(),
{
    lemma_literals();
    if s.len() > 0 {
        let t = s.skip(1);
        lemma_replace_char(s, '\n', "\r\n"@);
        assert(no_return(t));
        lemma_pairs_back(t);
        let rest = replace_all(t, "\n"@, "\r\n"@);
        let w = replace_all(s, "\n"@, "\r\n"@);
        if s[0] == '\n' {
            assert(w.take(2) =~= "\r\n"@);
            assert(w.skip(2) =~= rest);
            assert("\n"@ + t =~= s);
        } else {
            assert(w[0] == s[0]);
            if has_prefix(w, "\r\n"@) {
                assert(w.take(2)[0] == '\r');
            }
            assert(w.skip(1) =~= rest);
            assert(seq![s[0]] + t =~= s);
            if w.len() < 2 {
                assert(rest.len() == 0);
                assert(t.len() == 0) by {
                    if t.len() > 0 {
                        lemma_replace_char(t, '\n', "\r\n"@);
                    }
                }
                assert(w =~= s);
            }
        }
    }
}

proof fn lemma_returns_back(s: Seq<char>)
    requires
        no_return(s),
    ensures
        replace_all(replace_all(s, "\n"@, "\r"@), "\r"@, "\n"@) == s,
    decreases s.len(),
{
    lemma_literals();
    if s.len() > 0 {
        let t = s.skip(1);
        assert(no_return(t));
        lemma_returns_back(t);
        lemma_replace_char(s, '\n', "\r"@);
        let w = replace_all(s, "\n"@, "\r"@);
        let rest = replace_all(t, "\n"@, "\r"@);
        assert(w.skip(1) =~= rest);
        lemma_replace_char(w, '\r', "\n"@);
        assert(seq![s[0]] + t =~= s);
    }
}

/// A line ending shows in a text exactly where the text has a line break.
proof fn lemma_ending_shows(s: Seq<char>, ending: Seq<char>)
    requires
        no_return(s),
        is_ending(ending),
    ensures
        ending_of(with_ending(s, ending)) == if s.contains('\n') {
            ending
        } else {
            "\n"@
        },
    decreases s.len(),
{
    lemma_literals();
    let w = with_ending(s, ending);
    if !s.contains('\n') {
        assert forall|k: int| 0 <= k < s.len() implies s[k] != '\n' by {
            if s[k] == '\n' {
                assert(s.contains(s[k]));
            }
        }
        lemma_replace_nothing(s, '\n', ending);
        lemma_normal_stays(s);
    } else if ending == "\n"@ {
        lemma_replace_same(s, '\n');
        lemma_normal_stays(s);
    } else {
        lemma_some_ending(s, ending);
        let k = choose|k: int| #[trigger] matches_at(w, k, ending);
        lemma_find_from(w, "\r\n"@, 0);
        lemma_find_from(w, "\r"@, 0);
        assert(0 <= k);
        if ending == "\r"@ {
            lemma_replaced_free(s, '\n', "\r"@);
            assert forall|j: int| !matches_at(w, j, "\r\n"@) by {
                if matches_at(w, j, "\r\n"@) {
                    assert(w.subrange(j, j + 2)[1] == '\n');
                    assert(w[j + 1] == '\n');
                }
            }
        }
    }
}

proof fn lemma_some_ending(s: Seq<char>, ending: Seq<char>)
    requires
        s.contains('\n'),
    ensures
        exists|k: int| #[trigger] matches_at(with_ending(s, ending), k, ending),
    decreases s.len(),
{
    lemma_literals();
    let w = with_ending(s, ending);
    let n = choose|n: int| 0 <= n < s.len() && s[n] == '\n';
    lemma_replace_char(s, '\n', ending);
    let rest = with_ending(s.skip(1), ending);
    if s[0] == '\n' {
        assert(w.subrange(0, 0 + ending.len() as int) =~= ending);
        assert(matches_at(w, 0, ending));
    } else {
        assert(s.skip(1)[n - 1] == '\n');
        lemma_some_ending(s.skip(1), ending);
        let k = choose|k: int| #[trigger] matches_at(rest, k, ending);
        assert(w.subrange(k + 1, k + 1 + ending.len()) =~= rest.subrange(k, k + ending.len()));
        assert(matches_at(w, k + 1, ending));
    }
}

/// Normalizing a text in which line feeds were replaced by a line ending gives the text back.
pub proof fn law_line_ending_round_trip(s: Seq<char>, ending: Seq<char>)
    requires
        no_return(s),
        is_ending(ending),
    ensures
        normalized(with_ending(s, ending)) == s,
        ending_of(with_ending(s, ending)) == if s.contains('\n') {
            ending
        } else {
            "\n"@
        },
{
    lemma_literals();
    lemma_ending_shows(s, ending);
    if ending == "\n"@ {
        lemma_replace_same(s, '\n');
        lemma_normal_stays(s);
    } else if ending == "\r\n"@ {
        lemma_pairs_back(s);
        lemma_replace_nothing(s, '\r', "\n"@);
    } else {
        let w = with_ending(s, ending);
        lemma_replaced_free(s, '\n', "\r"@);
        lemma_no_pair(w);
        lemma_returns_back(s);
    }
}

// Encodings.

proof fn lemma_units_bytes(units: Seq<u16>, little_endian: bool)
    ensures
        units_bytes(units, little_endian).len() == 2 * units.len(),
        bytes_units(units_bytes(units, little_endian), little_endian) == units,
    decreases units.len(),
{
    let bytes = units_bytes(units, little_endian);
    if units.len() == 0 {
        assert(bytes_units(bytes, little_endian) =~= units);
    } else {
        let r = units.drop_last();
        let before = units_bytes(r, little_endian);
        lemma_units_bytes(r, little_endian);
        assert forall|k: int| 0 <= k < units.len() implies unit_at(bytes, k, little_endian)
            == units[k] by {
            if k < r.len() {
                assert(unit_at(before, k, little_endian) == bytes_units(before, little_endian)[k]);
                assert(bytes[2 * k] == before[2 * k]);
                assert(bytes[2 * k + 1] == before[2 * k + 1]);
                assert(r[k] == units[k]);
            } else {
                let u = units.last();
                assert(bytes[2 * k] == unit_bytes(u, little_endian)[0]);
                assert(bytes[2 * k + 1] == unit_bytes(u, little_endian)[1]);
            }
        }
        assert(bytes_units(bytes, little_endian) =~= units);
    }
}

proof fn lemma_bytes_units(bytes: Seq<u8>, little_endian: bool)
    requires
        bytes.len() % 2 == 0,
    ensures
        units_bytes(bytes_units(bytes, little_endian), little_endian) == bytes,
    decreases bytes.len(),
{
    let units = bytes_units(bytes, little_endian);
    if bytes.len() == 0 {
        assert(units =~= Seq::empty());
        assert(units_bytes(units, little_endian) =~= bytes);
    } else {
        let n = bytes.len() - 2;
        let r = bytes.take(n);
        lemma_bytes_units(r, little_endian);
        assert(units.drop_last() =~= bytes_units(r, little_endian)) by {
            assert forall|k: int| 0 <= k < units.len() - 1 implies unit_at(bytes, k, little_endian)
                == unit_at(r, k, little_endian) by {
                assert(r[2 * k] == bytes[2 * k]);
                assert(r[2 * k + 1] == bytes[2 * k + 1]);
            }
        }
        let k = units.len() - 1;
        assert(2 * k == n);
        assert(units.last() == unit_at(bytes, k, little_endian));
        assert(unit_bytes(units.last(), little_endian) =~= bytes.skip(n));
        assert(bytes =~= r + bytes.skip(n));
    }
}

/// The text does not start with the character that would be taken for a byte order mark.
pub open spec fn no_mark_char(s: Seq<char>) -> bool {
    s.len() > 0 ==> s[0] as u32 != 0xFEFF
}

proof fn lemma_utf8_is_no_mark(s: Seq<char>)
    ensures
        starts_bytes(encode_utf8(s), utf8_mark()) ==> !no_mark_char(s),
        !starts_bytes(encode_utf8(s), utf16_mark(true)),
        !starts_bytes(encode_utf8(s), utf16_mark(false)),
{
    let bytes = encode_utf8(s);
    if s.len() == 0 {
        assert(bytes.len() == 0);
    } else {
        encode_utf8_first_scalar(s);
        if starts_bytes(bytes, utf8_mark()) {
            assert(bytes.take(3)[0] == 0xEF && bytes.take(3)[1] == 0xBB && bytes.take(3)[2] == 0xBF);
            assert(codepoint_width_3(0xEF, 0xBB, 0xBF) == 0xFEFF) by (bit_vector);
        }
        if starts_bytes(bytes, utf16_mark(true)) {
            assert(bytes.take(2)[0] == 0xFF);
        }
        if starts_bytes(bytes, utf16_mark(false)) {
            assert(bytes.take(2)[0] == 0xFE);
        }
    }
}

/// A text that was encoded is read back with its encoding: in UTF-8 with and without a byte order
/// mark, and in UTF-16 of either byte order. A UTF-8 file without a mark cannot start with the
/// character of the mark.
pub proof fn law_encode_then_decode(text: Seq<char>, encoding: FileEncoding)
    requires
        encoding != FileEncoding::Gbk,
        encoding == FileEncoding::Utf8 ==> no_mark_char(text),
    ensures
        encoded(text, encoding) is Ok,
        decoded(encoded(text, encoding)->Ok_0) == Ok::<(Seq<char>, FileEncoding), Seq<char>>(
            (text, encoding),
        ),
{
    let bytes = encoded(text, encoding)->Ok_0;
    encode_utf8_valid_utf8(text);
    encode_utf8_decode_utf8(text);
    match encoding {
        FileEncoding::Utf8 => {
            lemma_utf8_is_no_mark(text);
        },
        FileEncoding::Utf8Bom => {
            assert(bytes.take(3) =~= utf8_mark());
            assert(bytes.skip(3) =~= encode_utf8(text));
        },
        FileEncoding::Utf16Le => {
            lemma_utf16_read_back(text, true);
            assert(bytes[0] == 0xFF);
            if starts_bytes(bytes, utf8_mark()) {
                assert(bytes.take(3)[0] == 0xEF);
            }
            assert(bytes.take(2) =~= utf16_mark(true));
            assert(bytes.skip(2) =~= units_bytes(utf16(text), true));
        },
        _ => {
            lemma_utf16_read_back(text, false);
            assert(bytes[0] == 0xFE);
            if starts_bytes(bytes, utf8_mark()) {
                assert(bytes.take(3)[0] == 0xEF);
            }
            if starts_bytes(bytes, utf16_mark(true)) {
                assert(bytes.take(2)[0] == 0xFF);
            }
            assert(bytes.take(2) =~= utf16_mark(false));
            assert(bytes.skip(2) =~= units_bytes(utf16(text), false));
        },
    }
}

proof fn lemma_utf16_read_back(text: Seq<char>, little_endian: bool)
    ensures
        utf16_decoded(units_bytes(utf16(text), little_endian), little_endian) == Ok::<
            Seq<char>,
            Seq<char>,
        >(text),
{
    lemma_units_bytes(utf16(text), little_endian);
    let t = choose|t: Seq<char>| #[trigger] utf16(t) == utf16(text);
    law_utf16_injective(t, text);
}

/// Saving a document and opening the file again gives the same text, line ending and encoding: in
/// UTF-8 with and without a byte order mark, and in UTF-16 of either byte order. A text without line
/// breaks has no line ending to keep.
pub proof fn law_save_then_open(content: Seq<char>, ending: Seq<char>, encoding: FileEncoding)
    requires
        no_return(content),
        is_ending(ending),
        encoding != FileEncoding::Gbk,
        encoding == FileEncoding::Utf8 ==> no_mark_char(content),
    ensures
        ({
            let saved = encoded(with_ending(content, ending), encoding);
            &&& saved is Ok
            &&& match decoded(saved->Ok_0) {
                Ok((text, again)) => normalized(text) == content && again == encoding
                    && ending_of(text) == if content.contains('\n') {
                    ending
                } else {
                    "\n"@
                },
                Err(_) => false,
            }
        }),
{
    lemma_literals();
    let disk = with_ending(content, ending);
    law_line_ending_round_trip(content, ending);
    if content.len() > 0 {
        lemma_replace_char(content, '\n', ending);
        if content[0] == '\n' {
            assert(disk[0] == ending[0]);
        } else {
            assert(disk[0] == content[0]);
        }
    }
    law_encode_then_decode(disk, encoding);
}

/// Saving a document in GBK and opening the file again gives the same text, line ending and encoding,
/// where GBK has all its characters and reads its bytes back as they were written, and the bytes are
/// not those of another encoding.
pub proof fn law_save_then_open_gbk(content: Seq<char>, ending: Seq<char>)
    requires
        no_return(content),
        is_ending(ending),
        !gbk_encoding(with_ending(content, ending)).1,
        ({
            let bytes = gbk_encoding(with_ending(content, ending)).0;
            &&& gbk_text(bytes) == with_ending(content, ending)
            &&& !valid_utf8(bytes)
            &&& !starts_bytes(bytes, utf8_mark())
            &&& !starts_bytes(bytes, utf16_mark(true))
            &&& !starts_bytes(bytes, utf16_mark(false))
        }),
    ensures
        ({
            let saved = encoded(with_ending(content, ending), FileEncoding::Gbk);
            &&& saved is Ok
            &&& match decoded(saved->Ok_0) {
                Ok((text, again)) => normalized(text) == content && again == FileEncoding::Gbk
                    && ending_of(text) == if content.contains('\n') {
                    ending
                } else {
                    "\n"@
                },
                Err(_) => false,
            }
        }),
{
    law_line_ending_round_trip(content, ending);
}

/// All line breaks of the text are written in the same way.
pub open spec fn one_ending(s: Seq<char>) -> bool {
    let ending = ending_of(s);
    &&& ending == "\r\n"@ ==> forall|k: int|
        0 <= k < s.len() ==> (#[trigger] s[k] == '\r' ==> k + 1 < s.len() && s[k + 1] == '\n') && (s[k]
            == '\n' ==> k > 0 && s[k - 1] == '\r')
    &&& ending == "\r"@ ==> forall|k: int| 0 <= k < s.len() ==> s[k] != '\n'
}

proof fn lemma_pairs_forth(s: Seq<char>)
    requires
        forall|k: int|
            0 <= k < s.len() ==> (#[trigger] s[k] == '\r' ==> k + 1 < s.len() && s[k + 1] == '\n')
                && (s[k] == '\n' ==> k > 0 && s[k - 1] == '\r'),
    ensures
        no_return(replace_all(s, "\r\n"@, "\n"@)),
        replace_all(replace_all(s, "\r\n"@, "\n"@), "\n"@, "\r\n"@) == s,
    decreases s.len(),
{
    lemma_literals();
    let w = replace_all(s, "\r\n"@, "\n"@);
    if s.len() == 0 {
    } else if s[0] == '\r' {
        assert(s[1] == '\n');
        assert(s.take(2) =~= "\r\n"@);
        let t = s.skip(2);
        assert forall|k: int| 0 <= k < t.len() implies (#[trigger] t[k] == '\r' ==> k + 1 < t.len()
            && t[k + 1] == '\n') && (t[k] == '\n' ==> k > 0 && t[k - 1] == '\r') by {
            assert(t[k] == s[k + 2]);
            if k == 0 && t[k] == '\n' {
                assert(s[2] == '\n');
            }
        }
        lemma_pairs_forth(t);
        let rest = replace_all(t, "\r\n"@, "\n"@);
        assert(w == "\n"@ + rest);
        lemma_replace_char(w, '\n', "\r\n"@);
        assert(w.skip(1) =~= rest);
        assert("\r\n"@ + t =~= s);
    } else {
        assert(s[0] != '\n');
        let t = s.skip(1);
        assert forall|k: int| 0 <= k < t.len() implies (#[trigger] t[k] == '\r' ==> k + 1 < t.len()
            && t[k + 1] == '\n') && (t[k] == '\n' ==> k > 0 && t[k - 1] == '\r') by {
            assert(t[k] == s[k + 1]);
        }
        lemma_pairs_forth(t);
        let rest = replace_all(t, "\r\n"@, "\n"@);
        if has_prefix(s, "\r\n"@) {
            assert(s.take(2)[0] == '\r');
        }
        if s.len() == 1 {
            assert(t =~= Seq::empty());
            assert(w == s);
            assert(rest =~= Seq::empty());
        }
        assert(w =~= seq![s[0]] + rest);
        lemma_replace_char(w, '\n', "\r\n"@);
        assert(w.skip(1) =~= rest);
        assert(seq![s[0]] + t =~= s);
    }
}

proof fn lemma_returns_forth(s: Seq<char>)
    requires
        forall|k: int| 0 <= k < s.len() ==> s[k] != '\n',
    ensures
        replace_all(replace_all(s, "\r"@, "\n"@), "\n"@, "\r"@) == s,
    decreases s.len(),
{
    lemma_literals();
    if s.len() > 0 {
        let t = s.skip(1);
        lemma_returns_forth(t);
        lemma_replace_char(s, '\r', "\n"@);
        let w = replace_all(s, "\r"@, "\n"@);
        assert(w.skip(1) =~= replace_all(t, "\r"@, "\n"@));
        lemma_replace_char(w, '\n', "\r"@);
        assert(seq![s[0]] + t =~= s);
    }
}

/// A text with line breaks of one kind is restored from its normalized text and its line ending.
pub proof fn law_line_ending_restored(s: Seq<char>)
    requires
        one_ending(s),
    ensures
        with_ending(normalized(s), ending_of(s)) == s,
{
    lemma_literals();
    lemma_find_from(s, "\r\n"@, 0);
    lemma_find_from(s, "\r"@, 0);
    if ending_of(s) == "\r\n"@ {
        lemma_pairs_forth(s);
        lemma_replace_nothing(replace_all(s, "\r\n"@, "\n"@), '\r', "\n"@);
    } else if ending_of(s) == "\r"@ {
        lemma_no_pair(s);
        lemma_returns_forth(s);
    } else {
        assert(no_return(s)) by {
            assert forall|k: int| 0 <= k < s.len() implies s[k] != '\r' by {
                if s[k] == '\r' {
                    assert(s.subrange(k, k + 1) =~= "\r"@);
                    assert(matches_at(s, k, "\r"@));
                }
            }
        }
        lemma_normal_stays(s);
        lemma_replace_same(s, '\n');
    }
}

/// Opening a file and saving it unchanged writes the same bytes: with and without a byte order mark,
/// in UTF-8 and in UTF-16, where the file has line breaks of one kind.
pub proof fn law_open_then_save(bytes: Seq<u8>)
    requires
        decoded(bytes) is Ok,
        decoded(bytes)->Ok_0.1 != FileEncoding::Gbk,
        one_ending(decoded(bytes)->Ok_0.0),
    ensures
        ({
            let (text, encoding) = decoded(bytes)->Ok_0;
            encoded(with_ending(normalized(text), ending_of(text)), encoding) == Ok::<
                Seq<u8>,
                Seq<char>,
            >(bytes)
        }),
{
    let (text, encoding) = decoded(bytes)->Ok_0;
    law_line_ending_restored(text);
    match encoding {
        FileEncoding::Utf8 => {
            decode_utf8_encode_utf8(bytes);
        },
        FileEncoding::Utf8Bom => {
            decode_utf8_encode_utf8(bytes.skip(3));
            assert(utf8_mark() + bytes.skip(3) =~= bytes);
        },
        FileEncoding::Utf16Le => {
            lemma_bytes_units(bytes.skip(2), true);
            assert(utf16_mark(true) + bytes.skip(2) =~= bytes);
        },
        _ => {
            lemma_bytes_units(bytes.skip(2), false);
            assert(utf16_mark(false) + bytes.skip(2) =~= bytes);
        },
    }
}

/// Saving a document and opening the file gives the document back: its text, its line ending where it
/// has line breaks, and its encoding.
pub proof fn law_document_comes_back(
    content: Seq<char>,
    ending: Seq<char>,
    encoding: FileEncoding,
)
    requires
        no_return(content),
        is_ending(ending),
        encoding != FileEncoding::Gbk,
        encoding == FileEncoding::Utf8 ==> no_mark_char(content),
    ensures
        ({
            let saved = file_bytes(content, ending, encoding);
            let kept = if content.contains('\n') {
                ending
            } else {
                "\n"@
            };
            &&& saved is Ok
            &&& file_document(saved->Ok_0) == Ok::<
                (Seq<char>, Seq<char>, FileEncoding),
                Seq<char>,
            >((content, kept, encoding))
        }),
{
    law_save_then_open(content, ending, encoding);
}

/// Opening a file and saving its document unchanged writes the same bytes, where the file has line
/// breaks of one kind.
pub proof fn law_file_comes_back(bytes: Seq<u8>)
    requires
        file_document(bytes) is Ok,
        file_document(bytes)->Ok_0.2 != FileEncoding::Gbk,
        decoded(bytes) is Ok ==> one_ending(decoded(bytes)->Ok_0.0),
    ensures
        ({
            let (content, ending, encoding) = file_document(bytes)->Ok_0;
            file_bytes(content, ending, encoding) == Ok::<Seq<u8>, Seq<char>>(bytes)
        }),
{
    law_open_then_save(bytes);
}

} // verus!
