//! Texts as bytes: UTF-8, UTF-16 and GBK.

use vstd::prelude::*;
use vstd::utf8::{decode_utf8, encode_utf8, valid_utf8};

use crate::text::chars_of;

verus! {

// ---------------------------------------------------------------------------
// UTF-8
// ---------------------------------------------------------------------------

/// What `String::from_utf8_lossy` makes of some bytes.
pub uninterp spec fn lossy_text(bytes: Seq<u8>) -> Seq<char>;

/// The message of the error with which `std::str::from_utf8` refuses some bytes.
pub uninterp spec fn utf8_error(bytes: Seq<u8>) -> Seq<char>;

/// `String::from_utf8_lossy`: the text of some bytes, in which bytes that are not UTF-8 are
/// replaced. What stands for them is not said; bytes that are UTF-8 are decoded.
#[verifier::external_body]
pub(crate) fn utf8_lossy(bytes: &[u8]) -> (r: String)
    ensures
        r@ == lossy_text(bytes@),
        valid_utf8(bytes@) ==> r@ == decode_utf8(bytes@),
{
    String::from_utf8_lossy(bytes).into_owned()
}

/// `std::str::from_utf8`: the text of bytes that are UTF-8, and for other bytes the message of the
/// error.
#[verifier::external_body]
pub(crate) fn utf8_text(bytes: &[u8]) -> (r: Result<String, String>)
    ensures
        match r {
            Ok(s) => valid_utf8(bytes@) && s@ == decode_utf8(bytes@),
            Err(e) => !valid_utf8(bytes@) && e@ == utf8_error(bytes@),
        },
{
    match std::str::from_utf8(bytes) {
        Ok(s) => Ok(s.to_owned()),
        Err(e) => Err(e.to_string()),
    }
}

/// The bytes of a text.
pub fn utf8_bytes(s: &str) -> (v: Vec<u8>)
    ensures
        v@ == encode_utf8(s@),
{
    let bytes = s.as_bytes();
    let mut v: Vec<u8> = Vec::new();
    let mut i: usize = 0;
    while i < bytes.len()
        invariant
            i <= bytes@.len(),
            v@ == bytes@.take(i as int),
        decreases bytes@.len() - i,
    {
        v.push(bytes[i]);
        i = i + 1;
        assert(v@ =~= bytes@.take(i as int));
    }
    assert(bytes@.take(i as int) =~= bytes@);
    v
}

// ---------------------------------------------------------------------------
// UTF-16
// ---------------------------------------------------------------------------

/// The UTF-16 code units of a character.
pub open spec fn char_units(c: char) -> Seq<u16> {
    let u = c as u32;
    if u < 0x10000 {
        seq![u as u16]
    } else {
        seq![
            (0xD800 + (u - 0x10000) / 0x400) as u16,
            (0xDC00 + (u - 0x10000) % 0x400) as u16,
        ]
    }
}

/// The UTF-16 code units of a text.
pub open spec fn utf16(s: Seq<char>) -> Seq<u16>
    decreases s.len(),
{
    if s.len() == 0 {
        Seq::empty()
    } else {
        utf16(s.drop_last()) + char_units(s.last())
    }
}

/// The message of the error with which `String::from_utf16` refuses some code units.
pub uninterp spec fn utf16_error(units: Seq<u16>) -> Seq<char>;

/// `String::from_utf16`: the text with these code units, and where no text has them the message of
/// the error.
#[verifier::external_body]
pub(crate) fn utf16_text(units: &[u16]) -> (r: Result<String, String>)
    ensures
        match r {
            Ok(s) => utf16(s@) == units@,
            Err(e) => e@ == utf16_error(units@) && forall|s: Seq<char>| #[trigger] utf16(s) != units@,
        },
{
    match String::from_utf16(units) {
        Ok(s) => Ok(s),
        Err(e) => Err(e.to_string()),
    }
}

/// The UTF-16 code units of a text.
pub fn utf16_units(s: &str) -> (v: Vec<u16>)
    ensures
        v@ == utf16(s@),
{
    let cs = chars_of(s);
    let mut v: Vec<u16> = Vec::new();
    let mut i: usize = 0;
    while i < cs.len()
        invariant
            i <= cs.len(),
            v@ == utf16(cs@.take(i as int)),
        decreases cs.len() - i,
    {
        let u: u32 = cs[i] as u32;
        proof {
            vstd::utf8::char_is_scalar(cs@[i as int]);
            assert(cs@.take(i + 1).drop_last() =~= cs@.take(i as int));
        }
        let ghost before = v@;
        if u < 0x10000 {
            v.push(u as u16);
            assert(v@ =~= before + char_units(cs@[i as int]));
        } else {
            v.push((0xD800 + (u - 0x10000) / 0x400) as u16);
            v.push((0xDC00 + (u - 0x10000) % 0x400) as u16);
            assert(v@ =~= before + char_units(cs@[i as int]));
        }
        i = i + 1;
    }
    assert(cs@.take(i as int) =~= cs@);
    v
}

/// The first code unit of a character tells how many it has.
proof fn lemma_units_head(c: char)
    ensures
        1 <= char_units(c).len() <= 2,
        char_units(c).len() == 2 <==> 0xD800 <= char_units(c)[0] <= 0xDBFF,
        char_units(c).len() == 2 ==> 0xDC00 <= char_units(c)[1] <= 0xDFFF,
        char_units(c).len() == 1 ==> !(0xDC00 <= char_units(c)[0] <= 0xDFFF),
{
    vstd::utf8::char_is_scalar(c);
}

proof fn lemma_units_injective(a: char, b: char)
    requires
        char_units(a) == char_units(b),
    ensures
        a == b,
{
    vstd::utf8::char_is_scalar(a);
    vstd::utf8::char_is_scalar(b);
    lemma_units_head(a);
    lemma_units_head(b);
    let x = a as u32;
    let y = b as u32;
    if x < 0x10000 {
        assert(char_units(a)[0] == x as u16);
        assert(char_units(b)[0] == y as u16);
        assert(x == y);
    } else {
        assert(char_units(a)[0] == (0xD800 + (x - 0x10000) / 0x400) as u16);
        assert(char_units(b)[0] == (0xD800 + (y - 0x10000) / 0x400) as u16);
        assert(char_units(a)[1] == (0xDC00 + (x - 0x10000) % 0x400) as u16);
        assert(char_units(b)[1] == (0xDC00 + (y - 0x10000) % 0x400) as u16);
        assert((x - 0x10000) / 0x400 == (y - 0x10000) / 0x400);
        assert((x - 0x10000) % 0x400 == (y - 0x10000) % 0x400);
        assert(x == y);
    }
    assert(a as u32 == b as u32);
}

/// Different texts have different code units.
pub proof fn law_utf16_injective(a: Seq<char>, b: Seq<char>)
    requires
        utf16(a) == utf16(b),
    ensures
        a == b,
    decreases a.len(),
{
    if a.len() == 0 {
        if b.len() > 0 {
            lemma_units_head(b.last());
            assert(utf16(b).len() > 0);
        }
        assert(a =~= b);
    } else if b.len() == 0 {
        lemma_units_head(a.last());
        assert(utf16(a).len() > 0);
    } else {
        let x = char_units(a.last());
        let y = char_units(b.last());
        let p = utf16(a.drop_last());
        let q = utf16(b.drop_last());
        let w = p + x;
        lemma_units_head(a.last());
        lemma_units_head(b.last());
        assert(w == q + y);
        assert(w.last() == x.last());
        assert(w.last() == y.last());
        // The last unit is a trailing surrogate exactly where there are two units.
        assert(x.len() == y.len());
        assert(w.take(w.len() - x.len()) =~= p);
        assert(w.take(w.len() - y.len()) =~= q);
        assert(w.skip(w.len() - x.len()) =~= x);
        assert(w.skip(w.len() - y.len()) =~= y);
        lemma_units_injective(a.last(), b.last());
        law_utf16_injective(a.drop_last(), b.drop_last());
        assert(a =~= a.drop_last().push(a.last()));
        assert(b =~= b.drop_last().push(b.last()));
    }
}

// ---------------------------------------------------------------------------
// GBK
// ---------------------------------------------------------------------------

/// What `encoding_rs::GBK.decode` makes of some bytes.
pub uninterp spec fn gbk_text(bytes: Seq<u8>) -> Seq<char>;

/// What `encoding_rs::GBK.encode` makes of a text: its bytes, and whether it has characters that GBK
/// lacks.
pub uninterp spec fn gbk_encoding(text: Seq<char>) -> (Seq<u8>, bool);

/// `encoding_rs::GBK.decode`: the text of some bytes, which depends on the bytes alone.
#[verifier::external_body]
pub(crate) fn gbk_decode(bytes: &[u8]) -> (r: String)
    ensures
        r@ == gbk_text(bytes@),
{
    encoding_rs::GBK.decode(bytes).0.into_owned()
}

/// `encoding_rs::GBK.encode`: the bytes of a text, and whether it has characters that GBK lacks;
/// both depend on the text alone.
#[verifier::external_body]
pub(crate) fn gbk_encode(text: &str) -> (r: (Vec<u8>, bool))
    ensures
        (r.0@, r.1) == gbk_encoding(text@),
{
    let (bytes, _, had_errors) = encoding_rs::GBK.encode(text);
    (bytes.into_owned(), had_errors)
}

} // verus!
