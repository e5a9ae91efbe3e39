//! Text as the editor sees it: a sequence of characters, addressed by UTF-8 byte offsets.

use vstd::prelude::*;
use vstd::utf8::{char_is_scalar, encode_utf8};

verus! {

/// `String::push` appends one character to the end of the string.
pub assume_specification[ String::push ](s: &mut String, c: char)
    ensures
        final(s)@ == old(s)@.push(c),
;

// ---------------------------------------------------------------------------
// Byte offsets
// ---------------------------------------------------------------------------

/// The number of bytes that UTF-8 uses for a character.
pub open spec fn char_width(c: char) -> nat {
    if (c as u32) < 0x80 {
        1
    } else if (c as u32) < 0x800 {
        2
    } else if (c as u32) < 0x10000 {
        3
    } else {
        4
    }
}

/// The number of bytes that UTF-8 uses for a text.
pub open spec fn byte_len(s: Seq<char>) -> nat
    decreases s.len(),
{
    if s.len() == 0 {
        0
    } else {
        byte_len(s.drop_last()) + char_width(s.last())
    }
}

/// Character `i` of the text starts at byte `offset`; the end of the text counts as a character.
pub open spec fn starts_char(s: Seq<char>, i: int, offset: int) -> bool {
    0 <= i <= s.len() && byte_len(s.take(i)) == offset
}

/// Byte `offset` lies between two characters of the text, or at one of its ends.
pub open spec fn is_boundary(s: Seq<char>, offset: int) -> bool {
    exists|i: int| starts_char(s, i, offset)
}

/// The number of characters before byte `offset`, where `offset` is a boundary.
pub open spec fn index_at(s: Seq<char>, offset: int) -> int {
    choose|i: int| starts_char(s, i, offset)
}

pub open spec fn min_of(a: int, b: int) -> int {
    if a <= b {
        a
    } else {
        b
    }
}

pub open spec fn max_of(a: int, b: int) -> int {
    if a >= b {
        a
    } else {
        b
    }
}

pub proof fn lemma_byte_len_concat(a: Seq<char>, b: Seq<char>)
    ensures
        byte_len(a + b) == byte_len(a) + byte_len(b),
    decreases b.len(),
{
    if b.len() == 0 {
        assert(a + b =~= a);
    } else {
        assert((a + b).drop_last() =~= a + b.drop_last());
        lemma_byte_len_concat(a, b.drop_last());
    }
}

pub proof fn lemma_byte_len_bounds(s: Seq<char>)
    ensures
        s.len() <= byte_len(s) <= 4 * s.len(),
    decreases s.len(),
{
    if s.len() > 0 {
        lemma_byte_len_bounds(s.drop_last());
    }
}

pub proof fn lemma_byte_len_split(s: Seq<char>, i: int)
    requires
        0 <= i <= s.len(),
    ensures
        byte_len(s) == byte_len(s.take(i)) + byte_len(s.skip(i)),
{
    assert(s =~= s.take(i) + s.skip(i));
    lemma_byte_len_concat(s.take(i), s.skip(i));
}

/// A longer prefix of a text has more bytes.
pub proof fn lemma_prefix_grows(s: Seq<char>, i: int, j: int)
    requires
        0 <= i <= j <= s.len(),
    ensures
        byte_len(s.take(i)) + (j - i) <= byte_len(s.take(j)),
        byte_len(s.take(j)) <= byte_len(s),
{
    lemma_byte_len_split(s, j);
    let t = s.take(j);
    lemma_byte_len_split(t, i);
    assert(t.take(i) =~= s.take(i));
    lemma_byte_len_bounds(t.skip(i));
}

/// A byte offset names at most one character index.
pub proof fn lemma_index_at(s: Seq<char>, i: int, offset: int)
    requires
        starts_char(s, i, offset),
    ensures
        is_boundary(s, offset),
        index_at(s, offset) == i,
{
    let j = index_at(s, offset);
    assert(starts_char(s, j, offset));
    if i < j {
        lemma_prefix_grows(s, i, j);
    } else if j < i {
        lemma_prefix_grows(s, j, i);
    }
}

/// What a boundary says about the two sides of the text.
pub proof fn lemma_boundary(s: Seq<char>, offset: int)
    requires
        is_boundary(s, offset),
    ensures
        0 <= index_at(s, offset) <= s.len(),
        byte_len(s.take(index_at(s, offset))) == offset,
        byte_len(s.skip(index_at(s, offset))) == byte_len(s) - offset,
        0 <= offset <= byte_len(s),
{
    let i = index_at(s, offset);
    assert(starts_char(s, i, offset));
    lemma_byte_len_split(s, i);
}

pub proof fn lemma_boundary_order(s: Seq<char>, a: int, b: int)
    requires
        is_boundary(s, a),
        is_boundary(s, b),
    ensures
        a <= b <==> index_at(s, a) <= index_at(s, b),
        a == b <==> index_at(s, a) == index_at(s, b),
{
    lemma_boundary(s, a);
    lemma_boundary(s, b);
    let i = index_at(s, a);
    let j = index_at(s, b);
    if i < j {
        lemma_prefix_grows(s, i, j);
    } else if j < i {
        lemma_prefix_grows(s, j, i);
    }
}

proof fn lemma_byte_len_first(s: Seq<char>)
    requires
        s.len() > 0,
    ensures
        byte_len(s) == char_width(s[0]) + byte_len(s.drop_first()),
{
    reveal_with_fuel(byte_len, 2);
    lemma_byte_len_split(s, 1);
    assert(s.skip(1) =~= s.drop_first());
    assert(s.take(1).drop_last() =~= Seq::<char>::empty());
    assert(s.take(1).last() == s[0]);
}

proof fn lemma_byte_len_utf8(s: Seq<char>)
    ensures
        byte_len(s) == encode_utf8(s).len(),
    decreases s.len(),
{
    if s.len() > 0 {
        char_is_scalar(s[0]);
        lemma_byte_len_first(s);
        lemma_byte_len_utf8(s.drop_first());
    }
}

/// The length of a text in bytes.
pub fn str_len(s: &str) -> (n: usize)
    ensures
        n == byte_len(s@),
{
    proof {
        lemma_byte_len_utf8(s@);
    }
    s.as_bytes().len()
}

/// The length of a character in bytes.
pub fn width_of(c: char) -> (n: usize)
    ensures
        n == char_width(c),
{
    let u: u32 = c as u32;
    if u < 0x80 {
        1
    } else if u < 0x800 {
        2
    } else if u < 0x10000 {
        3
    } else {
        4
    }
}

/// The characters of a text.
pub fn chars_of(s: &str) -> (v: Vec<char>)
    ensures
        v@ == s@,
{
    let mut v: Vec<char> = Vec::new();
    for c in it: s.chars()
        invariant
            it.seq() == s@,
            v@ == s@.take(it.index() as int),
    {
        v.push(c);
        assert(s@.take(it.index() + 1) =~= s@.take(it.index() as int).push(c));
    }
    assert(v@ =~= s@);
    v
}

/// The number of characters before byte `offset`, if that lies on a boundary.
pub fn locate(cs: &Vec<char>, offset: usize) -> (r: Option<usize>)
    ensures
        match r {
            Some(i) => is_boundary(cs@, offset as int) && i == index_at(cs@, offset as int),
            None => !is_boundary(cs@, offset as int),
        },
{
    let mut rest: usize = offset;
    let mut i: usize = 0;
    assert(cs@.take(0) =~= Seq::<char>::empty());
    while i < cs.len() && rest > 0
        invariant
            i <= cs.len(),
            byte_len(cs@.take(i as int)) + rest == offset,
        decreases cs.len() - i,
    {
        let w: usize = width_of(cs[i]);
        assert(cs@.take(i + 1).drop_last() =~= cs@.take(i as int));
        if w > rest {
            proof {
                if is_boundary(cs@, offset as int) {
                    lemma_boundary(cs@, offset as int);
                    let j = index_at(cs@, offset as int);
                    if j <= i {
                        lemma_prefix_grows(cs@, j, i as int);
                    } else {
                        lemma_prefix_grows(cs@, i + 1, j);
                    }
                }
            }
            return None;
        }
        rest = rest - w;
        i = i + 1;
    }
    if rest == 0 {
        proof {
            lemma_index_at(cs@, i as int, offset as int);
        }
        Some(i)
    } else {
        proof {
            if is_boundary(cs@, offset as int) {
                lemma_boundary(cs@, offset as int);
                lemma_prefix_grows(cs@, index_at(cs@, offset as int), i as int);
            }
        }
        None
    }
}

// ---------------------------------------------------------------------------
// Pieces of a text
// ---------------------------------------------------------------------------

/// Appends the characters `from..to` to a string.
pub fn push_range(out: &mut String, cs: &Vec<char>, from: usize, to: usize)
    requires
        from <= to <= cs.len(),
    ensures
        final(out)@ == old(out)@ + cs@.subrange(from as int, to as int),
{
    let ghost before = out@;
    let mut i: usize = from;
    assert(out@ =~= before + cs@.subrange(from as int, from as int));
    while i < to
        invariant
            from <= i <= to <= cs.len(),
            out@ == before + cs@.subrange(from as int, i as int),
        decreases to - i,
    {
        out.push(cs[i]);
        assert(out@ =~= before + cs@.subrange(from as int, i + 1));
        i = i + 1;
    }
}

/// Appends a text to a string.
pub fn push_text(out: &mut String, text: &str)
    ensures
        final(out)@ == old(out)@ + text@,
{
    out.append(text);
}

/// The characters `from..to` as a string.
pub fn slice_of(cs: &Vec<char>, from: usize, to: usize) -> (r: String)
    requires
        from <= to <= cs.len(),
    ensures
        r@ == cs@.subrange(from as int, to as int),
{
    let mut out = String::new();
    push_range(&mut out, cs, from, to);
    assert(out@ =~= cs@.subrange(from as int, to as int));
    out
}

/// Two texts, one after the other.
pub fn concat2(a: &str, b: &str) -> (r: String)
    ensures
        r@ == a@ + b@,
{
    let mut out = String::new();
    out.append(a);
    out.append(b);
    assert(out@ =~= a@ + b@);
    out
}

/// Three texts, one after the other.
pub fn concat3(a: &str, b: &str, c: &str) -> (r: String)
    ensures
        r@ == a@ + b@ + c@,
{
    let mut out = concat2(a, b);
    out.append(c);
    out
}

pub fn same_text(a: &str, b: &str) -> (r: bool)
    ensures
        r == (a@ == b@),
{
    let x = chars_of(a);
    let y = chars_of(b);
    if x.len() != y.len() {
        return false;
    }
    let mut i: usize = 0;
    while i < x.len()
        invariant
            x@ == a@,
            y@ == b@,
            i <= x.len() == y.len(),
            forall|k: int| 0 <= k < i ==> x@[k] == y@[k],
        decreases x.len() - i,
    {
        if x[i] != y[i] {
            assert(a@[i as int] != b@[i as int]);
            return false;
        }
        i = i + 1;
    }
    assert(x@ =~= y@);
    true
}

/// The pattern stands at index `i` of the text.
pub open spec fn matches_at(s: Seq<char>, i: int, p: Seq<char>) -> bool {
    0 <= i && i + p.len() <= s.len() && s.subrange(i, i + p.len()) == p
}

/// The text starts with the pattern.
pub open spec fn has_prefix(s: Seq<char>, p: Seq<char>) -> bool {
    p.len() <= s.len() && s.take(p.len() as int) == p
}

/// The text ends with the pattern.
pub open spec fn has_suffix(s: Seq<char>, p: Seq<char>) -> bool {
    p.len() <= s.len() && s.skip(s.len() - p.len()) == p
}

pub fn match_at(cs: &Vec<char>, at: usize, p: &Vec<char>) -> (r: bool)
    ensures
        r == matches_at(cs@, at as int, p@),
{
    if at > cs.len() || p.len() > cs.len() - at {
        return false;
    }
    let mut k: usize = 0;
    while k < p.len()
        invariant
            k <= p.len(),
            at + p.len() <= cs.len(),
            forall|j: int| 0 <= j < k ==> cs@[at + j] == p@[j],
        decreases p.len() - k,
    {
        if cs[at + k] != p[k] {
            assert(cs@.subrange(at as int, at + p@.len())[k as int] != p@[k as int]);
            return false;
        }
        k = k + 1;
    }
    assert(cs@.subrange(at as int, at + p@.len()) =~= p@);
    true
}

pub fn starts_with(cs: &Vec<char>, p: &str) -> (r: bool)
    ensures
        r == has_prefix(cs@, p@),
{
    let pv = chars_of(p);
    assert(cs@.len() >= pv@.len() ==> cs@.take(pv@.len() as int) =~= cs@.subrange(0, pv@.len() as int));
    match_at(cs, 0, &pv)
}

pub fn ends_with(cs: &Vec<char>, p: &str) -> (r: bool)
    ensures
        r == has_suffix(cs@, p@),
{
    let pv = chars_of(p);
    if pv.len() > cs.len() {
        return false;
    }
    assert(cs@.skip(cs@.len() - pv@.len()) =~= cs@.subrange(cs@.len() - pv@.len(), cs@.len() as int));
    match_at(cs, cs.len() - pv.len(), &pv)
}

/// The first index at or after `from` where the pattern stands.
pub open spec fn find_from(s: Seq<char>, p: Seq<char>, from: int) -> Option<int>
    decreases s.len() - from + 1,
{
    if from + p.len() > s.len() {
        None
    } else if matches_at(s, from, p) {
        Some(from)
    } else {
        find_from(s, p, from + 1)
    }
}

/// The last index before `to` where the pattern stands.
pub open spec fn find_last(s: Seq<char>, p: Seq<char>, to: int) -> Option<int>
    decreases to,
{
    if to <= 0 {
        None
    } else if matches_at(s, to - 1, p) {
        Some(to - 1)
    } else {
        find_last(s, p, to - 1)
    }
}

/// The pattern occurs in the text.
pub open spec fn contains_text(s: Seq<char>, p: Seq<char>) -> bool {
    find_from(s, p, 0) is Some
}

pub proof fn lemma_find_from(s: Seq<char>, p: Seq<char>, from: int)
    requires
        0 <= from,
    ensures
        match find_from(s, p, from) {
            Some(i) => from <= i && matches_at(s, i, p) && forall|k: int|
                from <= k < i ==> !matches_at(s, k, p),
            None => forall|k: int| from <= k ==> !matches_at(s, k, p),
        },
    decreases s.len() - from + 1,
{
    if from + p.len() <= s.len() && !matches_at(s, from, p) {
        lemma_find_from(s, p, from + 1);
    }
}

/// The first place of a pattern is the one that no earlier place precedes.
pub proof fn lemma_find_is(s: Seq<char>, p: Seq<char>, from: int, i: int)
    requires
        0 <= from <= i,
        matches_at(s, i, p),
        forall|k: int| from <= k < i ==> !matches_at(s, k, p),
    ensures
        find_from(s, p, from) == Some(i),
{
    lemma_find_from(s, p, from);
    assert(find_from(s, p, from) is Some);
    let j = find_from(s, p, from).unwrap();
    assert(matches_at(s, j, p));
}

pub proof fn lemma_find_last(s: Seq<char>, p: Seq<char>, to: int)
    ensures
        match find_last(s, p, to) {
            Some(i) => 0 <= i < to && matches_at(s, i, p) && forall|k: int|
                i < k < to ==> !matches_at(s, k, p),
            None => forall|k: int| 0 <= k < to ==> !matches_at(s, k, p),
        },
    decreases to,
{
    if to > 0 && !matches_at(s, to - 1, p) {
        lemma_find_last(s, p, to - 1);
    }
}

pub fn find_at(cs: &Vec<char>, p: &Vec<char>, from: usize) -> (r: Option<usize>)
    ensures
        match r {
            Some(i) => find_from(cs@, p@, from as int) == Some(i as int) && i + p@.len()
                <= cs@.len() && from <= i,
            None => find_from(cs@, p@, from as int) is None,
        },
{
    if p.len() > cs.len() {
        return None;
    }
    let last: usize = cs.len() - p.len();
    let mut i: usize = from;
    while i <= last
        invariant
            from <= i,
            last + p.len() == cs.len(),
            find_from(cs@, p@, from as int) == find_from(cs@, p@, i as int),
        decreases last + 1 - i,
    {
        if match_at(cs, i, p) {
            return Some(i);
        }
        if i == last {
            assert(find_from(cs@, p@, i as int) == find_from(cs@, p@, i + 1));
            return None;
        }
        i = i + 1;
    }
    None
}

/// The first place of a pattern in a text, as a character index.
pub fn find(cs: &Vec<char>, p: &str) -> (r: Option<usize>)
    ensures
        match r {
            Some(i) => find_from(cs@, p@, 0) == Some(i as int) && i + p@.len() <= cs@.len(),
            None => find_from(cs@, p@, 0) is None,
        },
{
    let pv = chars_of(p);
    find_at(cs, &pv, 0)
}

/// Whether a pattern occurs in a text.
pub fn contains(s: &str, p: &str) -> (r: bool)
    ensures
        r == contains_text(s@, p@),
{
    let cs = chars_of(s);
    find(&cs, p).is_some()
}

/// The last place of a pattern that starts before `to`, as a character index.
pub fn rfind_at(cs: &Vec<char>, p: &Vec<char>, to: usize) -> (r: Option<usize>)
    ensures
        match r {
            Some(i) => find_last(cs@, p@, to as int) == Some(i as int) && i < to && i + p@.len()
                <= cs@.len(),
            None => find_last(cs@, p@, to as int) is None,
        },
{
    let mut i: usize = to;
    while i > 0
        invariant
            i <= to,
            find_last(cs@, p@, to as int) == find_last(cs@, p@, i as int),
        decreases i,
    {
        if match_at(cs, i - 1, p) {
            return Some(i - 1);
        }
        i = i - 1;
    }
    None
}

/// The text with every occurrence of the pattern, from left to right, replaced.
pub open spec fn replace_all(s: Seq<char>, p: Seq<char>, w: Seq<char>) -> Seq<char>
    decreases s.len(),
{
    if p.len() == 0 || s.len() < p.len() {
        s
    } else if has_prefix(s, p) {
        w + replace_all(s.skip(p.len() as int), p, w)
    } else {
        seq![s[0]] + replace_all(s.skip(1), p, w)
    }
}

/// The number of occurrences of the pattern, from left to right without overlap.
pub open spec fn count_of(s: Seq<char>, p: Seq<char>) -> nat
    decreases s.len(),
{
    if p.len() == 0 || s.len() < p.len() {
        0
    } else if has_prefix(s, p) {
        1 + count_of(s.skip(p.len() as int), p)
    } else {
        count_of(s.skip(1), p)
    }
}

proof fn lemma_prefix_of_rest(s: Seq<char>, i: int, p: Seq<char>)
    requires
        0 <= i <= s.len(),
    ensures
        has_prefix(s.skip(i), p) == matches_at(s, i, p),
{
    if i + p.len() <= s.len() {
        assert(s.skip(i).take(p.len() as int) =~= s.subrange(i, i + p.len()));
    }
}

/// The text with every occurrence of the pattern replaced.
pub fn replace(s: &str, p: &str, w: &str) -> (r: String)
    requires
        p@.len() > 0,
    ensures
        r@ == replace_all(s@, p@, w@),
{
    let cs = chars_of(s);
    let pv = chars_of(p);
    let mut out = String::new();
    let mut i: usize = 0;
    assert(cs@.skip(0) =~= cs@);
    assert(out@ + replace_all(cs@, p@, w@) =~= replace_all(cs@, p@, w@));
    while i < cs.len() && pv.len() <= cs.len() - i
        invariant
            i <= cs.len(),
            pv@ == p@,
            pv@.len() > 0,
            out@ + replace_all(cs@.skip(i as int), p@, w@) == replace_all(cs@, p@, w@),
        decreases cs.len() - i,
    {
        let ghost before = out@;
        proof {
            lemma_prefix_of_rest(cs@, i as int, p@);
        }
        if match_at(&cs, i, &pv) {
            out.append(w);
            assert(cs@.skip(i as int).skip(p@.len() as int) =~= cs@.skip(i + p@.len()));
            assert(out@ + replace_all(cs@.skip(i + p@.len()), p@, w@) =~= before + (w@
                + replace_all(cs@.skip(i + p@.len()), p@, w@)));
            i = i + pv.len();
        } else {
            out.push(cs[i]);
            assert(cs@.skip(i as int).skip(1) =~= cs@.skip(i + 1));
            assert(out@ + replace_all(cs@.skip(i + 1), p@, w@) =~= before + (seq![cs@[i as int]]
                + replace_all(cs@.skip(i + 1), p@, w@)));
            i = i + 1;
        }
    }
    push_range(&mut out, &cs, i, cs.len());
    assert(cs@.subrange(i as int, cs@.len() as int) =~= cs@.skip(i as int));
    out
}

/// The number of occurrences of a pattern.
pub fn count_matches(s: &str, p: &str) -> (n: usize)
    requires
        p@.len() > 0,
    ensures
        n == count_of(s@, p@),
{
    let cs = chars_of(s);
    let pv = chars_of(p);
    let mut n: usize = 0;
    let mut i: usize = 0;
    assert(cs@.skip(0) =~= cs@);
    while i < cs.len() && pv.len() <= cs.len() - i
        invariant
            i <= cs.len(),
            n <= i,
            pv@ == p@,
            pv@.len() > 0,
            n + count_of(cs@.skip(i as int), p@) == count_of(cs@, p@),
        decreases cs.len() - i,
    {
        proof {
            lemma_prefix_of_rest(cs@, i as int, p@);
        }
        if match_at(&cs, i, &pv) {
            assert(cs@.skip(i as int).skip(p@.len() as int) =~= cs@.skip(i + p@.len()));
            n = n + 1;
            i = i + pv.len();
        } else {
            assert(cs@.skip(i as int).skip(1) =~= cs@.skip(i + 1));
            i = i + 1;
        }
    }
    n
}

// ---------------------------------------------------------------------------
// Runs of characters
// ---------------------------------------------------------------------------

/// The Unicode property White_Space.
pub open spec fn is_white(c: char) -> bool {
    let u = c as u32;
    ||| 0x9 <= u <= 0xD
    ||| u == 0x20
    ||| u == 0x85
    ||| u == 0xA0
    ||| u == 0x1680
    ||| 0x2000 <= u <= 0x200A
    ||| u == 0x2028
    ||| u == 0x2029
    ||| u == 0x202F
    ||| u == 0x205F
    ||| u == 0x3000
}

/// The Unicode general category Cc.
pub open spec fn is_control_char(c: char) -> bool {
    let u = c as u32;
    u <= 0x1F || 0x7F <= u <= 0x9F
}

pub open spec fn is_digit(c: char) -> bool {
    '0' <= c <= '9'
}

pub open spec fn white() -> spec_fn(char) -> bool {
    |c: char| is_white(c)
}

pub open spec fn digits() -> spec_fn(char) -> bool {
    |c: char| is_digit(c)
}

/// The predicate that holds of one character.
pub open spec fn only(x: char) -> spec_fn(char) -> bool {
    |c: char| c == x
}

/// The number of leading characters with the property.
pub open spec fn run(s: Seq<char>, p: spec_fn(char) -> bool) -> nat
    decreases s.len(),
{
    if s.len() > 0 && p(s[0]) {
        1 + run(s.skip(1), p)
    } else {
        0
    }
}

/// The number of trailing characters with the property.
pub open spec fn run_back(s: Seq<char>, p: spec_fn(char) -> bool) -> nat
    decreases s.len(),
{
    if s.len() > 0 && p(s.last()) {
        1 + run_back(s.drop_last(), p)
    } else {
        0
    }
}

/// The text has nothing but white space.
pub open spec fn is_blank(s: Seq<char>) -> bool {
    forall|k: int| 0 <= k < s.len() ==> is_white(#[trigger] s[k])
}

pub open spec fn trim_start_of(s: Seq<char>) -> Seq<char> {
    s.skip(run(s, white()) as int)
}

pub open spec fn trim_end_of(s: Seq<char>) -> Seq<char> {
    s.take(s.len() - run_back(s, white()))
}

/// The text without the white space at its ends.
pub open spec fn trim_of(s: Seq<char>) -> Seq<char> {
    trim_end_of(trim_start_of(s))
}

/// A run is as long as its characters have the property, and no longer.
pub proof fn lemma_run_is(s: Seq<char>, p: spec_fn(char) -> bool, n: int)
    requires
        0 <= n <= s.len(),
        forall|k: int| 0 <= k < n ==> p(#[trigger] s[k]),
        n < s.len() ==> !p(s[n]),
    ensures
        run(s, p) == n,
    decreases n,
{
    if n > 0 {
        assert(p(s[0]));
        let t = s.skip(1);
        assert forall|k: int| 0 <= k < n - 1 implies p(#[trigger] t[k]) by {
            assert(t[k] == s[k + 1]);
        }
        lemma_run_is(t, p, n - 1);
    }
}

pub proof fn lemma_run(s: Seq<char>, p: spec_fn(char) -> bool)
    ensures
        run(s, p) <= s.len(),
        forall|k: int| 0 <= k < run(s, p) ==> p(#[trigger] s[k]),
        run(s, p) < s.len() ==> !p(s[run(s, p) as int]),
    decreases s.len(),
{
    if s.len() > 0 && p(s[0]) {
        let t = s.skip(1);
        lemma_run(t, p);
        assert forall|k: int| 0 <= k < run(s, p) implies p(#[trigger] s[k]) by {
            if k > 0 {
                assert(s[k] == t[k - 1]);
            }
        }
    }
}

pub proof fn lemma_run_back_is(s: Seq<char>, p: spec_fn(char) -> bool, n: int)
    requires
        0 <= n <= s.len(),
        forall|k: int| s.len() - n <= k < s.len() ==> p(#[trigger] s[k]),
        n < s.len() ==> !p(s[s.len() - n - 1]),
    ensures
        run_back(s, p) == n,
    decreases n,
{
    if n > 0 {
        assert(p(s[s.len() - 1]));
        let t = s.drop_last();
        assert forall|k: int| t.len() - (n - 1) <= k < t.len() implies p(#[trigger] t[k]) by {
            assert(t[k] == s[k]);
        }
        lemma_run_back_is(t, p, n - 1);
    }
}

pub proof fn lemma_run_back(s: Seq<char>, p: spec_fn(char) -> bool)
    ensures
        run_back(s, p) <= s.len(),
        forall|k: int| s.len() - run_back(s, p) <= k < s.len() ==> p(#[trigger] s[k]),
        run_back(s, p) < s.len() ==> !p(s[s.len() - run_back(s, p) - 1]),
    decreases s.len(),
{
    if s.len() > 0 && p(s.last()) {
        let t = s.drop_last();
        lemma_run_back(t, p);
        assert forall|k: int| s.len() - run_back(s, p) <= k < s.len() implies p(
            #[trigger] s[k],
        ) by {
            if k < s.len() - 1 {
                assert(s[k] == t[k]);
            }
        }
    }
}

/// Trimming leaves nothing exactly when the text is blank.
pub proof fn lemma_trim_blank(s: Seq<char>)
    ensures
        (trim_of(s).len() == 0) == is_blank(s),
        (trim_start_of(s).len() == 0) == is_blank(s),
{
    lemma_run(s, white());
    let n = run(s, white()) as int;
    let t = trim_start_of(s);
    lemma_run_back(t, white());
    if n < s.len() {
        assert(!is_white(s[n]));
        assert(t[0] == s[n]);
        if run_back(t, white()) == t.len() {
            assert(white()(t[0]));
        }
    } else {
        assert forall|k: int| 0 <= k < s.len() implies is_white(#[trigger] s[k]) by {
            assert(white()(s[k]));
        }
    }
}

/// A trimmed text neither starts nor ends with white space.
pub proof fn lemma_trimmed_ends(s: Seq<char>)
    ensures
        trim_of(s).len() > 0 ==> !is_white(trim_of(s)[0]) && !is_white(trim_of(s).last()),
        trim_of(s).len() <= s.len(),
        trim_start_of(s).len() <= s.len(),
{
    lemma_run(s, white());
    let t = trim_start_of(s);
    lemma_run_back(t, white());
    if trim_of(s).len() > 0 {
        assert(trim_of(s)[0] == t[0] == s[run(s, white()) as int]);
        assert(!white()(s[run(s, white()) as int]));
        assert(!white()(t[t.len() - run_back(t, white()) - 1]));
    }
}

/// A text that neither starts nor ends with white space is its own trimming.
pub proof fn lemma_trim_same(s: Seq<char>)
    requires
        s.len() > 0 ==> !is_white(s[0]) && !is_white(s.last()),
    ensures
        trim_of(s) == s,
{
    lemma_run_is(s, white(), 0);
    assert(s.skip(0) =~= s);
    lemma_run_back_is(s, white(), 0);
    assert(s.take(s.len() as int) =~= s);
}

pub fn char_is_white(c: char) -> (r: bool)
    ensures
        r == is_white(c),
{
    let u: u32 = c as u32;
    (0x9 <= u && u <= 0xD) || u == 0x20 || u == 0x85 || u == 0xA0 || u == 0x1680 || (0x2000 <= u
        && u <= 0x200A) || u == 0x2028 || u == 0x2029 || u == 0x202F || u == 0x205F || u == 0x3000
}

pub fn char_is_control(c: char) -> (r: bool)
    ensures
        r == is_control_char(c),
{
    let u: u32 = c as u32;
    u <= 0x1F || (0x7F <= u && u <= 0x9F)
}

pub fn char_is_digit(c: char) -> (r: bool)
    ensures
        r == is_digit(c),
{
    '0' <= c && c <= '9'
}

/// The number of white-space characters from index `from` on.
pub fn white_run(cs: &Vec<char>, from: usize) -> (n: usize)
    requires
        from <= cs.len(),
    ensures
        n == run(cs@.skip(from as int), white()),
        from + n <= cs.len(),
{
    let mut n: usize = 0;
    while from + n < cs.len() && char_is_white(cs[from + n])
        invariant
            from + n <= cs.len(),
            forall|k: int| 0 <= k < n ==> white()(#[trigger] cs@.skip(from as int)[k]),
        decreases cs.len() - n,
    {
        n = n + 1;
    }
    proof {
        lemma_run_is(cs@.skip(from as int), white(), n as int);
    }
    n
}

/// The number of decimal digits from index `from` on.
pub fn digit_run(cs: &Vec<char>, from: usize) -> (n: usize)
    requires
        from <= cs.len(),
    ensures
        n == run(cs@.skip(from as int), digits()),
        from + n <= cs.len(),
{
    let mut n: usize = 0;
    while from + n < cs.len() && char_is_digit(cs[from + n])
        invariant
            from + n <= cs.len(),
            forall|k: int| 0 <= k < n ==> digits()(#[trigger] cs@.skip(from as int)[k]),
        decreases cs.len() - n,
    {
        n = n + 1;
    }
    proof {
        lemma_run_is(cs@.skip(from as int), digits(), n as int);
    }
    n
}

/// The number of characters `x` from index `from` on.
pub fn char_run(cs: &Vec<char>, from: usize, x: char) -> (n: usize)
    requires
        from <= cs.len(),
    ensures
        n == run(cs@.skip(from as int), only(x)),
        from + n <= cs.len(),
{
    let mut n: usize = 0;
    while from + n < cs.len() && cs[from + n] == x
        invariant
            from + n <= cs.len(),
            forall|k: int| 0 <= k < n ==> only(x)(#[trigger] cs@.skip(from as int)[k]),
        decreases cs.len() - n,
    {
        n = n + 1;
    }
    proof {
        lemma_run_is(cs@.skip(from as int), only(x), n as int);
    }
    n
}

/// The number of characters `x` directly before index `to`.
pub fn char_run_back(cs: &Vec<char>, to: usize, x: char) -> (n: usize)
    requires
        to <= cs.len(),
    ensures
        n == run_back(cs@.take(to as int), only(x)),
        n <= to,
{
    let mut n: usize = 0;
    while n < to && cs[to - n - 1] == x
        invariant
            n <= to <= cs.len(),
            forall|k: int| to - n <= k < to ==> only(x)(#[trigger] cs@.take(to as int)[k]),
        decreases to - n,
    {
        n = n + 1;
    }
    proof {
        lemma_run_back_is(cs@.take(to as int), only(x), n as int);
    }
    n
}

fn white_run_back(cs: &Vec<char>, from: usize) -> (n: usize)
    requires
        from <= cs.len(),
    ensures
        n == run_back(cs@.skip(from as int), white()),
        from + n <= cs.len(),
{
    let mut n: usize = 0;
    let ghost t = cs@.skip(from as int);
    while from + n < cs.len() && char_is_white(cs[cs.len() - n - 1])
        invariant
            from + n <= cs.len(),
            t == cs@.skip(from as int),
            forall|k: int| t.len() - n <= k < t.len() ==> white()(#[trigger] t[k]),
        decreases cs.len() - n,
    {
        assert(t[t.len() - n - 1] == cs@[cs@.len() - n - 1]);
        n = n + 1;
    }
    proof {
        if n < t.len() {
            assert(t[t.len() - n - 1] == cs@[cs@.len() - n - 1]);
        }
        lemma_run_back_is(t, white(), n as int);
    }
    n
}

/// The bounds of the trimmed text within the text.
pub fn trim_bounds(cs: &Vec<char>) -> (r: (usize, usize))
    ensures
        r.0 <= r.1 <= cs.len(),
        cs@.subrange(r.0 as int, r.1 as int) == trim_of(cs@),
{
    assert(cs@.skip(0) =~= cs@);
    let from: usize = white_run(cs, 0);
    let back: usize = white_run_back(cs, from);
    assert(cs@.subrange(from as int, cs@.len() - back) =~= trim_of(cs@));
    (from, cs.len() - back)
}

/// The text without the white space at its ends.
pub fn trim(s: &str) -> (r: String)
    ensures
        r@ == trim_of(s@),
{
    let cs = chars_of(s);
    let (from, to) = trim_bounds(&cs);
    slice_of(&cs, from, to)
}

/// Whether the text has nothing but white space.
pub fn blank(s: &str) -> (r: bool)
    ensures
        r == is_blank(s@),
{
    let cs = chars_of(s);
    proof {
        lemma_trim_blank(s@);
    }
    let (from, to) = trim_bounds(&cs);
    from == to
}

// ---------------------------------------------------------------------------
// ASCII case
// ---------------------------------------------------------------------------

pub open spec fn lower_char(c: char) -> char {
    if 'A' <= c <= 'Z' {
        ((c as u32 + 32) as u8) as char
    } else {
        c
    }
}

/// The text with the letters `A` to `Z` in lower case.
pub open spec fn ascii_lower(s: Seq<char>) -> Seq<char> {
    s.map_values(|c: char| lower_char(c))
}

pub fn char_to_lower(c: char) -> (r: char)
    ensures
        r == lower_char(c),
{
    if 'A' <= c && c <= 'Z' {
        ((c as u32 + 32) as u8) as char
    } else {
        c
    }
}

pub fn to_ascii_lowercase(s: &str) -> (r: String)
    ensures
        r@ == ascii_lower(s@),
{
    let cs = chars_of(s);
    let mut out = String::new();
    let mut i: usize = 0;
    while i < cs.len()
        invariant
            i <= cs.len(),
            out@ == ascii_lower(cs@.take(i as int)),
        decreases cs.len() - i,
    {
        out.push(char_to_lower(cs[i]));
        assert(out@ =~= ascii_lower(cs@.take(i + 1)));
        i = i + 1;
    }
    assert(cs@.take(i as int) =~= cs@);
    out
}

/// Whether two texts are equal but for the case of the letters `A` to `Z`.
pub fn eq_ignore_case(a: &str, b: &str) -> (r: bool)
    ensures
        r == (ascii_lower(a@) == ascii_lower(b@)),
{
    let x = to_ascii_lowercase(a);
    let y = to_ascii_lowercase(b);
    same_text(&x, &y)
}

/// The first `n` characters of a text, or all of a shorter one.
pub open spec fn first_chars(s: Seq<char>, n: int) -> Seq<char> {
    s.take(min_of(n, s.len() as int))
}

pub fn take_chars(s: &str, n: usize) -> (r: String)
    ensures
        r@ == first_chars(s@, n as int),
{
    let cs = chars_of(s);
    let m: usize = if n <= cs.len() {
        n
    } else {
        cs.len()
    };
    assert(cs@.subrange(0, m as int) =~= cs@.take(m as int));
    slice_of(&cs, 0, m)
}

} // verus!
