//! What searching, replacing and trimming promise of every text.

use vstd::prelude::*;

use crate::lines::{joined, lemma_fields_concat, lemma_fields_single, lines_of};
use crate::number::decimal;
use crate::reply::pointer_token;
use crate::text::{
    ascii_lower, char_width, contains_text, count_of, find_from, find_last, first_chars,
    has_prefix, has_suffix, is_blank, is_digit, is_white, lemma_find_from, lemma_find_last,
    lemma_run_back_is, lemma_run_is, matches_at, replace_all, trim_of, trim_start_of, white,
};

verus! {

// ---------------------------------------------------------------------------
// Replacing and counting
// ---------------------------------------------------------------------------

/// The pattern starts nowhere in the first text, not even where it would go on in the second one.
pub open spec fn starts_not_in(a: Seq<char>, b: Seq<char>, p: Seq<char>) -> bool {
    forall|k: int| 0 <= k < a.len() ==> !#[trigger] matches_at(a + b, k, p)
}

proof fn lemma_starts_not_in_rest(a: Seq<char>, b: Seq<char>, p: Seq<char>)
    requires
        a.len() > 0,
        starts_not_in(a, b, p),
    ensures
        !has_prefix(a + b, p),
        starts_not_in(a.skip(1), b, p),
        (a + b).skip(1) == a.skip(1) + b,
{
    let s = a + b;
    assert(s.skip(1) =~= a.skip(1) + b);
    assert(!matches_at(s, 0, p));
    if has_prefix(s, p) {
        assert(s.subrange(0, p.len() as int) =~= s.take(p.len() as int));
    }
    assert forall|k: int| 0 <= k < a.skip(1).len() implies !#[trigger] matches_at(
        a.skip(1) + b,
        k,
        p,
    ) by {
        assert(!matches_at(s, k + 1, p));
        if matches_at(a.skip(1) + b, k, p) {
            assert(s.subrange(k + 1, k + 1 + p.len()) =~= (a.skip(1) + b).subrange(k, k + p.len()));
        }
    }
}

/// Replacing leaves everything as it is up to where the pattern starts, and goes on behind it.
pub proof fn law_replace(a: Seq<char>, b: Seq<char>, p: Seq<char>, w: Seq<char>)
    requires
        p.len() > 0,
    ensures
        starts_not_in(a, b, p) ==> replace_all(a + b, p, w) == a + replace_all(b, p, w),
        starts_not_in(a, p + b, p) ==> replace_all(a + p + b, p, w) == a + w + replace_all(b, p, w),
        starts_not_in(a, Seq::empty(), p) ==> replace_all(a, p, w) == a,
{
    if starts_not_in(a, b, p) {
        lemma_replace_skip(a, b, p, w);
    }
    if starts_not_in(a, p + b, p) {
        lemma_replace_skip(a, p + b, p, w);
        assert(a + p + b =~= a + (p + b));
        assert((p + b).take(p.len() as int) =~= p);
        assert((p + b).skip(p.len() as int) =~= b);
        assert(a + (w + replace_all(b, p, w)) =~= a + w + replace_all(b, p, w));
    }
    if starts_not_in(a, Seq::empty(), p) {
        lemma_replace_skip(a, Seq::empty(), p, w);
        assert(a + Seq::empty() =~= a);
    }
}

proof fn lemma_replace_skip(a: Seq<char>, b: Seq<char>, p: Seq<char>, w: Seq<char>)
    requires
        p.len() > 0,
        starts_not_in(a, b, p),
    ensures
        replace_all(a + b, p, w) == a + replace_all(b, p, w),
    decreases a.len(),
{
    let s = a + b;
    if a.len() == 0 {
        assert(s =~= b);
        assert(a + replace_all(b, p, w) =~= replace_all(b, p, w));
    } else {
        lemma_starts_not_in_rest(a, b, p);
        lemma_replace_skip(a.skip(1), b, p, w);
        if s.len() < p.len() {
            assert(a + replace_all(b, p, w) =~= s);
        } else {
            assert(seq![s[0]] + (a.skip(1) + replace_all(b, p, w)) =~= a + replace_all(b, p, w));
        }
    }
}

/// Every place where the pattern stands is counted once.
pub proof fn law_count(a: Seq<char>, b: Seq<char>, p: Seq<char>)
    requires
        p.len() > 0,
    ensures
        starts_not_in(a, p + b, p) ==> count_of(a + p + b, p) == 1 + count_of(b, p),
        starts_not_in(a, Seq::empty(), p) ==> count_of(a, p) == 0,
{
    if starts_not_in(a, p + b, p) {
        lemma_count_skip(a, p + b, p);
        assert(a + p + b =~= a + (p + b));
        assert((p + b).take(p.len() as int) =~= p);
        assert((p + b).skip(p.len() as int) =~= b);
    }
    if starts_not_in(a, Seq::empty(), p) {
        lemma_count_skip(a, Seq::empty(), p);
        assert(a + Seq::empty() =~= a);
    }
}

proof fn lemma_count_skip(a: Seq<char>, b: Seq<char>, p: Seq<char>)
    requires
        p.len() > 0,
        starts_not_in(a, b, p),
    ensures
        count_of(a + b, p) == count_of(b, p),
    decreases a.len(),
{
    if a.len() == 0 {
        assert(a + b =~= b);
    } else {
        lemma_starts_not_in_rest(a, b, p);
        lemma_count_skip(a.skip(1), b, p);
    }
}

// ---------------------------------------------------------------------------
// White space and letters
// ---------------------------------------------------------------------------

/// White space is what Unicode calls so: these characters and no others.
pub proof fn law_white_space(c: char)
    ensures
        is_white(c) <==> c == '\t' || c == '\n' || c == '\u{b}' || c == '\u{c}' || c == '\r' || c
            == ' ' || c == '\u{85}' || c == '\u{a0}' || c == '\u{1680}' || ('\u{2000}' <= c
            <= '\u{200a}') || c == '\u{2028}' || c == '\u{2029}' || c == '\u{202f}' || c
            == '\u{205f}' || c == '\u{3000}',
{
}

/// The text starts and ends with something other than white space, or is empty.
pub open spec fn is_tight(s: Seq<char>) -> bool {
    s.len() > 0 ==> !is_white(s[0]) && !is_white(s.last())
}

/// Trimming takes the white space from both ends of a text, and nothing else.
pub proof fn law_trim(a: Seq<char>, s: Seq<char>, b: Seq<char>)
    requires
        is_blank(a),
        is_tight(s),
        is_blank(b),
    ensures
        trim_of(a + s + b) == s,
{
    let w = a + s + b;
    if s.len() == 0 {
        assert(is_blank(w)) by {
            assert forall|k: int| 0 <= k < w.len() implies is_white(#[trigger] w[k]) by {
                if k < a.len() {
                    assert(is_white(a[k]));
                } else {
                    assert(is_white(b[k - a.len()]));
                }
            }
        }
        crate::text::lemma_trim_blank(w);
        assert(trim_of(w) =~= s);
    } else {
        assert forall|k: int| 0 <= k < a.len() implies white()(#[trigger] w[k]) by {
            assert(is_white(a[k]));
        }
        assert(w[a.len() as int] == s[0]);
        lemma_run_is(w, white(), a.len() as int);
        let t = trim_start_of(w);
        assert(t =~= s + b);
        assert forall|k: int| t.len() - b.len() <= k < t.len() implies white()(#[trigger] t[k]) by {
            assert(is_white(b[k - s.len()]));
        }
        assert(t[t.len() - b.len() - 1] == s.last());
        lemma_run_back_is(t, white(), b.len() as int);
        assert(trim_of(w) =~= s);
    }
}

/// Small letters stand for the capital ones of the same place in the alphabet, and every other
/// character for itself.
pub proof fn law_lower(s: Seq<char>, k: int)
    requires
        0 <= k < s.len(),
    ensures
        ascii_lower(s).len() == s.len(),
        'A' <= s[k] <= 'Z' ==> 'a' <= ascii_lower(s)[k] <= 'z' && ascii_lower(s)[k] as int - 'a' as int
            == s[k] as int - 'A' as int,
        !('A' <= s[k] <= 'Z') ==> ascii_lower(s)[k] == s[k],
{
}

/// The digits are those from zero to nine.
pub proof fn law_digit(c: char)
    ensures
        is_digit(c) <==> c == '0' || c == '1' || c == '2' || c == '3' || c == '4' || c == '5' || c
            == '6' || c == '7' || c == '8' || c == '9',
{
}

/// A text has as many bytes in UTF-8 as its characters have.
pub proof fn law_char_width(c: char)
    ensures
        char_width(c) == vstd::utf8::encode_utf8(seq![c]).len(),
{
    let u = c as u32;
    assert(seq![c].drop_first() =~= Seq::empty());
    reveal_with_fuel(vstd::utf8::encode_utf8, 2);
}

/// The start of a text is as long as it may be, and has the characters of the text.
pub proof fn law_first_chars(s: Seq<char>, n: int)
    requires
        0 <= n,
    ensures
        s.len() <= n ==> first_chars(s, n) == s,
        s.len() > n ==> first_chars(s, n).len() == n,
        forall|k: int| 0 <= k < first_chars(s, n).len() ==> #[trigger] first_chars(s, n)[k] == s[k],
{
    if s.len() <= n {
        assert(first_chars(s, n) =~= s);
    }
}

// ---------------------------------------------------------------------------
// Lines
// ---------------------------------------------------------------------------

/// The lines of a text are those before a line feed, and those behind it.
pub proof fn law_lines(a: Seq<char>, b: Seq<char>)
    ensures
        lines_of(a + seq!['\n'] + b) == lines_of(a) + lines_of(b),
        (forall|k: int| 0 <= k < a.len() ==> a[k] != '\n') ==> lines_of(a) == seq![a],
{
    lemma_fields_concat(a, b, '\n');
    if forall|k: int| 0 <= k < a.len() ==> a[k] != '\n' {
        lemma_fields_single(a, '\n');
    }
}

/// Joined texts stand in order, with the separator between each two of them.
pub proof fn law_joined(texts: Seq<Seq<char>>, last: Seq<char>, sep: Seq<char>)
    ensures
        joined(Seq::empty(), sep) == Seq::<char>::empty(),
        joined(seq![last], sep) == last,
        texts.len() > 0 ==> joined(texts.push(last), sep) == joined(texts, sep) + sep + last,
{
    assert(texts.push(last).drop_last() =~= texts);
}

// ---------------------------------------------------------------------------
// Numbers and searching
// ---------------------------------------------------------------------------

/// A number below ten is one digit, and every other one is the number of its tens followed by one
/// digit.
pub proof fn law_decimal(n: nat, d: nat)
    requires
        d < 10,
    ensures
        decimal(d).len() == 1 && decimal(d)[0] as u32 == '0' as u32 + d,
        n > 0 ==> decimal(10 * n + d) == decimal(n) + decimal(d),
{
    if n > 0 {
        assert((10 * n + d) / 10 == n && (10 * n + d) % 10 == d);
        assert(decimal(10 * n + d) =~= decimal(n) + decimal(d));
    }
}

/// A text occurs in another one just where it stands somewhere in it.
pub proof fn law_contains(a: Seq<char>, p: Seq<char>, b: Seq<char>)
    ensures
        contains_text(a + p + b, p),
        (forall|k: int| 0 <= k ==> !matches_at(a, k, p)) ==> !contains_text(a, p),
{
    let s = a + p + b;
    lemma_find_from(s, p, 0);
    assert(s.subrange(a.len() as int, (a.len() + p.len()) as int) =~= p);
    assert(matches_at(s, a.len() as int, p));
    lemma_find_from(a, p, 0);
}

/// The first place is found before all others, and the last one behind all others.
pub proof fn law_first_and_last(s: Seq<char>, p: Seq<char>, k: int)
    requires
        0 <= k < s.len(),
        matches_at(s, k, p),
    ensures
        find_from(s, p, 0) is Some && find_from(s, p, 0).unwrap() <= k && matches_at(
            s,
            find_from(s, p, 0).unwrap(),
            p,
        ),
        find_last(s, p, s.len() as int) is Some && find_last(s, p, s.len() as int).unwrap() >= k
            && matches_at(s, find_last(s, p, s.len() as int).unwrap(), p),
{
    lemma_find_from(s, p, 0);
    lemma_find_last(s, p, s.len() as int);
}

/// A text starts and ends with what was put before and behind it, and holds what was put into it.
pub proof fn law_ends(a: Seq<char>, p: Seq<char>, b: Seq<char>)
    ensures
        has_prefix(p + b, p),
        has_suffix(a + p, p),
        matches_at(a + p + b, a.len() as int, p),
        p.len() > b.len() ==> !has_prefix(b, p) && !has_suffix(b, p),
        has_prefix(b, p) ==> forall|k: int| 0 <= k < p.len() ==> b[k] == p[k],
        has_suffix(b, p) ==> forall|k: int| 0 <= k < p.len() ==> b[b.len() - p.len() + k] == p[k],
{
    assert((p + b).take(p.len() as int) =~= p);
    assert((a + p).skip(a.len() as int) =~= p);
    assert((a + p + b).subrange(a.len() as int, (a.len() + p.len()) as int) =~= p);
    if has_prefix(b, p) {
        assert forall|k: int| 0 <= k < p.len() implies b[k] == p[k] by {
            assert(b.take(p.len() as int)[k] == b[k]);
        }
    }
    if has_suffix(b, p) {
        assert forall|k: int| 0 <= k < p.len() implies b[b.len() - p.len() + k] == p[k] by {
            assert(b.skip(b.len() - p.len())[k] == b[b.len() - p.len() + k]);
        }
    }
}

/// In a pointer into a JSON value, a tilde and a slash in a key are written with a tilde and a digit.
pub proof fn law_pointer_token(a: Seq<char>, b: Seq<char>)
    requires
        forall|k: int| 0 <= k < a.len() ==> a[k] != '~' && a[k] != '/',
    ensures
        pointer_token(a) == a,
        pointer_token(a + seq!['~'] + b) == a + seq!['~', '0'] + pointer_token(b),
        pointer_token(a + seq!['/'] + b) == a + seq!['~', '1'] + pointer_token(b),
{
    reveal_strlit("~");
    reveal_strlit("~0");
    reveal_strlit("/");
    reveal_strlit("~1");
    assert("~"@ =~= seq!['~']);
    assert("~0"@ =~= seq!['~', '0']);
    assert("/"@ =~= seq!['/']);
    assert("~1"@ =~= seq!['~', '1']);
    let none = Seq::<char>::empty();
    let more = replace_all(b, "~"@, "~0"@);
    lemma_absent_char(a, none, '~');
    lemma_absent_char(a, none, '/');
    law_replace(a, none, "~"@, "~0"@);
    law_replace(a, none, "/"@, "~1"@);
    // A tilde.
    lemma_absent_char(a, "~"@ + b, '~');
    law_replace(a, b, "~"@, "~0"@);
    let tilde = a + seq!['~', '0'];
    lemma_absent_char(tilde, more, '/');
    law_replace(tilde, more, "/"@, "~1"@);
    // A slash.
    let slash = a + seq!['/'];
    lemma_absent_char(slash, b, '~');
    law_replace(slash, b, "~"@, "~0"@);
    lemma_absent_char(a, "/"@ + more, '/');
    law_replace(a, more, "/"@, "~1"@);
    assert(slash + more =~= a + "/"@ + more);
}

proof fn lemma_absent_char(a: Seq<char>, b: Seq<char>, c: char)
    requires
        forall|k: int| 0 <= k < a.len() ==> a[k] != c,
    ensures
        starts_not_in(a, b, seq![c]),
{
    let s = a + b;
    assert forall|k: int| 0 <= k < a.len() implies !#[trigger] matches_at(s, k, seq![c]) by {
        if matches_at(s, k, seq![c]) {
            assert(s.subrange(k, k + 1)[0] == a[k]);
        }
    }
}

} // verus!
