//! The lines of a text, and texts joined from pieces.

use vstd::prelude::*;

use crate::text::{byte_len, chars_of, lemma_byte_len_concat, push_text, slice_of};

verus! {

/// The views of a row of strings.
pub open spec fn strs(v: Seq<String>) -> Seq<Seq<char>> {
    v.map_values(|s: String| s@)
}

pub proof fn lemma_strs_push(v: Seq<String>, s: String)
    ensures
        strs(v.push(s)) == strs(v).push(s@),
{
    assert(strs(v.push(s)) =~= strs(v).push(s@));
}

/// The pieces of a text between the separators: always one more than there are separators.
pub open spec fn fields(s: Seq<char>, sep: char) -> Seq<Seq<char>>
    decreases s.len(),
{
    if s.len() == 0 {
        seq![Seq::empty()]
    } else {
        let before = fields(s.drop_last(), sep);
        if s.last() == sep {
            before.push(Seq::empty())
        } else {
            before.drop_last().push(before.last().push(s.last()))
        }
    }
}

/// The lines of a text.
pub open spec fn lines_of(s: Seq<char>) -> Seq<Seq<char>> {
    fields(s, '\n')
}

/// Lines, each followed by a line feed.
pub open spec fn terminated(ls: Seq<Seq<char>>) -> Seq<char>
    decreases ls.len(),
{
    if ls.len() == 0 {
        Seq::empty()
    } else {
        terminated(ls.drop_last()) + ls.last() + seq!['\n']
    }
}

/// Lines with a line feed between each two of them.
pub open spec fn unlines(ls: Seq<Seq<char>>) -> Seq<char> {
    if ls.len() == 0 {
        Seq::empty()
    } else {
        terminated(ls.drop_last()) + ls.last()
    }
}

/// Texts with a separator between each two of them.
pub open spec fn joined(ls: Seq<Seq<char>>, sep: Seq<char>) -> Seq<char>
    decreases ls.len(),
{
    if ls.len() == 0 {
        Seq::empty()
    } else if ls.len() == 1 {
        ls[0]
    } else {
        joined(ls.drop_last(), sep) + sep + ls.last()
    }
}

/// The byte at which line `k` of a text starts.
pub open spec fn line_start(s: Seq<char>, k: int) -> nat {
    byte_len(terminated(lines_of(s).take(k)))
}

pub proof fn lemma_fields_nonempty(s: Seq<char>, sep: char)
    ensures
        fields(s, sep).len() >= 1,
    decreases s.len(),
{
    if s.len() > 0 {
        lemma_fields_nonempty(s.drop_last(), sep);
    }
}

/// No field holds a separator.
pub proof fn lemma_fields_free(s: Seq<char>, sep: char)
    ensures
        forall|k: int, j: int|
            0 <= k < fields(s, sep).len() && 0 <= j < fields(s, sep)[k].len() ==> (
            #[trigger] fields(s, sep)[k][j]) != sep,
    decreases s.len(),
{
    lemma_fields_nonempty(s, sep);
    if s.len() > 0 {
        lemma_fields_nonempty(s.drop_last(), sep);
        lemma_fields_free(s.drop_last(), sep);
        let before = fields(s.drop_last(), sep);
        let now = fields(s, sep);
        assert forall|k: int, j: int| 0 <= k < now.len() && 0 <= j < now[k].len() implies (
        #[trigger] now[k][j]) != sep by {
            if s.last() == sep {
                if k < before.len() {
                    assert(now[k][j] == before[k][j]);
                }
            } else if k < before.len() - 1 {
                assert(now[k][j] == before[k][j]);
            } else {
                assert(now[k] == before.last().push(s.last()));
                if j < before.last().len() {
                    assert(now[k][j] == before[k][j]);
                }
            }
        }
    }
}

/// The lines of a text, put together again, are the text.
pub proof fn lemma_unlines(s: Seq<char>)
    ensures
        unlines(lines_of(s)) == s,
    decreases s.len(),
{
    lemma_fields_nonempty(s, '\n');
    if s.len() == 0 {
        assert(unlines(lines_of(s)) =~= s);
    } else {
        let t = s.drop_last();
        let before = lines_of(t);
        lemma_fields_nonempty(t, '\n');
        lemma_unlines(t);
        if s.last() == '\n' {
            assert(lines_of(s).drop_last() =~= before);
            assert(terminated(before) =~= t.push('\n'));
            assert(unlines(lines_of(s)) =~= s);
        } else {
            assert(lines_of(s).drop_last() =~= before.drop_last());
            assert(lines_of(s).last() == before.last().push(s.last()));
            assert(s =~= t.push(s.last()));
            assert(unlines(lines_of(s)) =~= s);
        }
    }
}

pub proof fn lemma_terminated_concat(a: Seq<Seq<char>>, b: Seq<Seq<char>>)
    ensures
        terminated(a + b) == terminated(a) + terminated(b),
    decreases b.len(),
{
    if b.len() == 0 {
        assert(a + b =~= a);
        assert(terminated(a + b) =~= terminated(a) + terminated(b));
    } else {
        assert((a + b).drop_last() =~= a + b.drop_last());
        lemma_terminated_concat(a, b.drop_last());
        assert(terminated(a + b) =~= terminated(a) + terminated(b));
    }
}

/// Lines before and lines from some line on, as parts of the whole.
pub proof fn lemma_unlines_concat(a: Seq<Seq<char>>, b: Seq<Seq<char>>)
    requires
        b.len() > 0,
    ensures
        unlines(a + b) == terminated(a) + unlines(b),
{
    assert((a + b).drop_last() =~= a + b.drop_last());
    lemma_terminated_concat(a, b.drop_last());
    assert(unlines(a + b) =~= terminated(a) + unlines(b));
}

/// What lies before a line is no longer than the text.
pub proof fn lemma_line_start_bound(s: Seq<char>, k: int)
    requires
        0 <= k < lines_of(s).len(),
    ensures
        line_start(s, k) + byte_len(lines_of(s)[k]) <= byte_len(s),
        k + 1 < lines_of(s).len() ==> line_start(s, k + 1) == line_start(s, k) + byte_len(
            lines_of(s)[k],
        ) + 1,
        k + 1 == lines_of(s).len() ==> line_start(s, k) + byte_len(lines_of(s)[k]) == byte_len(s),
{
    let ls = lines_of(s);
    lemma_unlines(s);
    let a = ls.take(k);
    let b = ls.skip(k);
    assert(ls =~= a + b);
    lemma_unlines_concat(a, b);
    lemma_byte_len_concat(terminated(a), unlines(b));
    let line = ls[k];
    assert(byte_len(seq!['\n']) == 1) by {
        reveal_with_fuel(byte_len, 2);
    }
    if b.len() == 1 {
        assert(b.drop_last() =~= Seq::empty());
        assert(unlines(b) =~= line);
    } else {
        let c = b.skip(1);
        assert(b =~= seq![line] + c);
        lemma_unlines_concat(seq![line], c);
        assert(seq![line].drop_last() =~= Seq::empty());
        assert(terminated(seq![line]) =~= line + seq!['\n']) by {
            reveal_with_fuel(terminated, 2);
        }
        lemma_byte_len_concat(line + seq!['\n'], unlines(c));
        lemma_byte_len_concat(line, seq!['\n']);
        let d = ls.take(k + 1);
        assert(d.drop_last() =~= a);
        assert(terminated(d) == terminated(a) + line + seq!['\n']);
        lemma_byte_len_concat(terminated(a) + line, seq!['\n']);
        lemma_byte_len_concat(terminated(a), line);
    }
}

/// Later lines start later.
pub proof fn lemma_line_starts_grow(s: Seq<char>, i: int, j: int)
    requires
        0 <= i < j < lines_of(s).len(),
    ensures
        line_start(s, i) + byte_len(lines_of(s)[i]) < line_start(s, j),
    decreases j - i,
{
    lemma_line_start_bound(s, i);
    if i + 1 < j {
        lemma_line_starts_grow(s, i + 1, j);
    }
}

/// The fields of a text that has none of the separators is the text alone.
pub proof fn lemma_fields_single(s: Seq<char>, sep: char)
    requires
        forall|k: int| 0 <= k < s.len() ==> s[k] != sep,
    ensures
        fields(s, sep) == seq![s],
    decreases s.len(),
{
    if s.len() == 0 {
        assert(s =~= Seq::empty());
    } else {
        lemma_fields_single(s.drop_last(), sep);
        assert(fields(s.drop_last(), sep).drop_last() =~= Seq::empty());
        assert(s.last() == s[s.len() - 1]);
        assert(s.drop_last().push(s.last()) =~= s);
        assert(fields(s, sep) =~= seq![s]);
    }
}

/// The fields of two texts with a separator between them are the fields of the two.
pub proof fn lemma_fields_concat(a: Seq<char>, b: Seq<char>, sep: char)
    ensures
        fields(a + seq![sep] + b, sep) == fields(a, sep) + fields(b, sep),
    decreases b.len(),
{
    let w = a + seq![sep] + b;
    lemma_fields_nonempty(b, sep);
    if b.len() == 0 {
        assert(w.drop_last() =~= a);
        assert(fields(w, sep) =~= fields(a, sep) + fields(b, sep));
    } else {
        let c = b.drop_last();
        lemma_fields_concat(a, c, sep);
        lemma_fields_nonempty(c, sep);
        assert(w.drop_last() =~= a + seq![sep] + c);
        let x = fields(a, sep) + fields(c, sep);
        assert(x.last() == fields(c, sep).last());
        assert(x.drop_last() =~= fields(a, sep) + fields(c, sep).drop_last());
        assert(fields(w, sep) =~= fields(a, sep) + fields(b, sep));
    }
}

/// Lines without line feeds are the lines of the text that they make up.
pub proof fn lemma_lines_of_unlines(ls: Seq<Seq<char>>)
    requires
        ls.len() > 0,
        forall|k: int, j: int| 0 <= k < ls.len() && 0 <= j < ls[k].len() ==> (#[trigger] ls[k][j])
            != '\n',
    ensures
        lines_of(unlines(ls)) == ls,
    decreases ls.len(),
{
    let last = ls.last();
    assert forall|j: int| 0 <= j < last.len() implies last[j] != '\n' by {
        assert(ls[ls.len() - 1][j] != '\n');
    }
    lemma_fields_single(last, '\n');
    if ls.len() == 1 {
        assert(terminated(ls.drop_last()) =~= Seq::empty());
        assert(unlines(ls) =~= last);
        assert(ls =~= seq![last]);
    } else {
        let r = ls.drop_last();
        assert forall|k: int, j: int| 0 <= k < r.len() && 0 <= j < r[k].len() implies (
        #[trigger] r[k][j]) != '\n' by {
            assert(ls[k][j] != '\n');
        }
        lemma_lines_of_unlines(r);
        assert(unlines(ls) =~= unlines(r) + seq!['\n'] + last);
        lemma_fields_concat(unlines(r), last, '\n');
        assert(ls =~= r + seq![last]);
    }
}

/// The pieces of a text between the separators.
pub fn split_fields(s: &str, sep: char) -> (v: Vec<String>)
    ensures
        strs(v@) == fields(s@, sep),
{
    let cs = chars_of(s);
    let mut v: Vec<String> = Vec::new();
    let mut from: usize = 0;
    let mut i: usize = 0;
    assert(cs@.take(0) =~= Seq::<char>::empty());
    assert(strs(v@).push(cs@.subrange(0, 0)) =~= fields(cs@.take(0), sep));
    while i < cs.len()
        invariant
            from <= i <= cs.len(),
            strs(v@).push(cs@.subrange(from as int, i as int)) == fields(cs@.take(i as int), sep),
        decreases cs.len() - i,
    {
        let ghost before = fields(cs@.take(i as int), sep);
        assert(cs@.take(i + 1).drop_last() =~= cs@.take(i as int));
        assert(before.drop_last() =~= strs(v@));
        if cs[i] == sep {
            let piece = slice_of(&cs, from, i);
            proof {
                lemma_strs_push(v@, piece);
            }
            v.push(piece);
            from = i + 1;
            assert(cs@.subrange(from as int, i + 1) =~= Seq::empty());
            assert(strs(v@).push(cs@.subrange(from as int, i + 1)) =~= before.push(Seq::empty()));
        } else {
            assert(cs@.subrange(from as int, i + 1) =~= cs@.subrange(from as int, i as int).push(
                cs@[i as int],
            ));
        }
        i = i + 1;
    }
    let piece = slice_of(&cs, from, i);
    proof {
        lemma_strs_push(v@, piece);
    }
    v.push(piece);
    assert(cs@.take(i as int) =~= cs@);
    v
}

/// The lines of a text.
pub fn split_lines(s: &str) -> (v: Vec<String>)
    ensures
        strs(v@) == lines_of(s@),
        v@.len() >= 1,
{
    proof {
        lemma_fields_nonempty(s@, '\n');
    }
    split_fields(s, '\n')
}

/// Appends the lines `from..to`, each with a line feed behind it.
pub fn push_terminated(out: &mut String, v: &Vec<String>, from: usize, to: usize)
    requires
        from <= to <= v.len(),
    ensures
        final(out)@ == old(out)@ + terminated(strs(v@).subrange(from as int, to as int)),
{
    let ghost before = out@;
    let mut i: usize = from;
    assert(strs(v@).subrange(from as int, from as int) =~= Seq::empty());
    assert(out@ =~= before + terminated(Seq::empty()));
    while i < to
        invariant
            from <= i <= to <= v.len(),
            out@ == before + terminated(strs(v@).subrange(from as int, i as int)),
        decreases to - i,
    {
        push_text(out, &v[i]);
        out.push('\n');
        let ghost now = strs(v@).subrange(from as int, i + 1);
        assert(now.drop_last() =~= strs(v@).subrange(from as int, i as int));
        assert(now.last() == v@[i as int]@);
        assert(out@ =~= before + terminated(now));
        i = i + 1;
    }
}

/// Lines with a line feed between each two of them.
pub fn join_lines(v: &Vec<String>) -> (r: String)
    ensures
        r@ == unlines(strs(v@)),
{
    let mut out = String::new();
    if v.len() > 0 {
        push_terminated(&mut out, v, 0, v.len() - 1);
        push_text(&mut out, &v[v.len() - 1]);
        assert(strs(v@).subrange(0, v@.len() - 1) =~= strs(v@).drop_last());
        assert(out@ =~= unlines(strs(v@)));
    } else {
        assert(out@ =~= unlines(strs(v@)));
    }
    out
}

/// Texts with a separator between each two of them.
pub fn join(v: &Vec<String>, sep: &str) -> (r: String)
    ensures
        r@ == joined(strs(v@), sep@),
{
    let mut out = String::new();
    let mut i: usize = 0;
    while i < v.len()
        invariant
            i <= v.len(),
            out@ == joined(strs(v@).take(i as int), sep@),
        decreases v.len() - i,
    {
        let ghost now = strs(v@).take(i + 1);
        assert(now.drop_last() =~= strs(v@).take(i as int));
        assert(now.last() == v@[i as int]@);
        if i > 0 {
            push_text(&mut out, sep);
        }
        push_text(&mut out, &v[i]);
        assert(out@ =~= joined(now, sep@));
        i = i + 1;
    }
    assert(strs(v@).take(i as int) =~= strs(v@));
    out
}

/// The byte offsets at which the lines of a text start.
pub open spec fn line_starts_of(s: Seq<char>) -> Seq<int> {
    Seq::new(lines_of(s).len(), |k: int| line_start(s, k) as int)
}

/// The last of the starts that is not beyond the offset; the first one where all are.
pub open spec fn last_start_at(starts: Seq<int>, offset: int) -> int
    decreases starts.len(),
{
    if starts.len() <= 1 {
        0
    } else if starts.last() <= offset {
        starts.len() - 1
    } else {
        last_start_at(starts.drop_last(), offset)
    }
}

/// The line of a text that holds the byte offset.
pub open spec fn line_at(s: Seq<char>, offset: int) -> int {
    last_start_at(line_starts_of(s), offset)
}

pub proof fn lemma_last_start(starts: Seq<int>, offset: int, k: int)
    requires
        0 <= k < starts.len(),
        k == 0 || starts[k] <= offset,
        forall|j: int| k < j < starts.len() ==> starts[j] > offset,
    ensures
        last_start_at(starts, offset) == k,
    decreases starts.len(),
{
    if starts.len() > 1 && k < starts.len() - 1 {
        assert(starts[starts.len() - 1] > offset);
        let t = starts.drop_last();
        assert forall|j: int| k < j < t.len() implies t[j] > offset by {
            assert(t[j] == starts[j]);
        }
        lemma_last_start(t, offset, k);
    }
}

/// The line of an offset within the text starts at or before it, and the next line after it.
pub proof fn lemma_line_at_offset(s: Seq<char>, offset: int)
    requires
        0 <= offset,
    ensures
        0 <= line_at(s, offset) < lines_of(s).len(),
        line_start(s, line_at(s, offset)) <= offset,
        line_at(s, offset) + 1 < lines_of(s).len() ==> offset < line_start(
            s,
            line_at(s, offset) + 1,
        ),
{
    lemma_fields_nonempty(s, '\n');
    assert(lines_of(s).take(0) =~= Seq::empty());
    assert(line_start(s, 0) == 0);
    let n = lines_of(s).len() as int;
    lemma_line_search(s, offset, n - 1);
}

/// The line that holds an offset is the last one that starts at or before it.
pub proof fn lemma_line_is(s: Seq<char>, offset: int, k: int)
    requires
        0 <= k < lines_of(s).len(),
        line_start(s, k) <= offset,
        k + 1 < lines_of(s).len() ==> offset < line_start(s, k + 1),
    ensures
        line_at(s, offset) == k,
{
    let starts = line_starts_of(s);
    assert forall|j: int| k < j < starts.len() implies starts[j] > offset by {
        if k + 1 < j {
            lemma_line_starts_grow(s, k + 1, j);
        }
    }
    lemma_last_start(starts, offset, k);
}

proof fn lemma_line_search(s: Seq<char>, offset: int, k: int)
    requires
        0 <= k < lines_of(s).len(),
        line_start(s, 0) <= offset,
        k + 1 < lines_of(s).len() ==> offset < line_start(s, k + 1),
    ensures
        0 <= line_at(s, offset) < lines_of(s).len(),
        line_start(s, line_at(s, offset)) <= offset,
        line_at(s, offset) + 1 < lines_of(s).len() ==> offset < line_start(
            s,
            line_at(s, offset) + 1,
        ),
    decreases k,
{
    if line_start(s, k) <= offset {
        lemma_line_is(s, offset, k);
    } else {
        lemma_line_search(s, offset, k - 1);
    }
}

} // verus!
