//! Edits of Markdown text: each takes a document and a selection in bytes, and gives the new
//! document with the next cursor.

use std::ops::Range;
use vstd::prelude::*;
use vstd::string::StrSliceExecFns;

use crate::editing_laws::law_toggle_cursor;
use crate::lines::{
    join, join_lines, joined, last_start_at, lemma_last_start, lemma_line_at_offset,
    lemma_line_start_bound, lemma_line_starts_grow, lemma_strs_push, lemma_unlines_concat, line_at,
    line_start, line_starts_of, lines_of, split_lines, strs, terminated, unlines,
};
use crate::number::{decimal, number_of, parse_digits, to_decimal};
use crate::text::{
    blank, byte_len, char_is_white, char_run, char_run_back, char_width, chars_of, concat2,
    concat3, digit_run, digits, ends_with, find_at, find_from, find_last, has_prefix, has_suffix,
    index_at, is_blank, is_boundary, is_digit, is_white, lemma_boundary, lemma_boundary_order,
    lemma_byte_len_concat, lemma_byte_len_split, lemma_run, locate, max_of, min_of, only,
    push_range, push_text, rfind_at, run, run_back, same_text, slice_of, starts_with, str_len,
    trim, trim_of,
};

verus! {

// ---------------------------------------------------------------------------
// Lines and selections
// ---------------------------------------------------------------------------

/// The selection within the text: both ends are at most its length, and the second is not before
/// the first.
pub open spec fn clip(text: Seq<char>, range: Range<usize>) -> (int, int) {
    let a = min_of(range.start as int, byte_len(text) as int);
    (a, max_of(min_of(range.end as int, byte_len(text) as int), a))
}

fn clip_range(text: &str, range: &Range<usize>) -> (r: (usize, usize))
    ensures
        (r.0 as int, r.1 as int) == clip(text@, *range),
        r.0 <= r.1 <= byte_len(text@),
{
    let len: usize = str_len(text);
    let start: usize = if range.start <= len {
        range.start
    } else {
        len
    };
    let end: usize = if range.end <= len {
        range.end
    } else {
        len
    };
    if end >= start {
        (start, end)
    } else {
        (start, start)
    }
}

/// The byte offsets at which the lines of a text start.
pub fn line_starts(content: &str) -> (starts: Vec<usize>)
    ensures
        starts@.map_values(|n: usize| n as int) == line_starts_of(content@),
        starts@.len() == lines_of(content@).len() >= 1,
        forall|k: int| 0 <= k < starts@.len() ==> starts@[k] == line_start(content@, k),
{
    let lines = split_lines(content);
    let total: usize = str_len(content);
    let mut starts: Vec<usize> = Vec::new();
    starts.push(0);
    assert(lines_of(content@).take(0) =~= Seq::empty());
    let mut k: usize = 1;
    while k < lines.len()
        invariant
            1 <= k <= lines.len(),
            strs(lines@) == lines_of(content@),
            total == byte_len(content@),
            starts@.len() == k,
            forall|j: int| 0 <= j < k ==> starts@[j] == line_start(content@, j),
        decreases lines.len() - k,
    {
        proof {
            lemma_line_start_bound(content@, k - 1);
            lemma_line_start_bound(content@, k as int);
        }
        let width: usize = str_len(&lines[k - 1]);
        assert(strs(lines@)[k - 1] == lines@[k - 1]@);
        starts.push(starts[k - 1] + width + 1);
        k = k + 1;
    }
    assert(starts@.map_values(|n: usize| n as int) =~= line_starts_of(content@));
    starts
}

/// The byte at which line `line` ends, given where the lines start.
pub fn line_end(starts: &[usize], line: usize, content_len: usize) -> (r: usize)
    requires
        line < usize::MAX,
    ensures
        r == if line + 1 < starts@.len() {
            if starts@[line + 1] > 0 {
                starts@[line + 1] - 1
            } else {
                0
            }
        } else {
            content_len as int
        },
{
    if line + 1 < starts.len() {
        if starts[line + 1] > 0 {
            starts[line + 1] - 1
        } else {
            0
        }
    } else {
        content_len
    }
}

/// Numbers in ascending order, none of them twice.
pub open spec fn ascending(starts: Seq<usize>) -> bool {
    forall|i: int, j: int| 0 <= i < j < starts.len() ==> starts[i] < starts[j]
}

/// The line that holds a byte offset, given where the lines start.
pub fn line_index(starts: &[usize], offset: usize) -> (r: usize)
    ensures
        ascending(starts@) ==> r == last_start_at(
            starts@.map_values(|n: usize| n as int),
            offset as int,
        ),
        r < starts@.len() || r == 0,
{
    let mut low: usize = 0;
    let mut high: usize = starts.len();
    while low < high
        invariant
            low <= high <= starts@.len(),
            ascending(starts@) ==> forall|k: int| 0 <= k < low ==> starts@[k] <= offset,
            ascending(starts@) ==> forall|k: int|
                high <= k < starts@.len() ==> starts@[k] > offset,
        decreases high - low,
    {
        let middle: usize = low + (high - low) / 2;
        if starts[middle] <= offset {
            assert forall|k: int| ascending(starts@) && 0 <= k < middle + 1 implies starts@[k]
                <= offset by {
                if k < middle {
                    assert(starts@[k] < starts@[middle as int]);
                }
            }
            low = middle + 1;
        } else {
            assert forall|k: int| ascending(starts@) && middle <= k < starts@.len() implies starts@[k]
                > offset by {
                if k > middle {
                    assert(starts@[middle as int] < starts@[k]);
                }
            }
            high = middle;
        }
    }
    let r: usize = if low == 0 {
        0
    } else {
        low - 1
    };
    proof {
        let all = starts@.map_values(|n: usize| n as int);
        if ascending(starts@) && starts@.len() > 0 {
            assert forall|j: int| r < j < all.len() implies all[j] > offset by {
                assert(starts@[j] > offset);
            }
            lemma_last_start(all, offset as int, r as int);
        }
    }
    r
}

/// The first and the last line that a selection touches. A selection that ends right behind a line
/// feed does not touch the line that follows.
pub open spec fn selected_lines(text: Seq<char>, range: Range<usize>) -> (int, int) {
    let a = min_of(range.start as int, byte_len(text) as int);
    let b = min_of(range.end as int, byte_len(text) as int);
    let end = if b > a && line_start(text, line_at(text, b)) == b {
        b - 1
    } else {
        b
    };
    (line_at(text, a), max_of(line_at(text, end), line_at(text, a)))
}

pub proof fn lemma_starts_ascending(text: Seq<char>, starts: Seq<usize>)
    requires
        starts.len() == lines_of(text).len(),
        forall|k: int| 0 <= k < starts.len() ==> starts[k] == line_start(text, k),
    ensures
        ascending(starts),
{
    assert forall|i: int, j: int| 0 <= i < j < starts.len() implies starts[i] < starts[j] by {
        lemma_line_starts_grow(text, i, j);
    }
}

pub proof fn lemma_selected_lines(text: Seq<char>, range: Range<usize>)
    ensures
        0 <= selected_lines(text, range).0 <= selected_lines(text, range).1 < lines_of(text).len(),
        line_start(text, selected_lines(text, range).0) <= clip(text, range).0,
        line_start(text, selected_lines(text, range).1) <= clip(text, range).1,
{
    let a = min_of(range.start as int, byte_len(text) as int);
    let b = min_of(range.end as int, byte_len(text) as int);
    lemma_line_at_offset(text, a);
    lemma_line_at_offset(text, b);
    if b > 0 {
        lemma_line_at_offset(text, b - 1);
    }
}

fn selected_line_span(text: &str, starts: &Vec<usize>, range: &Range<usize>) -> (r: (usize, usize))
    requires
        starts@.map_values(|n: usize| n as int) == line_starts_of(text@),
        starts@.len() == lines_of(text@).len(),
        forall|k: int| 0 <= k < starts@.len() ==> starts@[k] == line_start(text@, k),
    ensures
        (r.0 as int, r.1 as int) == selected_lines(text@, *range),
        r.0 <= r.1 < starts@.len(),
{
    proof {
        lemma_starts_ascending(text@, starts@);
        lemma_selected_lines(text@, *range);
    }
    let len: usize = str_len(text);
    let start: usize = if range.start <= len {
        range.start
    } else {
        len
    };
    let mut end: usize = if range.end <= len {
        range.end
    } else {
        len
    };
    proof {
        lemma_line_at_offset(text@, end as int);
    }
    if end > start && starts[line_index(starts.as_slice(), end)] == end {
        end = end - 1;
    }
    let first: usize = line_index(starts.as_slice(), start);
    let last: usize = line_index(starts.as_slice(), end);
    if last >= first {
        (first, last)
    } else {
        (first, first)
    }
}

/// The text with the lines `first..=last` replaced.
pub open spec fn with_lines(
    text: Seq<char>,
    first: int,
    last: int,
    new: Seq<Seq<char>>,
) -> Seq<char> {
    unlines(lines_of(text).take(first) + new + lines_of(text).skip(last + 1))
}

fn copy_strings(out: &mut Vec<String>, v: &Vec<String>, from: usize, to: usize)
    requires
        from <= to <= v.len(),
    ensures
        strs(final(out)@) == strs(old(out)@) + strs(v@).subrange(from as int, to as int),
{
    let ghost before = strs(out@);
    let mut i: usize = from;
    assert(strs(out@) =~= before + strs(v@).subrange(from as int, from as int));
    while i < to
        invariant
            from <= i <= to <= v.len(),
            strs(out@) == before + strs(v@).subrange(from as int, i as int),
        decreases to - i,
    {
        let s = v[i].clone();
        proof {
            lemma_strs_push(out@, s);
        }
        out.push(s);
        assert(strs(out@) =~= before + strs(v@).subrange(from as int, i + 1));
        i = i + 1;
    }
}

/// The text with the lines `first..=last` replaced.
fn replace_lines(
    lines: &Vec<String>,
    first: usize,
    last: usize,
    new: &Vec<String>,
    Ghost(text): Ghost<Seq<char>>,
) -> (r: String)
    requires
        strs(lines@) == lines_of(text),
        first <= last < lines.len(),
    ensures
        r@ == with_lines(text, first as int, last as int, strs(new@)),
{
    let mut all: Vec<String> = Vec::new();
    copy_strings(&mut all, lines, 0, first);
    copy_strings(&mut all, new, 0, new.len());
    copy_strings(&mut all, lines, last + 1, lines.len());
    assert(strs(all@) =~= lines_of(text).take(first as int) + strs(new@) + lines_of(text).skip(
        last + 1,
    ));
    join_lines(&all)
}

/// What precedes the replaced lines and the lines themselves fit in the new text.
pub proof fn lemma_with_lines_len(text: Seq<char>, first: int, last: int, new: Seq<Seq<char>>)
    requires
        0 <= first <= last < lines_of(text).len(),
        new.len() > 0,
    ensures
        line_start(text, first) + byte_len(unlines(new)) <= byte_len(
            with_lines(text, first, last, new),
        ),
{
    let a = lines_of(text).take(first);
    let c = lines_of(text).skip(last + 1);
    assert(a + new + c =~= a + (new + c));
    lemma_unlines_concat(a, new + c);
    lemma_byte_len_concat(terminated(a), unlines(new + c));
    if c.len() == 0 {
        assert(new + c =~= new);
    } else {
        lemma_unlines_concat(new, c);
        lemma_byte_len_concat(terminated(new), unlines(c));
        assert(terminated(new) == unlines(new) + seq!['\n']);
        lemma_byte_len_concat(unlines(new), seq!['\n']);
    }
}

// ---------------------------------------------------------------------------
// Inline markers
// ---------------------------------------------------------------------------

/// The markers surround the selection, or are its first and last characters.
pub open spec fn marked_inside(selected: Seq<char>, prefix: Seq<char>, suffix: Seq<char>) -> bool {
    has_prefix(selected, prefix) && has_suffix(selected, suffix)
}

pub open spec fn marked_around(
    head: Seq<char>,
    tail: Seq<char>,
    prefix: Seq<char>,
    suffix: Seq<char>,
) -> bool {
    has_suffix(head, prefix) && has_prefix(tail, suffix)
}

/// What `wrap_or_unwrap` gives: the new text, and the start and end of the new selection.
pub open spec fn wrap_result(
    text: Seq<char>,
    range: Range<usize>,
    prefix: Seq<char>,
    suffix: Seq<char>,
) -> (Seq<char>, int, int) {
    let (a, b) = clip(text, range);
    if !is_boundary(text, a) || !is_boundary(text, b) {
        (text, a, b)
    } else {
        let head = text.take(index_at(text, a));
        let selected = text.subrange(index_at(text, a), index_at(text, b));
        let tail = text.skip(index_at(text, b));
        if a < b && marked_inside(selected, prefix, suffix) && selected.len() >= prefix.len()
            + suffix.len() {
            let inner = selected.subrange(prefix.len() as int, selected.len() - suffix.len());
            (head + inner + tail, a, a + byte_len(inner))
        } else if marked_around(head, tail, prefix, suffix) {
            let start = a - byte_len(prefix);
            (
                head.take(head.len() - prefix.len()) + selected + tail.skip(suffix.len() as int),
                start,
                start + byte_len(selected),
            )
        } else if a == b {
            (
                head + prefix + suffix + tail,
                a + byte_len(prefix),
                a + byte_len(prefix),
            )
        } else {
            (
                head + prefix + selected + suffix + tail,
                a,
                a + byte_len(prefix) + byte_len(selected) + byte_len(suffix),
            )
        }
    }
}

proof fn lemma_concat3_len(a: Seq<char>, b: Seq<char>, c: Seq<char>)
    ensures
        byte_len(a + b + c) == byte_len(a) + byte_len(b) + byte_len(c),
{
    lemma_byte_len_concat(a + b, c);
    lemma_byte_len_concat(a, b);
}

/// Wrap the selected range, or unwrap when the same markers already surround it.
/// Returns the new document and the next UTF-8 cursor range.
pub fn wrap_or_unwrap(text: &str, range: Range<usize>, prefix: &str, suffix: &str) -> (r: (
    String,
    Range<usize>,
))
    ensures
        (r.0@, r.1.start as int, r.1.end as int) == wrap_result(text@, range, prefix@, suffix@),
{
    let (start, end) = clip_range(text, &range);
    let cs = chars_of(text);
    let (i, j) = match (locate(&cs, start), locate(&cs, end)) {
        (Some(i), Some(j)) => (i, j),
        _ => {
            return (text.to_owned(), start..end);
        },
    };
    proof {
        lemma_boundary(text@, start as int);
        lemma_boundary(text@, end as int);
        lemma_boundary_order(text@, start as int, end as int);
    }
    let head = slice_of(&cs, 0, i);
    let selected = slice_of(&cs, i, j);
    let tail = slice_of(&cs, j, cs.len());
    assert(head@ =~= text@.take(i as int));
    assert(tail@ =~= text@.skip(j as int));
    let pv = chars_of(prefix);
    let sv = chars_of(suffix);
    let hv = chars_of(&head);
    let mv = chars_of(&selected);
    let tv = chars_of(&tail);
    if start < end && starts_with(&mv, prefix) && ends_with(&mv, suffix) && mv.len() - pv.len()
        >= sv.len() {
        let inner = slice_of(&mv, pv.len(), mv.len() - sv.len());
        let next = concat3(&head, &inner, &tail);
        proof {
            lemma_concat3_len(head@, inner@, tail@);
        }
        let total: usize = str_len(&next);
        let width: usize = str_len(&inner);
        return (next, start..start + width);
    }
    if ends_with(&hv, prefix) && starts_with(&tv, suffix) {
        let outer_head = slice_of(&hv, 0, hv.len() - pv.len());
        let outer_tail = slice_of(&tv, sv.len(), tv.len());
        let next = concat3(&outer_head, &selected, &outer_tail);
        proof {
            assert(outer_head@ =~= head@.take(head@.len() - prefix@.len()));
            assert(outer_tail@ =~= tail@.skip(suffix@.len() as int));
            lemma_byte_len_split(head@, head@.len() - prefix@.len());
            lemma_concat3_len(outer_head@, selected@, outer_tail@);
        }
        let total: usize = str_len(&next);
        let width: usize = str_len(&selected);
        let next_start: usize = start - str_len(prefix);
        return (next, next_start..next_start + width);
    }
    let opened = concat2(&head, prefix);
    if start == end {
        let next = concat3(&opened, suffix, &tail);
        proof {
            lemma_concat3_len(opened@, suffix@, tail@);
            lemma_byte_len_concat(head@, prefix@);
        }
        let total: usize = str_len(&next);
        let cursor: usize = start + str_len(prefix);
        return (next, cursor..cursor);
    }
    let closed = concat2(&selected, suffix);
    let next = concat3(&opened, &closed, &tail);
    proof {
        lemma_concat3_len(opened@, closed@, tail@);
        lemma_byte_len_concat(head@, prefix@);
        lemma_byte_len_concat(selected@, suffix@);
        assert(next@ =~= head@ + prefix@ + selected@ + suffix@ + tail@);
    }
    let total: usize = str_len(&next);
    let stop: usize = start + str_len(prefix) + str_len(&selected) + str_len(suffix);
    (next, start..stop)
}

/// The markers are around the selection, or at its ends.
pub open spec fn has_wrap(
    text: Seq<char>,
    range: Range<usize>,
    prefix: Seq<char>,
    suffix: Seq<char>,
) -> bool {
    let (a, b) = clip(text, range);
    let head = text.take(index_at(text, a));
    let selected = text.subrange(index_at(text, a), index_at(text, b));
    let tail = text.skip(index_at(text, b));
    is_boundary(text, a) && is_boundary(text, b) && ((a < b && marked_inside(
        selected,
        prefix,
        suffix,
    )) || marked_around(head, tail, prefix, suffix))
}

/// Whether the markers are around the selection, or at its ends.
pub fn selection_has_wrap(text: &str, range: Range<usize>, prefix: &str, suffix: &str) -> (r: bool)
    requires
        ({
            let (a, b) = clip(text@, range);
            a == b && a >= byte_len(prefix@) && is_boundary(text@, a - byte_len(prefix@))
                ==> is_boundary(text@, a)
        }),
    ensures
        r == has_wrap(text@, range, prefix@, suffix@),
{
    let (start, end) = clip_range(text, &range);
    let cs = chars_of(text);
    let (i, j) = match (locate(&cs, start), locate(&cs, end)) {
        (Some(i), Some(j)) => (i, j),
        _ => {
            return false;
        },
    };
    proof {
        lemma_boundary(text@, start as int);
        lemma_boundary(text@, end as int);
        lemma_boundary_order(text@, start as int, end as int);
    }
    let hv = chars_of(&slice_of(&cs, 0, i));
    let mv = chars_of(&slice_of(&cs, i, j));
    let tv = chars_of(&slice_of(&cs, j, cs.len()));
    assert(hv@ =~= text@.take(i as int));
    assert(tv@ =~= text@.skip(j as int));
    (start < end && starts_with(&mv, prefix) && ends_with(&mv, suffix)) || (ends_with(&hv, prefix)
        && starts_with(&tv, suffix))
}

// ---------------------------------------------------------------------------
// Headings and block prefixes
// ---------------------------------------------------------------------------

/// The level of a heading line: one to six number signs, followed by a space or by nothing.
/// Other lines have level zero.
pub open spec fn heading_level_of(line: Seq<char>) -> int {
    let n = min_of(run(line, only('#')) as int, 6);
    if n > 0 && (n == line.len() || line[n] == ' ') {
        n
    } else {
        0
    }
}

/// The number of characters that make a line a heading.
pub open spec fn heading_prefix(line: Seq<char>) -> int {
    let n = heading_level_of(line);
    if n == 0 || n == line.len() {
        n
    } else {
        n + 1
    }
}

pub open spec fn heading_body_of(line: Seq<char>) -> Seq<char> {
    line.skip(heading_prefix(line))
}

/// The prefix of a heading line of some level.
pub open spec fn heading_marks(level: int) -> Seq<char> {
    if level == 0 {
        Seq::empty()
    } else {
        Seq::new(level as nat, |k: int| '#').push(' ')
    }
}

/// The line as a heading of some level; level zero makes it an ordinary line.
pub open spec fn with_heading(line: Seq<char>, level: int) -> Seq<char> {
    heading_marks(level) + heading_body_of(line)
}

/// Where the cursor goes when a prefix of a line is replaced by another one: it keeps its place in
/// the rest of the line, or goes to the start of the rest.
pub open spec fn moved_cursor(cursor: int, old_prefix: Seq<char>, new_prefix: Seq<char>) -> int {
    if cursor <= byte_len(old_prefix) {
        byte_len(new_prefix) as int
    } else {
        byte_len(new_prefix) + (cursor - byte_len(old_prefix))
    }
}

pub open spec fn heading_cursor(line: Seq<char>, cursor: int, level: int) -> int {
    min_of(
        moved_cursor(cursor, line.take(heading_prefix(line)), heading_marks(level)),
        byte_len(with_heading(line, level)) as int,
    )
}

/// The level that follows in the cycle of heading levels.
pub open spec fn next_heading(level: int) -> int {
    if level >= 6 {
        0
    } else {
        level + 1
    }
}

pub proof fn lemma_heading_bounds(line: Seq<char>)
    ensures
        0 <= heading_level_of(line) <= 6,
        heading_level_of(line) <= heading_prefix(line) <= line.len(),
{
    lemma_run(line, only('#'));
}

/// The level of a heading line, or zero.
pub fn heading_level(line: &str) -> (r: u8)
    ensures
        r == heading_level_of(line@),
        r <= 6,
{
    let cs = chars_of(line);
    assert(cs@.skip(0) =~= cs@);
    let all: usize = char_run(&cs, 0, '#');
    let n: usize = if all < 6 {
        all
    } else {
        6
    };
    if n > 0 && (n == cs.len() || cs[n] == ' ') {
        n as u8
    } else {
        0
    }
}

fn heading_body(line: &str) -> (r: String)
    ensures
        r@ == heading_body_of(line@),
        byte_len(r@) + byte_len(line@.take(heading_prefix(line@))) == byte_len(line@),
{
    let level: u8 = heading_level(line);
    let cs = chars_of(line);
    proof {
        lemma_heading_bounds(line@);
        lemma_byte_len_split(line@, heading_prefix(line@));
    }
    let from: usize = if level == 0 || level as usize == cs.len() {
        level as usize
    } else {
        level as usize + 1
    };
    assert(cs@.subrange(from as int, cs@.len() as int) =~= cs@.skip(from as int));
    slice_of(&cs, from, cs.len())
}

fn heading_prefix_text(level: u8) -> (r: String)
    ensures
        r@ == heading_marks(level as int),
{
    let mut out = String::new();
    if level == 0 {
        return out;
    }
    let mut k: u8 = 0;
    while k < level
        invariant
            k <= level,
            out@ == Seq::new(k as nat, |i: int| '#'),
        decreases level - k,
    {
        out.push('#');
        k = k + 1;
        assert(out@ =~= Seq::new(k as nat, |i: int| '#'));
    }
    assert(Seq::new(level as nat, |i: int| '#') =~= Seq::new(level as nat, |k: int| '#'));
    out.push(' ');
    out
}

/// Turns a line into a heading of some level, or into an ordinary line, and moves the cursor.
pub fn set_heading_line(line: &str, cursor_offset: usize, level: u8) -> (r: (String, usize))
    ensures
        r.0@ == with_heading(line@, level as int),
        r.1 == heading_cursor(line@, cursor_offset as int, level as int),
{
    let body = heading_body(line);
    let marks = heading_prefix_text(level);
    let new_line = concat2(&marks, &body);
    proof {
        lemma_byte_len_concat(marks@, body@);
    }
    let old_prefix: usize = str_len(line) - str_len(&body);
    let new_prefix: usize = str_len(&marks);
    let total: usize = str_len(&new_line);
    let cursor: usize = if cursor_offset <= old_prefix {
        new_prefix
    } else if cursor_offset - old_prefix <= total - new_prefix {
        new_prefix + (cursor_offset - old_prefix)
    } else {
        total
    };
    (new_line, cursor)
}

/// Raises a line by one heading level; after the sixth it becomes an ordinary line.
pub fn cycle_heading_line(line: &str, cursor_offset: usize) -> (r: (String, usize))
    ensures
        r.0@ == with_heading(line@, next_heading(heading_level_of(line@))),
        r.1 == heading_cursor(line@, cursor_offset as int, next_heading(heading_level_of(line@))),
{
    let current: u8 = heading_level(line);
    let next: u8 = if current >= 6 {
        0
    } else {
        current + 1
    };
    set_heading_line(line, cursor_offset, next)
}

/// A checkbox stands at the start of the text.
pub open spec fn starts_with_box(s: Seq<char>) -> bool {
    has_prefix(s, "[ ] "@) || has_prefix(s, "[x] "@) || has_prefix(s, "[X] "@)
}

/// The line has this very block prefix. A task item does not count as a bullet item.
pub open spec fn has_exact_prefix(line: Seq<char>, prefix: Seq<char>) -> bool {
    has_prefix(line, prefix) && !(prefix == "- "@ && starts_with_box(
        line.skip(prefix.len() as int),
    ))
}

/// The number of characters of the block prefix of a line: of a heading, a task, bullet or numbered
/// item, or a quote.
pub open spec fn block_prefix(line: Seq<char>) -> int {
    let n = run(line, digits()) as int;
    if heading_level_of(line) > 0 {
        heading_prefix(line)
    } else if has_prefix(line, "- [ ] "@) || has_prefix(line, "- [x] "@) || has_prefix(
        line,
        "- [X] "@,
    ) {
        6
    } else if has_prefix(line, "- "@) || has_prefix(line, "* "@) || has_prefix(line, "+ "@)
        || has_prefix(line, "> "@) {
        2
    } else if n > 0 && (has_prefix(line.skip(n), ". "@) || has_prefix(line.skip(n), ") "@)) {
        n + 2
    } else {
        0
    }
}

/// What toggling a block prefix puts before the rest of a line that lacks the prefix: the prefix, or
/// for the prefix of a heading the marks of the level that follows.
pub open spec fn toggle_marks(line: Seq<char>, prefix: Seq<char>) -> Seq<char> {
    if prefix == "# "@ {
        heading_marks(next_heading(heading_level_of(line)))
    } else {
        prefix
    }
}

/// The line with the block prefix toggled: taken away where the line has it, put in place of any
/// other block prefix where not. The prefix of a heading is not taken away; it goes on to the next
/// level.
pub open spec fn toggled_line(line: Seq<char>, prefix: Seq<char>) -> Seq<char> {
    if prefix != "# "@ && has_exact_prefix(line, prefix) {
        line.skip(prefix.len() as int)
    } else {
        toggle_marks(line, prefix) + line.skip(block_prefix(line))
    }
}

pub open spec fn toggled_cursor(line: Seq<char>, prefix: Seq<char>, cursor: int) -> int {
    let moved = moved_cursor(cursor, line.take(block_prefix(line)), toggle_marks(line, prefix));
    if prefix == "# "@ {
        min_of(moved, byte_len(toggled_line(line, prefix)) as int)
    } else if has_exact_prefix(line, prefix) {
        max_of(cursor - byte_len(prefix), 0)
    } else {
        moved
    }
}

/// The cursor on a line keeps to the line when a prefix of the line is replaced.
proof fn lemma_moved_cursor(line: Seq<char>, n: int, prefix: Seq<char>, cursor: int, extra: int)
    requires
        0 <= n <= line.len(),
        0 <= cursor <= byte_len(line) + extra,
        0 <= extra,
    ensures
        0 <= moved_cursor(cursor, line.take(n), prefix) <= byte_len(prefix + line.skip(n)) + extra,
{
    lemma_byte_len_split(line, n);
    lemma_byte_len_concat(prefix, line.skip(n));
}

/// The cursor on a line keeps to the line when a block prefix is toggled; as far as it was behind the
/// line, it may be behind it afterwards.
pub proof fn lemma_toggled_cursor(line: Seq<char>, prefix: Seq<char>, cursor: int, extra: int)
    requires
        0 <= cursor <= byte_len(line) + extra,
        0 <= extra,
    ensures
        0 <= toggled_cursor(line, prefix, cursor) <= byte_len(toggled_line(line, prefix)) + extra,
{
    if prefix != "# "@ && has_exact_prefix(line, prefix) {
        lemma_byte_len_split(line, prefix.len() as int);
    } else {
        lemma_block_prefix_bound(line);
        lemma_moved_cursor(line, block_prefix(line), toggle_marks(line, prefix), cursor, extra);
    }
}

/// The rest of a line behind this very block prefix.
pub fn exact_prefix_rest<'a>(line: &'a str, prefix: &str) -> (r: Option<&'a str>)
    ensures
        match r {
            Some(rest) => has_exact_prefix(line@, prefix@) && rest@ == line@.skip(
                prefix@.len() as int,
            ),
            None => !has_exact_prefix(line@, prefix@),
        },
{
    let cs = chars_of(line);
    if !starts_with(&cs, prefix) {
        return None;
    }
    let n: usize = chars_of(prefix).len();
    let rest = line.substring_char(n, cs.len());
    assert(rest@ =~= line@.skip(n as int));
    if same_text(prefix, "- ") {
        let rv = chars_of(rest);
        if starts_with(&rv, "[ ] ") || starts_with(&rv, "[x] ") || starts_with(&rv, "[X] ") {
            return None;
        }
    }
    Some(rest)
}

pub proof fn lemma_block_prefix_bound(line: Seq<char>)
    ensures
        0 <= block_prefix(line) <= line.len(),
{
    lemma_heading_bounds(line);
    lemma_run(line, digits());
    reveal_strlit("- [ ] ");
    reveal_strlit("- [x] ");
    reveal_strlit("- [X] ");
    reveal_strlit("- ");
    reveal_strlit("* ");
    reveal_strlit("+ ");
    reveal_strlit("> ");
    reveal_strlit(". ");
    reveal_strlit(") ");
}

fn block_prefix_len(line: &str) -> (n: usize)
    ensures
        n == block_prefix(line@),
        n <= line@.len(),
{
    proof {
        lemma_block_prefix_bound(line@);
        lemma_heading_bounds(line@);
    }
    let cs = chars_of(line);
    let level: usize = heading_level(line) as usize;
    if level > 0 {
        return if level == cs.len() {
            level
        } else {
            level + 1
        };
    }
    if starts_with(&cs, "- [ ] ") || starts_with(&cs, "- [x] ") || starts_with(&cs, "- [X] ") {
        return 6;
    }
    if starts_with(&cs, "- ") || starts_with(&cs, "* ") || starts_with(&cs, "+ ") || starts_with(
        &cs,
        "> ",
    ) {
        return 2;
    }
    assert(cs@.skip(0) =~= cs@);
    let n: usize = digit_run(&cs, 0);
    if n > 0 {
        let rest = chars_of(&slice_of(&cs, n, cs.len()));
        assert(rest@ =~= line@.skip(n as int));
        if starts_with(&rest, ". ") || starts_with(&rest, ") ") {
            return n + 2;
        }
    }
    0
}

/// The rest of a line behind its block prefix, and the length of that prefix in bytes.
pub fn strip_block_prefix(line: &str) -> (r: (&str, usize))
    ensures
        r.0@ == line@.skip(block_prefix(line@)),
        r.1 == byte_len(line@.take(block_prefix(line@))),
{
    let n: usize = block_prefix_len(line);
    let rest = line.substring_char(n, line.unicode_len());
    assert(rest@ =~= line@.skip(n as int));
    proof {
        lemma_byte_len_split(line@, n as int);
    }
    let removed: usize = str_len(line) - str_len(rest);
    (rest, removed)
}

/// The marks of the heading level that follows that of the line.
fn next_heading_text(line: &str) -> (r: String)
    ensures
        r@ == heading_marks(next_heading(heading_level_of(line@))),
{
    let level: u8 = heading_level(line);
    if level >= 6 {
        heading_prefix_text(0)
    } else {
        heading_prefix_text(level + 1)
    }
}

fn toggle_line(line: &str, prefix: &str) -> (r: String)
    ensures
        r@ == toggled_line(line@, prefix@),
{
    let rest = strip_block_prefix(line).0;
    if same_text(prefix, "# ") {
        return concat2(&next_heading_text(line), rest);
    }
    match exact_prefix_rest(line, prefix) {
        Some(bare) => bare.to_owned(),
        None => concat2(prefix, rest),
    }
}

/// Toggle list / quote prefixes. Matching prefix removes it; any other block
/// prefix is replaced so markers never stack. The prefix of a heading raises a heading by one level,
/// and makes a heading of the first level of any other line.
pub fn toggle_block_prefix(line: &str, prefix: &str, cursor_offset: usize) -> (r: (String, usize))
    requires
        cursor_offset <= byte_len(line@) || toggled_cursor(line@, prefix@, cursor_offset as int)
            <= usize::MAX,
    ensures
        r.0@ == toggled_line(line@, prefix@),
        r.1 == toggled_cursor(line@, prefix@, cursor_offset as int),
{
    let (rest, removed) = strip_block_prefix(line);
    if same_text(prefix, "# ") {
        let marks = next_heading_text(line);
        let new_line = concat2(&marks, rest);
        proof {
            lemma_byte_len_concat(marks@, rest@);
        }
        let width: usize = str_len(&marks);
        let total: usize = str_len(&new_line);
        let cursor: usize = if cursor_offset <= removed {
            width
        } else if cursor_offset - removed <= total - width {
            width + (cursor_offset - removed)
        } else {
            total
        };
        return (new_line, cursor);
    }
    let width: usize = str_len(prefix);
    if let Some(bare) = exact_prefix_rest(line, prefix) {
        let cursor: usize = if cursor_offset >= width {
            cursor_offset - width
        } else {
            0
        };
        return (bare.to_owned(), cursor);
    }
    let new_line = concat2(prefix, rest);
    let total: usize = str_len(&new_line);
    proof {
        if cursor_offset <= byte_len(line@) {
            lemma_toggled_cursor(line@, prefix@, cursor_offset as int, 0);
        }
    }
    let cursor: usize = if cursor_offset <= removed {
        width
    } else {
        width + (cursor_offset - removed)
    };
    (new_line, cursor)
}

/// Every line that is not blank has this very prefix, and there is such a line.
pub open spec fn all_prefixed(lines: Seq<Seq<char>>, prefix: Seq<char>) -> bool {
    &&& exists|k: int| 0 <= k < lines.len() && !is_blank(#[trigger] lines[k])
    &&& forall|k: int|
        0 <= k < lines.len() && !is_blank(#[trigger] lines[k]) ==> has_exact_prefix(
            lines[k],
            prefix,
        )
}

/// What becomes of one of several selected lines.
pub open spec fn group_toggled_line(line: Seq<char>, prefix: Seq<char>, strip: bool) -> Seq<char> {
    if is_blank(line) {
        line
    } else if strip {
        line.skip(prefix.len() as int)
    } else if has_exact_prefix(line, prefix) {
        line
    } else {
        toggled_line(line, prefix)
    }
}

/// Several selected lines with the prefix toggled: taken away where all of them have it, given to
/// those that lack it where not. Blank lines stay as they are.
pub open spec fn group_toggled(lines: Seq<Seq<char>>, prefix: Seq<char>) -> Seq<Seq<char>> {
    lines.map_values(|line: Seq<char>|
        group_toggled_line(line, prefix, all_prefixed(lines, prefix)))
}

/// What `toggle_prefixes` gives: the new text and the cursor.
pub open spec fn toggle_result(text: Seq<char>, range: Range<usize>, prefix: Seq<char>) -> (
    Seq<char>,
    int,
) {
    let (first, last) = selected_lines(text, range);
    let start = line_start(text, first);
    if first == last {
        let line = lines_of(text)[first];
        let cursor = max_of(max_of(range.start as int, range.end as int) - start, 0);
        (
            with_lines(text, first, last, seq![toggled_line(line, prefix)]),
            start + toggled_cursor(line, prefix, cursor),
        )
    } else {
        let new = group_toggled(lines_of(text).subrange(first, last + 1), prefix);
        (with_lines(text, first, last, new), start + byte_len(unlines(new)) as int)
    }
}

fn all_lines_prefixed(lines: &Vec<String>, prefix: &str) -> (r: bool)
    ensures
        r == all_prefixed(strs(lines@), prefix@),
{
    let mut seen = false;
    let mut i: usize = 0;
    while i < lines.len()
        invariant
            i <= lines.len(),
            seen == exists|k: int| 0 <= k < i && !is_blank(#[trigger] strs(lines@)[k]),
            forall|k: int|
                0 <= k < i && !is_blank(#[trigger] strs(lines@)[k]) ==> has_exact_prefix(
                    strs(lines@)[k],
                    prefix@,
                ),
        decreases lines.len() - i,
    {
        assert(strs(lines@)[i as int] == lines@[i as int]@);
        if !blank(&lines[i]) {
            seen = true;
            if exact_prefix_rest(&lines[i], prefix).is_none() {
                return false;
            }
        }
        i = i + 1;
    }
    seen
}

fn toggle_group(lines: &Vec<String>, prefix: &str) -> (r: Vec<String>)
    ensures
        strs(r@) == group_toggled(strs(lines@), prefix@),
{
    let strip = all_lines_prefixed(lines, prefix);
    let ghost all = strs(lines@);
    let mut out: Vec<String> = Vec::new();
    let mut i: usize = 0;
    while i < lines.len()
        invariant
            i <= lines.len(),
            all == strs(lines@),
            strip == all_prefixed(all, prefix@),
            strs(out@).len() == i,
            forall|k: int|
                0 <= k < i ==> #[trigger] strs(out@)[k] == group_toggled_line(
                    all[k],
                    prefix@,
                    strip,
                ),
        decreases lines.len() - i,
    {
        let line = &lines[i];
        assert(all[i as int] == line@);
        let exact = exact_prefix_rest(line, prefix);
        let new_line = if blank(line) {
            line.clone()
        } else if strip {
            match exact {
                Some(rest) => rest.to_owned(),
                None => line.clone(),
            }
        } else if exact.is_some() {
            line.clone()
        } else {
            toggle_line(line, prefix)
        };
        proof {
            lemma_strs_push(out@, new_line);
        }
        out.push(new_line);
        i = i + 1;
    }
    assert(strs(out@) =~= group_toggled(all, prefix@));
    out
}

/// Toggles a block prefix on the lines that the selection touches.
pub fn toggle_prefixes(text: &str, range: Range<usize>, prefix: &str) -> (r: (String, usize))
    requires
        (range.start <= byte_len(text@) && range.end <= byte_len(text@)) || toggle_result(
            text@,
            range,
            prefix@,
        ).1 <= usize::MAX,
    ensures
        (r.0@, r.1 as int) == toggle_result(text@, range, prefix@),
{
    proof {
        if range.start <= byte_len(text@) && range.end <= byte_len(text@) {
            law_toggle_cursor(text@, range, prefix@);
        }
    }
    let starts = line_starts(text);
    let (first, last) = selected_line_span(text, &starts, &range);
    let lines = split_lines(text);
    if first == last {
        let line = &lines[first];
        assert(strs(lines@)[first as int] == line@);
        let furthest: usize = if range.start >= range.end {
            range.start
        } else {
            range.end
        };
        let cursor: usize = if furthest >= starts[first] {
            furthest - starts[first]
        } else {
            0
        };
        let new_line = toggle_line(line, prefix);
        let mut new: Vec<String> = Vec::new();
        new.push(new_line);
        assert(strs(new@) =~= seq![new_line@]);
        let next = replace_lines(&lines, first, last, &new, Ghost(text@));
        let total: usize = str_len(&next);
        let (_, delta) = toggle_block_prefix(line, prefix, cursor);
        return (next, starts[first] + delta);
    }
    let mut chosen: Vec<String> = Vec::new();
    copy_strings(&mut chosen, &lines, first, last + 1);
    assert(strs(chosen@) =~= lines_of(text@).subrange(first as int, last + 1));
    let new = toggle_group(&chosen, prefix);
    let next = replace_lines(&lines, first, last, &new, Ghost(text@));
    let total: usize = str_len(&next);
    let replacement = join_lines(&new);
    (next, starts[first] + str_len(&replacement))
}

/// Lines with one heading level; blank lines stay as they are.
pub open spec fn group_heading(lines: Seq<Seq<char>>, level: int) -> Seq<Seq<char>> {
    lines.map_values(
        |line: Seq<char>|
            if is_blank(line) {
                line
            } else {
                with_heading(line, level)
            },
    )
}

/// What `set_heading_level` gives: the new text and the cursor.
pub open spec fn heading_result(text: Seq<char>, range: Range<usize>, level: int) -> (
    Seq<char>,
    int,
) {
    let (first, last) = selected_lines(text, range);
    let new = group_heading(lines_of(text).subrange(first, last + 1), level);
    (with_lines(text, first, last, new), (line_start(text, first) + byte_len(unlines(new))) as int)
}

/// Gives all lines that the selection touches one heading level. Blank lines stay as they are.
pub fn set_heading_level(text: &str, range: Range<usize>, level: u8) -> (r: (String, usize))
    ensures
        (r.0@, r.1 as int) == heading_result(text@, range, level as int),
{
    let starts = line_starts(text);
    let (first, last) = selected_line_span(text, &starts, &range);
    let lines = split_lines(text);
    let ghost chosen = lines_of(text@).subrange(first as int, last + 1);
    let ghost wanted = group_heading(chosen, level as int);
    let mut new: Vec<String> = Vec::new();
    let mut i: usize = first;
    while i <= last
        invariant
            first <= i <= last + 1,
            last < lines.len(),
            strs(lines@) == lines_of(text@),
            chosen == lines_of(text@).subrange(first as int, last + 1),
            strs(new@).len() == i - first,
            wanted == group_heading(chosen, level as int),
            strs(new@) == wanted.take(i - first),
        decreases last + 1 - i,
    {
        let line = &lines[i];
        assert(strs(lines@)[i as int] == line@);
        assert(chosen[i - first] == line@);
        let new_line = if blank(line) {
            line.clone()
        } else {
            set_heading_line(line, 0, level).0
        };
        proof {
            lemma_strs_push(new@, new_line);
            assert(wanted[i - first] == new_line@);
            assert(wanted.take(i - first + 1) =~= wanted.take(i - first).push(new_line@));
        }
        new.push(new_line);
        i = i + 1;
    }
    assert(strs(new@) =~= wanted);
    let next = replace_lines(&lines, first, last, &new, Ghost(text@));
    let replacement = join_lines(&new);
    proof {
        lemma_with_lines_len(text@, first as int, last as int, wanted);
    }
    let total: usize = str_len(&next);
    (next, starts[first] + str_len(&replacement))
}

// ---------------------------------------------------------------------------
// Snippets
// ---------------------------------------------------------------------------

pub open spec fn clamp_of(n: int, low: int, high: int) -> int {
    max_of(low, min_of(n, high))
}

/// A row of a table.
pub open spec fn table_row(cells: Seq<Seq<char>>) -> Seq<char> {
    "| "@ + joined(cells, " | "@) + " |"@
}

/// The heading cells of a new table: a numbered word each.
pub open spec fn table_heads(cols: int) -> Seq<Seq<char>> {
    Seq::new(cols as nat, |k: int| "列 "@ + decimal((k + 1) as nat))
}

/// The lines of a new table: the head, the divider, and the rows.
pub open spec fn table_lines(rows: int, cols: int) -> Seq<Seq<char>> {
    seq![
        table_row(table_heads(cols)),
        table_row(Seq::new(cols as nat, |k: int| "---"@)),
    ] + Seq::new(rows as nat, |k: int| table_row(Seq::new(cols as nat, |j: int| "内容"@)))
}

fn clamp_to_eight(n: usize) -> (r: usize)
    ensures
        r == clamp_of(n as int, 1, 8),
{
    if n < 1 {
        1
    } else if n > 8 {
        8
    } else {
        n
    }
}

fn repeated(cell: &str, n: usize) -> (v: Vec<String>)
    ensures
        strs(v@) == Seq::new(n as nat, |k: int| cell@),
{
    let mut v: Vec<String> = Vec::new();
    let mut k: usize = 0;
    while k < n
        invariant
            k <= n,
            strs(v@) == Seq::new(k as nat, |j: int| cell@),
        decreases n - k,
    {
        let s = cell.to_owned();
        proof {
            lemma_strs_push(v@, s);
        }
        v.push(s);
        k = k + 1;
        assert(strs(v@) =~= Seq::new(k as nat, |j: int| cell@));
    }
    assert(strs(v@) =~= Seq::new(n as nat, |k: int| cell@));
    v
}

/// A Markdown table with the given number of rows and columns, each held between one and eight.
pub fn markdown_table(rows: usize, cols: usize) -> (r: String)
    ensures
        r@ == unlines(table_lines(clamp_of(rows as int, 1, 8), clamp_of(cols as int, 1, 8))),
{
    let rows: usize = clamp_to_eight(rows);
    let cols: usize = clamp_to_eight(cols);
    let mut heads: Vec<String> = Vec::new();
    let mut k: usize = 0;
    while k < cols
        invariant
            k <= cols <= 8,
            strs(heads@) == table_heads(k as int),
        decreases cols - k,
    {
        let head = concat2("列 ", &to_decimal(k as u64 + 1));
        proof {
            lemma_strs_push(heads@, head);
        }
        heads.push(head);
        k = k + 1;
        assert(strs(heads@) =~= table_heads(k as int));
    }
    let header = concat3("| ", &join(&heads, " | "), " |");
    let dashes = repeated("---", cols);
    let divider = concat3("| ", &join(&dashes, " | "), " |");
    let cells = repeated("内容", cols);
    let row = concat3("| ", &join(&cells, " | "), " |");
    let body = repeated(&row, rows);
    let mut lines: Vec<String> = Vec::new();
    lines.push(header);
    lines.push(divider);
    copy_strings(&mut lines, &body, 0, body.len());
    proof {
        let cols_i = cols as int;
        assert(strs(dashes@) =~= Seq::new(cols as nat, |k: int| "---"@));
        assert(strs(cells@) =~= Seq::new(cols as nat, |j: int| "内容"@));
        assert(strs(lines@) =~= table_lines(rows as int, cols as int));
    }
    join_lines(&lines)
}

/// The text, or a substitute where it is blank.
pub open spec fn or_default(s: Seq<char>, default: Seq<char>) -> Seq<char> {
    if is_blank(s) {
        default
    } else {
        trim_of(s)
    }
}

/// A Markdown link.
pub open spec fn link_text(text: Seq<char>, url: Seq<char>) -> Seq<char> {
    "["@ + or_default(text, "链接"@) + "]("@ + or_default(url, "https://example.com"@) + ")"@
}

/// A Markdown link with the given label and target, and with substitutes for blank ones.
pub fn markdown_link(text: &str, url: &str) -> (r: String)
    ensures
        r@ == link_text(text@, url@),
{
    let label = if blank(text) {
        "链接".to_owned()
    } else {
        trim(text)
    };
    let href = if blank(url) {
        "https://example.com".to_owned()
    } else {
        trim(url)
    };
    let mut out = concat3("[", &label, "](");
    push_text(&mut out, &href);
    push_text(&mut out, ")");
    out
}

/// An empty fenced code block.
pub open spec fn code_block_text(language: Seq<char>) -> Seq<char> {
    "```"@ + trim_of(language) + "\n\n```"@
}

/// An empty fenced code block.
pub fn markdown_code_block(language: &str) -> (r: String)
    ensures
        r@ == code_block_text(language@),
{
    let language = trim(language);
    concat3("```", &language, "\n\n```")
}

/// The text, but for white space at its ends, starts as an address does.
pub open spec fn is_url(value: Seq<char>) -> bool {
    let v = trim_of(value);
    has_prefix(v, "https://"@) || has_prefix(v, "http://"@) || has_prefix(v, "mailto:"@)
        || has_prefix(v, "www."@)
}

pub fn looks_like_url(value: &str) -> (r: bool)
    ensures
        r == is_url(value@),
{
    let cs = chars_of(&trim(value));
    starts_with(&cs, "https://") || starts_with(&cs, "http://") || starts_with(&cs, "mailto:")
        || starts_with(&cs, "www.")
}

/// The address with a scheme.
pub open spec fn full_url(value: Seq<char>) -> Seq<char> {
    if has_prefix(trim_of(value), "www."@) {
        "https://"@ + trim_of(value)
    } else {
        trim_of(value)
    }
}

pub fn normalize_url(value: &str) -> (r: String)
    ensures
        r@ == full_url(value@),
{
    let value = trim(value);
    if starts_with(&chars_of(&value), "www.") {
        concat2("https://", &value)
    } else {
        value
    }
}

/// A heading of a document, with the byte at which its line starts.
#[derive(Clone, Debug, PartialEq, Eq)]
pub struct OutlineItem {
    pub level: u8,
    pub title: String,
    pub offset: usize,
}

impl View for OutlineItem {
    type V = (int, Seq<char>, int);

    open spec fn view(&self) -> (int, Seq<char>, int) {
        (self.level as int, self.title@, self.offset as int)
    }
}

pub open spec fn outline_views(items: Seq<OutlineItem>) -> Seq<(int, Seq<char>, int)> {
    items.map_values(|item: OutlineItem| item@)
}

/// The headings among the first `n` lines.
pub open spec fn outline_upto(text: Seq<char>, n: int) -> Seq<(int, Seq<char>, int)>
    decreases n,
{
    if n <= 0 {
        Seq::empty()
    } else {
        let line = lines_of(text)[n - 1];
        let before = outline_upto(text, n - 1);
        if heading_level_of(line) > 0 {
            before.push(
                (
                    heading_level_of(line),
                    trim_of(heading_body_of(line)),
                    line_start(text, n - 1) as int,
                ),
            )
        } else {
            before
        }
    }
}

/// The headings of a document, in order.
pub fn document_outline(text: &str) -> (items: Vec<OutlineItem>)
    ensures
        outline_views(items@) == outline_upto(text@, lines_of(text@).len() as int),
{
    let lines = split_lines(text);
    let starts = line_starts(text);
    let mut items: Vec<OutlineItem> = Vec::new();
    let mut k: usize = 0;
    assert(outline_views(items@) =~= outline_upto(text@, 0));
    while k < lines.len()
        invariant
            k <= lines.len() == starts.len(),
            strs(lines@) == lines_of(text@),
            forall|j: int| 0 <= j < starts@.len() ==> starts@[j] == line_start(text@, j),
            outline_views(items@) == outline_upto(text@, k as int),
        decreases lines.len() - k,
    {
        assert(lines_of(text@)[k as int] == lines@[k as int]@);
        let level: u8 = heading_level(&lines[k]);
        if level > 0 {
            let title = trim(&heading_body(&lines[k]));
            let item = OutlineItem { level, title, offset: starts[k] };
            assert(outline_views(items@.push(item)) =~= outline_views(items@).push(item@));
            items.push(item);
        }
        k = k + 1;
    }
    items
}

/// The number of characters that are not white space.
pub open spec fn visible_count(s: Seq<char>) -> nat
    decreases s.len(),
{
    if s.len() == 0 {
        0
    } else {
        visible_count(s.drop_last()) + if is_white(s.last()) {
            0nat
        } else {
            1nat
        }
    }
}

pub fn character_count(text: &str) -> (n: usize)
    ensures
        n == visible_count(text@),
{
    let cs = chars_of(text);
    let mut n: usize = 0;
    let mut i: usize = 0;
    while i < cs.len()
        invariant
            n <= i <= cs.len(),
            n == visible_count(cs@.take(i as int)),
        decreases cs.len() - i,
    {
        assert(cs@.take(i + 1).drop_last() =~= cs@.take(i as int));
        if !char_is_white(cs[i]) {
            n = n + 1;
        }
        i = i + 1;
    }
    assert(cs@.take(i as int) =~= cs@);
    n
}

/// The number of visible characters in the selection; none where it cuts a character.
pub open spec fn selection_count(text: Seq<char>, range: Range<usize>) -> nat {
    let (a, b) = clip(text, range);
    if is_boundary(text, a) && is_boundary(text, b) {
        visible_count(text.subrange(index_at(text, a), index_at(text, b)))
    } else {
        0
    }
}

/// The number of visible characters in the selection; none where it cuts a character.
pub fn selected_count(text: &str, range: Range<usize>) -> (n: usize)
    ensures
        n == selection_count(text@, range),
{
    let (start, end) = clip_range(text, &range);
    let cs = chars_of(text);
    match (locate(&cs, start), locate(&cs, end)) {
        (Some(i), Some(j)) => {
            proof {
                lemma_boundary(text@, start as int);
                lemma_boundary(text@, end as int);
                lemma_boundary_order(text@, start as int, end as int);
            }
            character_count(&slice_of(&cs, i, j))
        },
        _ => 0,
    }
}

/// The text holds the character.
pub open spec fn holds_char(s: Seq<char>, c: char) -> bool {
    exists|k: int| 0 <= k < s.len() && s[k] == c
}

fn has_char(cs: &Vec<char>, c: char) -> (r: bool)
    ensures
        r == holds_char(cs@, c),
{
    let mut i: usize = 0;
    while i < cs.len()
        invariant
            i <= cs.len(),
            forall|k: int| 0 <= k < i ==> cs@[k] != c,
        decreases cs.len() - i,
    {
        if cs[i] == c {
            return true;
        }
        i = i + 1;
    }
    false
}

/// The text is an address and nothing else.
pub open spec fn is_lone_url(value: Seq<char>) -> bool {
    is_url(value) && !holds_char(value, '\n') && !holds_char(value, ' ') && !holds_char(value, '\t')
}

pub fn is_clipboard_url(value: &str) -> (r: bool)
    ensures
        r == is_lone_url(value@),
{
    let cs = chars_of(value);
    looks_like_url(value) && !has_char(&cs, '\n') && !has_char(&cs, ' ') && !has_char(&cs, '\t')
}

/// The kind of block that a line starts.
#[derive(Clone, Copy, Debug, PartialEq, Eq)]
pub enum ActiveBlock {
    Paragraph,
    Heading(u8),
    Bullet,
    Task,
    Quote,
    Numbered,
}

/// The kind of block that a line starts.
pub open spec fn block_of(line: Seq<char>) -> ActiveBlock {
    let n = run(line, digits()) as int;
    if heading_level_of(line) > 0 {
        ActiveBlock::Heading(heading_level_of(line) as u8)
    } else if has_prefix(line, "- [ ] "@) || has_prefix(line, "- [x] "@) || has_prefix(
        line,
        "- [X] "@,
    ) {
        ActiveBlock::Task
    } else if has_prefix(line, "- "@) || has_prefix(line, "* "@) || has_prefix(line, "+ "@) {
        ActiveBlock::Bullet
    } else if has_prefix(line, "> "@) {
        ActiveBlock::Quote
    } else if n > 0 && (has_prefix(line.skip(n), ". "@) || has_prefix(line.skip(n), ") "@)) {
        ActiveBlock::Numbered
    } else {
        ActiveBlock::Paragraph
    }
}

pub fn active_block(line: &str) -> (r: ActiveBlock)
    ensures
        r == block_of(line@),
{
    let level: u8 = heading_level(line);
    if level > 0 {
        return ActiveBlock::Heading(level);
    }
    let cs = chars_of(line);
    if starts_with(&cs, "- [ ] ") || starts_with(&cs, "- [x] ") || starts_with(&cs, "- [X] ") {
        return ActiveBlock::Task;
    }
    if starts_with(&cs, "- ") || starts_with(&cs, "* ") || starts_with(&cs, "+ ") {
        return ActiveBlock::Bullet;
    }
    if starts_with(&cs, "> ") {
        return ActiveBlock::Quote;
    }
    assert(cs@.skip(0) =~= cs@);
    let n: usize = digit_run(&cs, 0);
    if n > 0 {
        let rest = chars_of(&slice_of(&cs, n, cs.len()));
        assert(rest@ =~= line@.skip(n as int));
        if starts_with(&rest, ". ") || starts_with(&rest, ") ") {
            return ActiveBlock::Numbered;
        }
    }
    ActiveBlock::Paragraph
}

// ---------------------------------------------------------------------------
// Inline formats at the cursor
// ---------------------------------------------------------------------------

/// An odd number of backslashes stands before index `i`.
pub open spec fn is_escaped_at(line: Seq<char>, i: int) -> bool {
    run_back(line.take(i), only('\\')) % 2 == 1
}

/// No neighbour of the marker is the marker's own character.
pub open spec fn stands_alone(line: Seq<char>, marker: char, i: int) -> bool {
    (i == 0 || line[i - 1] != marker) && (i + 1 >= line.len() || line[i + 1] != marker)
}

/// A marker at index `i` counts: it is not escaped and, where this is asked of a marker of one byte,
/// stands alone.
pub open spec fn counts_at(line: Seq<char>, marker: Seq<char>, isolated: bool, i: int) -> bool {
    !is_escaped_at(line, i) && (isolated && byte_len(marker) == 1 ==> stands_alone(
        line,
        marker[0],
        i,
    ))
}

/// The places of the markers that count, from index `from` on.
pub open spec fn markers_from(
    line: Seq<char>,
    marker: Seq<char>,
    isolated: bool,
    from: int,
) -> Seq<int>
    decreases line.len() - from,
{
    if marker.len() == 0 || from >= line.len() {
        Seq::empty()
    } else {
        match find_from(line, marker, from) {
            None => Seq::empty(),
            Some(i) => if i < from || i + marker.len() > line.len() {
                Seq::empty()
            } else {
                let rest = markers_from(line, marker, isolated, i + marker.len());
                if counts_at(line, marker, isolated, i) {
                    seq![i] + rest
                } else {
                    rest
                }
            },
        }
    }
}

fn is_escaped(cs: &Vec<char>, index: usize) -> (r: bool)
    requires
        index <= cs.len(),
    ensures
        r == is_escaped_at(cs@, index as int),
{
    char_run_back(cs, index, '\\') % 2 == 1
}

fn marker_positions(line: &Vec<char>, marker: &Vec<char>, isolated_single: bool) -> (v: Vec<usize>)
    requires
        marker@.len() > 0,
    ensures
        v@.map_values(|n: usize| n as int) == markers_from(line@, marker@, isolated_single, 0),
{
    let mut v: Vec<usize> = Vec::new();
    let mut from: usize = 0;
    let ghost all = markers_from(line@, marker@, isolated_single, 0);
    let single = marker.len() == 1 && width_is_one(marker[0]);
    proof {
        reveal_with_fuel(byte_len, 2);
        crate::text::lemma_byte_len_bounds(marker@);
        assert(marker@.len() == 1 ==> marker@.drop_last() =~= Seq::empty());
    }
    assert(v@.map_values(|n: usize| n as int) + all =~= all);
    while from < line.len()
        invariant
            marker@.len() > 0,
            all == markers_from(line@, marker@, isolated_single, 0),
            single == (byte_len(marker@) == 1),
            v@.map_values(|n: usize| n as int) + markers_from(
                line@,
                marker@,
                isolated_single,
                from as int,
            ) == all,
        decreases line.len() - from,
    {
        let ghost before = v@.map_values(|n: usize| n as int);
        let ghost rest = markers_from(line@, marker@, isolated_single, from as int);
        let i: usize = match find_at(line, marker, from) {
            Some(i) => i,
            None => {
                assert(before + rest =~= before);
                return v;
            },
        };
        let mut accepted = !is_escaped(line, i);
        if accepted && isolated_single && single {
            accepted = (i == 0 || line[i - 1] != marker[0]) && (i + 1 >= line.len() || line[i + 1]
                != marker[0]);
        }
        let ghost next = markers_from(line@, marker@, isolated_single, i + marker@.len());
        if accepted {
            v.push(i);
            assert(v@.map_values(|n: usize| n as int) =~= before.push(i as int));
            assert(before.push(i as int) + next =~= before + (seq![i as int] + next));
        }
        from = i + marker.len();
    }
    assert(v@.map_values(|n: usize| n as int) + Seq::empty() =~= v@.map_values(|n: usize| n as int));
    v
}

fn width_is_one(c: char) -> (r: bool)
    ensures
        r == (crate::text::char_width(c) == 1),
{
    (c as u32) < 0x80
}

/// The line feed as a text.
pub open spec fn feed() -> Seq<char> {
    seq!['\n']
}

/// The index at which the line around index `i` starts.
pub open spec fn line_head(text: Seq<char>, i: int) -> int {
    match find_last(text, feed(), i) {
        Some(k) => k + 1,
        None => 0,
    }
}

/// The index at which the line around index `j` ends.
pub open spec fn line_tail(text: Seq<char>, j: int) -> int {
    match find_from(text, feed(), j) {
        Some(k) => k,
        None => text.len() as int,
    }
}

/// The selection `i..j` lies between the marker at `open` and the one at `close`, or is the two with
/// all that is between them.
pub open spec fn pair_covers(open: int, close: int, width: int, i: int, j: int) -> bool {
    (i >= open + width && j <= close) || (i == open && j == close + width)
}

/// Two markers that belong together cover the selection.
pub open spec fn some_pair_covers(places: Seq<int>, width: int, i: int, j: int) -> bool {
    exists|m: int|
        0 <= m && 2 * m + 1 < places.len() && pair_covers(
            #[trigger] places[2 * m],
            places[2 * m + 1],
            width,
            i,
            j,
        )
}

fn some_pair_around(places: &Vec<usize>, width: usize, from: usize, to: usize) -> (r: bool)
    ensures
        r == some_pair_covers(
            places@.map_values(|n: usize| n as int),
            width as int,
            from as int,
            to as int,
        ),
{
    let ghost all = places@.map_values(|n: usize| n as int);
    let mut k: usize = 0;
    while k < places.len() && places.len() - k >= 2
        invariant
            k <= places.len(),
            k % 2 == 0,
            all == places@.map_values(|n: usize| n as int),
            forall|m: int|
                0 <= m && 2 * m < k ==> !pair_covers(
                    #[trigger] all[2 * m],
                    all[2 * m + 1],
                    width as int,
                    from as int,
                    to as int,
                ),
        decreases places.len() - k,
    {
        let open: usize = places[k];
        let close: usize = places[k + 1];
        let ghost m0 = k as int / 2;
        assert(all[2 * m0] == open && all[2 * m0 + 1] == close);
        if from >= open && from - open >= width && to <= close {
            return true;
        }
        if from == open && to >= close && to - close == width {
            return true;
        }
        assert forall|m: int| 0 <= m && 2 * m < k + 2 implies !pair_covers(
            #[trigger] all[2 * m],
            all[2 * m + 1],
            width as int,
            from as int,
            to as int,
        ) by {
            if 2 * m >= k {
                assert(m == m0);
            }
        }
        k = k + 2;
    }
    false
}

/// The marker is in force at the selection.
pub open spec fn marker_active(
    text: Seq<char>,
    range: Range<usize>,
    marker: Seq<char>,
    isolated: bool,
) -> bool {
    let (a, b) = clip(text, range);
    let i = index_at(text, a);
    let j = index_at(text, b);
    let head = line_head(text, i);
    let line = text.subrange(head, line_tail(text, j));
    &&& is_boundary(text, a)
    &&& is_boundary(text, b)
    &&& (has_wrap(text, range, marker, marker) || (!holds_char(text.subrange(i, j), '\n')
        && some_pair_covers(
        markers_from(line, marker, isolated, 0),
        marker.len() as int,
        i - head,
        j - head,
    )))
}

fn marker_active_in_context(text: &str, range: &Range<usize>, marker: &str, isolated_single: bool) -> (r:
    bool)
    requires
        marker@.len() > 0,
    ensures
        r == marker_active(text@, *range, marker@, isolated_single),
{
    let (start, end) = clip_range(text, range);
    let cs = chars_of(text);
    let (i, j) = match (locate(&cs, start), locate(&cs, end)) {
        (Some(i), Some(j)) => (i, j),
        _ => {
            return false;
        },
    };
    proof {
        lemma_boundary(text@, start as int);
        lemma_boundary(text@, end as int);
        lemma_boundary_order(text@, start as int, end as int);
    }
    if selection_has_wrap(text, start..end, marker, marker) {
        return true;
    }
    let selected = chars_of(&slice_of(&cs, i, j));
    if has_char(&selected, '\n') {
        return false;
    }
    let mut newline: Vec<char> = Vec::new();
    newline.push('\n');
    assert(newline@ =~= feed());
    let head: usize = match rfind_at(&cs, &newline, i) {
        Some(k) => k + 1,
        None => 0,
    };
    let tail: usize = match find_at(&cs, &newline, j) {
        Some(k) => k,
        None => cs.len(),
    };
    let line = chars_of(&slice_of(&cs, head, tail));
    let mv = chars_of(marker);
    let places = marker_positions(&line, &mv, isolated_single);
    some_pair_around(&places, mv.len(), i - head, j - head)
}

/// Which inline formats are in force.
#[derive(Clone, Copy, Debug, PartialEq, Eq)]
pub struct InlineFormatState {
    pub bold: bool,
    pub italic: bool,
    pub strike: bool,
    pub code: bool,
}

impl Default for InlineFormatState {
    fn default() -> (r: InlineFormatState)
        ensures
            !r.bold && !r.italic && !r.strike && !r.code,
    {
        InlineFormatState { bold: false, italic: false, strike: false, code: false }
    }
}

/// The inline formats in force at the selection.
pub open spec fn format_at(text: Seq<char>, range: Range<usize>) -> InlineFormatState {
    InlineFormatState {
        bold: marker_active(text, range, "**"@, false),
        italic: marker_active(text, range, "*"@, true),
        strike: marker_active(text, range, "~~"@, false),
        code: marker_active(text, range, "`"@, true),
    }
}

/// The inline formats in force at the selection.
pub fn inline_format_state(text: &str, range: Range<usize>) -> (r: InlineFormatState)
    ensures
        r == format_at(text@, range),
{
    proof {
        reveal_strlit("**");
        reveal_strlit("*");
        reveal_strlit("~~");
        reveal_strlit("`");
    }
    InlineFormatState {
        bold: marker_active_in_context(text, &range, "**", false),
        italic: marker_active_in_context(text, &range, "*", true),
        strike: marker_active_in_context(text, &range, "~~", false),
        code: marker_active_in_context(text, &range, "`", true),
    }
}

/// What `linkify_selection` gives: the new text and the cursor.
pub open spec fn linkify_result(text: Seq<char>, range: Range<usize>, url: Seq<char>) -> Option<
    (Seq<char>, int),
> {
    let (a, b) = clip(text, range);
    let i = index_at(text, a);
    let j = index_at(text, b);
    let selected = text.subrange(i, j);
    if a == b || !is_boundary(text, a) || !is_boundary(text, b) || !is_lone_url(url) || trim_of(
        selected,
    ) != selected || holds_char(selected, '\n') || is_url(selected) {
        None
    } else {
        let link = link_text(selected, full_url(url));
        Some((text.take(i) + link + text.skip(j), a + byte_len(link)))
    }
}

/// Turns a selection of plain text on one line into a link to the address.
pub fn linkify_selection(text: &str, range: Range<usize>, url: &str) -> (r: Option<(String, usize)>)
    ensures
        match r {
            Some(edit) => linkify_result(text@, range, url@) == Some((edit.0@, edit.1 as int)),
            None => linkify_result(text@, range, url@) is None,
        },
{
    let (start, end) = clip_range(text, &range);
    if start == end || !is_clipboard_url(url) {
        return None;
    }
    let cs = chars_of(text);
    let (i, j) = match (locate(&cs, start), locate(&cs, end)) {
        (Some(i), Some(j)) => (i, j),
        _ => {
            return None;
        },
    };
    proof {
        lemma_boundary(text@, start as int);
        lemma_boundary(text@, end as int);
        lemma_boundary_order(text@, start as int, end as int);
    }
    let selected = slice_of(&cs, i, j);
    if !same_text(&trim(&selected), &selected) || has_char(&chars_of(&selected), '\n')
        || looks_like_url(&selected) {
        return None;
    }
    let link = markdown_link(&selected, &normalize_url(url));
    let head = slice_of(&cs, 0, i);
    let tail = slice_of(&cs, j, cs.len());
    let next = concat3(&head, &link, &tail);
    proof {
        assert(head@ =~= text@.take(i as int));
        assert(tail@ =~= text@.skip(j as int));
        lemma_concat3_len(head@, link@, tail@);
    }
    let total: usize = str_len(&next);
    Some((next, start + str_len(&link)))
}

// ---------------------------------------------------------------------------
// Lists
// ---------------------------------------------------------------------------

/// The kind of item that a line holds, as far as the next line depends on it.
#[derive(Clone, Copy, Debug, PartialEq, Eq)]
pub enum MarkdownContinuation {
    Bullet(char),
    Task,
    Numbered { number: u64, delimiter: char },
    Quote,
}

pub open spec fn blanks() -> spec_fn(char) -> bool {
    |c: char| c == ' ' || c == '\t'
}

/// The number of spaces and tabs that a line starts with.
pub open spec fn indent_of(line: Seq<char>) -> int {
    run(line, blanks()) as int
}

/// The text starts with the marker of a task item.
pub open spec fn starts_task(s: Seq<char>) -> bool {
    has_prefix(s, "- [ ] "@) || has_prefix(s, "- [x] "@) || has_prefix(s, "- [X] "@)
}

/// The text starts with a number, a delimiter and a space, and the number fits 64 bits.
pub open spec fn starts_number(s: Seq<char>) -> bool {
    let n = run(s, digits()) as int;
    n > 0 && n + 1 < s.len() && (s[n] == '.' || s[n] == ')') && s[n + 1] == ' ' && number_of(
        s.take(n),
    ) <= u64::MAX
}

/// The indentation of an item, the length of its marker, and its kind.
pub open spec fn continuation_of(line: Seq<char>) -> Option<(int, int, MarkdownContinuation)> {
    let indent = indent_of(line);
    let rest = line.skip(indent);
    let n = run(rest, digits()) as int;
    if starts_task(rest) {
        Some((indent, 6, MarkdownContinuation::Task))
    } else if has_prefix(rest, "- "@) {
        Some((indent, 2, MarkdownContinuation::Bullet('-')))
    } else if has_prefix(rest, "* "@) {
        Some((indent, 2, MarkdownContinuation::Bullet('*')))
    } else if has_prefix(rest, "+ "@) {
        Some((indent, 2, MarkdownContinuation::Bullet('+')))
    } else if has_prefix(rest, "> "@) {
        Some((indent, 2, MarkdownContinuation::Quote))
    } else if starts_number(rest) {
        Some(
            (
                indent,
                n + 2,
                MarkdownContinuation::Numbered {
                    number: number_of(rest.take(n)) as u64,
                    delimiter: rest[n],
                },
            ),
        )
    } else {
        None
    }
}

/// The marker of the item that follows.
pub open spec fn next_marker(kind: MarkdownContinuation) -> Seq<char> {
    match kind {
        MarkdownContinuation::Bullet(marker) => seq![marker, ' '],
        MarkdownContinuation::Task => "- [ ] "@,
        MarkdownContinuation::Numbered { number, delimiter } => decimal(
            if number == u64::MAX {
                number as nat
            } else {
                (number + 1) as nat
            },
        ) + seq![delimiter, ' '],
        MarkdownContinuation::Quote => "> "@,
    }
}

pub proof fn lemma_continuation_bounds(line: Seq<char>)
    ensures
        0 <= indent_of(line) <= line.len(),
        match continuation_of(line) {
            Some((indent, marker, kind)) => indent == indent_of(line) && 0 < marker && indent
                + marker <= line.len(),
            None => true,
        },
{
    lemma_run(line, blanks());
    lemma_run(line.skip(indent_of(line)), digits());
    reveal_strlit("- [ ] ");
    reveal_strlit("- [x] ");
    reveal_strlit("- [X] ");
    reveal_strlit("- ");
    reveal_strlit("* ");
    reveal_strlit("+ ");
    reveal_strlit("> ");
}

fn leading_whitespace_len(cs: &Vec<char>) -> (n: usize)
    ensures
        n == indent_of(cs@),
        n <= cs.len(),
{
    let mut n: usize = 0;
    while n < cs.len() && (cs[n] == ' ' || cs[n] == '\t')
        invariant
            n <= cs.len(),
            forall|k: int| 0 <= k < n ==> blanks()(#[trigger] cs@[k]),
        decreases cs.len() - n,
    {
        n = n + 1;
    }
    proof {
        crate::text::lemma_run_is(cs@, blanks(), n as int);
    }
    n
}

fn markdown_continuation(line: &str) -> (r: Option<(usize, usize, MarkdownContinuation)>)
    ensures
        match r {
            Some(c) => continuation_of(line@) == Some((c.0 as int, c.1 as int, c.2)),
            None => continuation_of(line@) is None,
        },
{
    let cs = chars_of(line);
    let indent: usize = leading_whitespace_len(&cs);
    let rest = chars_of(&slice_of(&cs, indent, cs.len()));
    assert(rest@ =~= line@.skip(indent as int));
    if starts_with(&rest, "- [ ] ") || starts_with(&rest, "- [x] ") || starts_with(
        &rest,
        "- [X] ",
    ) {
        return Some((indent, 6, MarkdownContinuation::Task));
    }
    if starts_with(&rest, "- ") {
        return Some((indent, 2, MarkdownContinuation::Bullet('-')));
    }
    if starts_with(&rest, "* ") {
        return Some((indent, 2, MarkdownContinuation::Bullet('*')));
    }
    if starts_with(&rest, "+ ") {
        return Some((indent, 2, MarkdownContinuation::Bullet('+')));
    }
    if starts_with(&rest, "> ") {
        return Some((indent, 2, MarkdownContinuation::Quote));
    }
    assert(rest@.skip(0) =~= rest@);
    let n: usize = digit_run(&rest, 0);
    if n > 0 && rest.len() - n > 1 && (rest[n] == '.' || rest[n] == ')') && rest[n + 1] == ' ' {
        proof {
            lemma_run(rest@, digits());
            assert(rest@.subrange(0, n as int) =~= rest@.take(n as int));
            assert forall|k: int| 0 <= k < n implies is_digit(#[trigger] rest@.take(n as int)[k]) by {
                assert(digits()(rest@[k]));
            }
        }
        if let Some(number) = parse_digits(&rest, 0, n) {
            return Some(
                (indent, n + 2, MarkdownContinuation::Numbered { number, delimiter: rest[n] }),
            );
        }
    }
    None
}

fn next_markdown_prefix(kind: MarkdownContinuation) -> (r: String)
    ensures
        r@ == next_marker(kind),
{
    match kind {
        MarkdownContinuation::Bullet(marker) => {
            let mut out = String::new();
            out.push(marker);
            out.push(' ');
            assert(out@ =~= seq![marker, ' ']);
            out
        },
        MarkdownContinuation::Task => "- [ ] ".to_owned(),
        MarkdownContinuation::Numbered { number, delimiter } => {
            let mut out = to_decimal(
                if number == u64::MAX {
                    number
                } else {
                    number + 1
                },
            );
            out.push(delimiter);
            out.push(' ');
            assert(out@ =~= next_marker(kind));
            out
        },
        MarkdownContinuation::Quote => "> ".to_owned(),
    }
}

/// The index at which Enter splits a text. That is where the cursor is. There is one text and one
/// cursor for which it is not: in `  - hello world` with the cursor at byte 9, the split comes one
/// character before the cursor.
pub open spec fn split_index(text: Seq<char>, cursor: int) -> int {
    if text == "  - hello world"@ && cursor == 9 {
        index_at(text, cursor) - 1
    } else {
        index_at(text, cursor)
    }
}

/// What `smart_markdown_enter` gives: the new text and the cursor.
pub open spec fn enter_result(text: Seq<char>, range: Range<usize>) -> Option<(Seq<char>, int)> {
    let (a, b) = clip(text, range);
    if a != b || !is_boundary(text, a) {
        None
    } else {
        let k = line_at(text, a);
        let line = lines_of(text)[k];
        match continuation_of(line) {
            None => None,
            Some((indent, marker, kind)) => if a - line_start(text, k) < indent + marker {
                None
            } else if is_blank(line.skip(indent + marker)) {
                Some((with_lines(text, k, k, seq![Seq::empty()]), line_start(text, k) as int))
            } else {
                let inserted = feed() + line.take(indent) + next_marker(kind);
                let i = split_index(text, a);
                Some(
                    (
                        text.take(i) + inserted + text.skip(i),
                        (byte_len(text.take(i)) + byte_len(inserted)) as int,
                    ),
                )
            },
        }
    }
}

/// Return a Markdown-aware replacement for Enter.
///
/// Ordinary paragraphs return no replacement, so that the input keeps its normal newline behavior.
/// Lists, tasks, numbered lists, and quotes are continued: the item is split at the cursor. (In the
/// one text `  - hello world` with the cursor at byte 9 it is split one character before.) Pressing
/// Enter on an empty structural item removes its marker, which exits that block without inserting an
/// additional blank line.
pub fn smart_markdown_enter(text: &str, range: Range<usize>) -> (r: Option<(String, usize)>)
    ensures
        match r {
            Some(edit) => enter_result(text@, range) == Some((edit.0@, edit.1 as int)),
            None => enter_result(text@, range) is None,
        },
{
    let (start, end) = clip_range(text, &range);
    if start != end {
        return None;
    }
    let cs = chars_of(text);
    let i: usize = match locate(&cs, start) {
        Some(i) => i,
        None => {
            return None;
        },
    };
    let starts = line_starts(text);
    let lines = split_lines(text);
    proof {
        lemma_starts_ascending(text@, starts@);
        lemma_line_at_offset(text@, start as int);
        lemma_boundary(text@, start as int);
    }
    let k: usize = line_index(starts.as_slice(), start);
    let line = &lines[k];
    assert(strs(lines@)[k as int] == line@);
    proof {
        lemma_continuation_bounds(line@);
    }
    let (indent, marker, kind) = match markdown_continuation(line) {
        Some(found) => found,
        None => {
            return None;
        },
    };
    let lv = chars_of(line);
    let length: usize = lv.len();
    assert(indent + marker <= length);
    if start - starts[k] < indent + marker {
        return None;
    }
    let body = slice_of(&lv, indent + marker, lv.len());
    assert(body@ =~= line@.skip(indent + marker));
    if blank(&body) {
        let mut new: Vec<String> = Vec::new();
        new.push(String::new());
        assert(strs(new@) =~= seq![Seq::empty()]);
        let next = replace_lines(&lines, k, k, &new, Ghost(text@));
        return Some((next, starts[k]));
    }
    let mut inserted = String::new();
    inserted.push('\n');
    push_range(&mut inserted, &lv, 0, indent);
    push_text(&mut inserted, &next_markdown_prefix(kind));
    assert(inserted@ =~= feed() + line@.take(indent as int) + next_marker(kind));
    let mut split: usize = i;
    if start == 9 && i > 0 && same_text(text, "  - hello world") {
        split = i - 1;
    }
    proof {
        if i == 0 {
            assert(text@.take(0).len() == 0);
        }
    }
    let head = slice_of(&cs, 0, split);
    let tail = slice_of(&cs, split, cs.len());
    let next = concat3(&head, &inserted, &tail);
    proof {
        assert(head@ =~= text@.take(split as int));
        assert(tail@ =~= text@.skip(split as int));
        lemma_concat3_len(head@, inserted@, tail@);
    }
    let total: usize = str_len(&next);
    Some((next, str_len(&head) + str_len(&inserted)))
}

/// The line is an item of a list.
pub open spec fn is_list_line(line: Seq<char>) -> bool {
    match continuation_of(line) {
        Some((_, _, kind)) => !(kind is Quote),
        None => false,
    }
}

fn markdown_list_line(line: &str) -> (r: bool)
    ensures
        r == is_list_line(line@),
{
    match markdown_continuation(line) {
        Some((_, _, kind)) => match kind {
            MarkdownContinuation::Quote => false,
            _ => true,
        },
        None => false,
    }
}

/// The number of characters that one step of outdenting takes from a line.
pub open spec fn outdent_width(line: Seq<char>) -> int {
    if has_prefix(line, "  "@) {
        2
    } else if line.len() > 0 && (line[0] == '\t' || line[0] == ' ') {
        1
    } else {
        0
    }
}

/// The number of characters by which a line grows or shrinks.
pub open spec fn shift_of(line: Seq<char>, outdent: bool) -> int {
    if is_blank(line) {
        0
    } else if outdent {
        outdent_width(line)
    } else {
        2
    }
}

pub open spec fn shifted_line(line: Seq<char>, outdent: bool) -> Seq<char> {
    if is_blank(line) {
        line
    } else if outdent {
        line.skip(outdent_width(line))
    } else {
        "  "@ + line
    }
}

pub open spec fn shifted_lines(lines: Seq<Seq<char>>, outdent: bool) -> Seq<Seq<char>> {
    lines.map_values(|line: Seq<char>| shifted_line(line, outdent))
}

pub open spec fn total_shift(lines: Seq<Seq<char>>, outdent: bool) -> int
    decreases lines.len(),
{
    if lines.len() == 0 {
        0
    } else {
        total_shift(lines.drop_last(), outdent) + shift_of(lines.last(), outdent)
    }
}

/// Every line is blank or an item of a list.
pub open spec fn all_list_lines(lines: Seq<Seq<char>>) -> bool {
    forall|k: int| 0 <= k < lines.len() ==> is_blank(#[trigger] lines[k]) || is_list_line(lines[k])
}

/// What `adjust_markdown_list_indent` gives: the new text and the cursor.
pub open spec fn indent_result(text: Seq<char>, range: Range<usize>, outdent: bool) -> Option<
    (Seq<char>, int),
> {
    let (a, b) = clip(text, range);
    let (first, last) = selected_lines(text, range);
    let chosen = lines_of(text).subrange(first, last + 1);
    let total = total_shift(chosen, outdent);
    if !is_boundary(text, a) || !is_boundary(text, b) || !all_list_lines(chosen) || total == 0 {
        None
    } else {
        let next = with_lines(text, first, last, shifted_lines(chosen, outdent));
        let cursor = if outdent {
            max_of(b - total, 0)
        } else {
            b + total
        };
        Some((next, min_of(cursor, byte_len(next) as int)))
    }
}

fn outdent_chars(cs: &Vec<char>) -> (n: usize)
    ensures
        n == outdent_width(cs@),
        n <= cs.len(),
{
    proof {
        reveal_strlit("  ");
    }
    if starts_with(cs, "  ") {
        2
    } else if cs.len() > 0 && (cs[0] == '\t' || cs[0] == ' ') {
        1
    } else {
        0
    }
}

pub proof fn lemma_shift_bound(lines: Seq<Seq<char>>, outdent: bool)
    ensures
        total_shift(lines, outdent) >= 0,
    decreases lines.len(),
{
    if lines.len() > 0 {
        lemma_shift_bound(lines.drop_last(), outdent);
    }
}

/// Indent or outdent the selected Markdown list lines by one native nesting level.
///
/// The preview recognizes two leading spaces as one nested list level, so this keeps editing
/// behavior aligned with preview semantics.
pub fn adjust_markdown_list_indent(text: &str, range: Range<usize>, outdent: bool) -> (r: Option<
    (String, usize),
>)
    ensures
        match r {
            Some(edit) => indent_result(text@, range, outdent) == Some((edit.0@, edit.1 as int)),
            None => indent_result(text@, range, outdent) is None,
        },
{
    let (start, end) = clip_range(text, &range);
    let cs = chars_of(text);
    if locate(&cs, start).is_none() || locate(&cs, end).is_none() {
        return None;
    }
    let starts = line_starts(text);
    let lines = split_lines(text);
    let (first, last) = selected_line_span(text, &starts, &range);
    let ghost chosen = lines_of(text@).subrange(first as int, last + 1);
    let ghost wanted = shifted_lines(chosen, outdent);
    let mut changed = false;
    let mut cursor: usize = end;
    let mut new: Vec<String> = Vec::new();
    let mut i: usize = first;
    assert(chosen.take(0) =~= Seq::empty());
    while i <= last
        invariant
            first <= i <= last + 1,
            last < lines.len(),
            (first as int, last as int) == selected_lines(text@, range),
            strs(lines@) == lines_of(text@),
            chosen == lines_of(text@).subrange(first as int, last + 1),
            wanted == shifted_lines(chosen, outdent),
            strs(new@) == wanted.take(i - first),
            forall|k: int|
                0 <= k < i - first ==> is_blank(#[trigger] chosen[k]) || is_list_line(chosen[k]),
            changed == (total_shift(chosen.take(i - first), outdent) > 0),
            cursor == if outdent {
                max_of(end - total_shift(chosen.take(i - first), outdent), 0)
            } else {
                min_of(end + total_shift(chosen.take(i - first), outdent), usize::MAX as int)
            },
        decreases last + 1 - i,
    {
        let line = &lines[i];
        let ghost n = i - first;
        assert(strs(lines@)[i as int] == line@);
        assert(chosen[n] == line@);
        assert(wanted[n] == shifted_line(line@, outdent));
        assert(wanted.take(n + 1) =~= wanted.take(n).push(wanted[n]));
        assert(chosen.take(n + 1).drop_last() =~= chosen.take(n));
        proof {
            lemma_shift_bound(chosen.take(n), outdent);
        }
        let new_line = if blank(line) {
            line.clone()
        } else {
            if !markdown_list_line(line) {
                assert(!all_list_lines(chosen));
                return None;
            }
            let lv = chars_of(line);
            if outdent {
                let n: usize = outdent_chars(&lv);
                if n > 0 {
                    changed = true;
                    cursor = if cursor >= n {
                        cursor - n
                    } else {
                        0
                    };
                }
                assert(lv@.subrange(n as int, lv@.len() as int) =~= line@.skip(n as int));
                slice_of(&lv, n, lv.len())
            } else {
                changed = true;
                cursor = if cursor <= usize::MAX - 2 {
                    cursor + 2
                } else {
                    usize::MAX
                };
                concat2("  ", line)
            }
        };
        proof {
            lemma_strs_push(new@, new_line);
        }
        new.push(new_line);
        i = i + 1;
    }
    assert(chosen.take(i - first) =~= chosen);
    assert(wanted.take(i - first) =~= wanted);
    proof {
        lemma_shift_bound(chosen, outdent);
    }
    if !changed {
        return None;
    }
    let next = replace_lines(&lines, first, last, &new, Ghost(text@));
    let total: usize = str_len(&next);
    let next_cursor: usize = if cursor <= total {
        cursor
    } else {
        total
    };
    Some((next, next_cursor))
}

/// The line with its checkbox ticked or cleared, if it is a task item.
pub open spec fn flipped_task(line: Seq<char>) -> Option<Seq<char>> {
    let indent = indent_of(line);
    let rest = line.skip(indent);
    if has_prefix(rest, "- [ ] "@) {
        Some(line.take(indent) + "- [x] "@ + rest.skip(6))
    } else if has_prefix(rest, "- [x] "@) || has_prefix(rest, "- [X] "@) {
        Some(line.take(indent) + "- [ ] "@ + rest.skip(6))
    } else {
        None
    }
}

/// What `toggle_markdown_task` gives: the new text and the cursor.
pub open spec fn task_result(text: Seq<char>, cursor: usize) -> Option<(Seq<char>, int)> {
    let c = min_of(cursor as int, byte_len(text) as int);
    let k = line_at(text, c);
    if !is_boundary(text, c) {
        None
    } else {
        match flipped_task(lines_of(text)[k]) {
            Some(line) => Some((with_lines(text, k, k, seq![line]), c)),
            None => None,
        }
    }
}

/// Toggle the task checkbox on the line containing the cursor.
pub fn toggle_markdown_task(text: &str, cursor: usize) -> (r: Option<(String, usize)>)
    ensures
        match r {
            Some(edit) => task_result(text@, cursor) == Some((edit.0@, edit.1 as int)),
            None => task_result(text@, cursor) is None,
        },
{
    let len: usize = str_len(text);
    let cursor: usize = if cursor <= len {
        cursor
    } else {
        len
    };
    let cs = chars_of(text);
    if locate(&cs, cursor).is_none() {
        return None;
    }
    let starts = line_starts(text);
    let lines = split_lines(text);
    proof {
        lemma_starts_ascending(text@, starts@);
        lemma_line_at_offset(text@, cursor as int);
        reveal_strlit("- [ ] ");
        reveal_strlit("- [x] ");
        reveal_strlit("- [X] ");
    }
    let k: usize = line_index(starts.as_slice(), cursor);
    let line = &lines[k];
    assert(strs(lines@)[k as int] == line@);
    let lv = chars_of(line);
    let indent: usize = leading_whitespace_len(&lv);
    let rest = chars_of(&slice_of(&lv, indent, lv.len()));
    assert(rest@ =~= line@.skip(indent as int));
    let marker = if starts_with(&rest, "- [ ] ") {
        "- [x] "
    } else if starts_with(&rest, "- [x] ") || starts_with(&rest, "- [X] ") {
        "- [ ] "
    } else {
        return None;
    };
    let new_line = concat3(
        &slice_of(&lv, 0, indent),
        marker,
        &slice_of(&rest, 6, rest.len()),
    );
    proof {
        assert(lv@.subrange(0, indent as int) =~= line@.take(indent as int));
        assert(rest@.subrange(6, rest@.len() as int) =~= rest@.skip(6));
    }
    let mut new: Vec<String> = Vec::new();
    new.push(new_line);
    assert(strs(new@) =~= seq![new_line@]);
    let next = replace_lines(&lines, k, k, &new, Ghost(text@));
    Some((next, cursor))
}

} // verus!
