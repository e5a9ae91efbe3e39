//! What the edits promise together: which of them undo each other, and what they keep.

use std::ops::Range;
use vstd::prelude::*;

use crate::editing::{
    all_list_lines, all_prefixed, blanks, block_prefix, clip, continuation_of, enter_result, feed,
    flipped_task, format_at, full_url, group_heading, group_toggled, has_exact_prefix, has_wrap,
    heading_body_of, heading_level_of, heading_marks, heading_result, indent_of, indent_result,
    is_list_line, is_url, lemma_heading_bounds, lemma_selected_lines, lemma_shift_bound,
    lemma_toggled_cursor, lemma_with_lines_len, line_head, line_tail, link_text, linkify_result,
    marked_around, marked_inside, marker_active, markers_from, next_heading, next_marker,
    outdent_width, outline_upto, selected_lines, shifted_line, shifted_lines, split_index,
    starts_with_box, task_result, toggle_marks, toggle_result, toggled_cursor, toggled_line,
    total_shift, with_heading, with_lines, wrap_result, MarkdownContinuation,
};
use crate::lines::{
    fields, lemma_fields_free, lemma_fields_nonempty, lemma_line_at_offset, lemma_line_is,
    lemma_line_start_bound, lemma_line_starts_grow, lemma_lines_of_unlines, lemma_unlines,
    lemma_unlines_concat, line_at, line_start, line_starts_of, lines_of, terminated, unlines,
};
use crate::number::{decimal, lemma_number_of_decimal};
use crate::text::{
    byte_len, digits, has_prefix, has_suffix, index_at, is_blank, is_boundary, is_digit, is_white,
    lemma_boundary, lemma_boundary_order, lemma_byte_len_concat, lemma_byte_len_split,
    lemma_find_from, lemma_find_is, lemma_find_last, lemma_index_at, lemma_run, lemma_run_back_is,
    lemma_run_is, lemma_trim_same, lemma_trimmed_ends, matches_at, max_of, min_of, only,
    starts_char, trim_of,
};

verus! {

// ---------------------------------------------------------------------------
// Lines
// ---------------------------------------------------------------------------

/// The text has no line feed.
pub open spec fn one_line(s: Seq<char>) -> bool {
    forall|k: int| 0 <= k < s.len() ==> s[k] != '\n'
}

pub open spec fn all_one_line(lines: Seq<Seq<char>>) -> bool {
    forall|k: int| 0 <= k < lines.len() ==> one_line(#[trigger] lines[k])
}

/// The lines of a text have no line feed.
pub proof fn lemma_lines_one_line(text: Seq<char>)
    ensures
        all_one_line(lines_of(text)),
{
    lemma_fields_free(text, '\n');
    assert forall|k: int| 0 <= k < lines_of(text).len() implies one_line(
        #[trigger] lines_of(text)[k],
    ) by {
        assert forall|j: int| 0 <= j < lines_of(text)[k].len() implies lines_of(text)[k][j]
            != '\n' by {
            assert(fields(text, '\n')[k][j] != '\n');
        }
    }
}

/// The lines of a text in which some lines were replaced: the other lines are the same.
pub proof fn law_other_lines_unchanged(
    text: Seq<char>,
    first: int,
    last: int,
    new: Seq<Seq<char>>,
)
    requires
        0 <= first <= last < lines_of(text).len(),
        new.len() > 0,
        all_one_line(new),
    ensures
        lines_of(with_lines(text, first, last, new)) == lines_of(text).take(first) + new
            + lines_of(text).skip(last + 1),
        line_start(with_lines(text, first, last, new), first) == line_start(text, first),
{
    let ls = lines_of(text);
    let all = ls.take(first) + new + ls.skip(last + 1);
    lemma_lines_one_line(text);
    assert forall|k: int, j: int| 0 <= k < all.len() && 0 <= j < all[k].len() implies (
    #[trigger] all[k][j]) != '\n' by {
        if k < first {
            assert(one_line(ls[k]));
        } else if k < first + new.len() {
            assert(one_line(new[k - first]));
            assert(all[k] == new[k - first]);
        } else {
            assert(one_line(ls[k - first - new.len() + last + 1]));
            assert(all[k] == ls[k - first - new.len() + last + 1]);
        }
    }
    lemma_lines_of_unlines(all);
    assert(all.take(first) =~= ls.take(first));
}

/// Replacing lines and then putting the old lines back gives the old text.
pub proof fn law_lines_put_back(
    text: Seq<char>,
    first: int,
    last: int,
    new: Seq<Seq<char>>,
)
    requires
        0 <= first <= last < lines_of(text).len(),
        new.len() == last - first + 1,
        all_one_line(new),
    ensures
        with_lines(
            with_lines(text, first, last, new),
            first,
            last,
            lines_of(text).subrange(first, last + 1),
        ) == text,
{
    let ls = lines_of(text);
    let next = with_lines(text, first, last, new);
    law_other_lines_unchanged(text, first, last, new);
    lemma_unlines(text);
    assert(lines_of(next).take(first) =~= ls.take(first));
    assert(lines_of(next).skip(last + 1) =~= ls.skip(last + 1));
    assert(ls.take(first) + ls.subrange(first, last + 1) + ls.skip(last + 1) =~= ls);
}

/// Lines start one after the other, the first one at the start of the text, and every line starts
/// within the text.
pub proof fn law_line_starts(text: Seq<char>)
    ensures
        line_starts_of(text).len() >= 1,
        line_starts_of(text)[0] == 0,
        forall|i: int, j: int|
            0 <= i < j < line_starts_of(text).len() ==> line_starts_of(text)[i] < line_starts_of(
                text,
            )[j],
        forall|k: int|
            0 <= k < line_starts_of(text).len() ==> 0 <= #[trigger] line_starts_of(text)[k]
                <= byte_len(text),
{
    lemma_fields_nonempty(text, '\n');
    assert(lines_of(text).take(0) =~= Seq::empty());
    assert forall|i: int, j: int| 0 <= i < j < line_starts_of(text).len() implies line_starts_of(
        text,
    )[i] < line_starts_of(text)[j] by {
        lemma_line_starts_grow(text, i, j);
    }
    assert forall|k: int| 0 <= k < line_starts_of(text).len() implies 0 <= #[trigger] line_starts_of(
        text,
    )[k] <= byte_len(text) by {
        lemma_line_start_bound(text, k);
    }
}

// ---------------------------------------------------------------------------
// Inline markers
// ---------------------------------------------------------------------------

/// The place of a split of a text, in bytes.
proof fn lemma_split_at(a: Seq<char>, b: Seq<char>)
    ensures
        is_boundary(a + b, byte_len(a) as int),
        index_at(a + b, byte_len(a) as int) == a.len(),
        byte_len(a + b) == byte_len(a) + byte_len(b),
{
    assert((a + b).take(a.len() as int) =~= a);
    assert(starts_char(a + b, a.len() as int, byte_len(a) as int));
    lemma_index_at(a + b, a.len() as int, byte_len(a) as int);
    lemma_byte_len_concat(a, b);
}

/// The selection as the text before it, the selected text, and the text behind it.
pub open spec fn parts(text: Seq<char>, range: Range<usize>) -> (Seq<char>, Seq<char>, Seq<char>) {
    let (a, b) = clip(text, range);
    (
        text.take(index_at(text, a)),
        text.subrange(index_at(text, a), index_at(text, b)),
        text.skip(index_at(text, b)),
    )
}

pub open spec fn on_boundaries(text: Seq<char>, range: Range<usize>) -> bool {
    is_boundary(text, clip(text, range).0) && is_boundary(text, clip(text, range).1)
}

proof fn lemma_parts(text: Seq<char>, range: Range<usize>)
    requires
        on_boundaries(text, range),
    ensures
        ({
            let (head, selected, tail) = parts(text, range);
            let (a, b) = clip(text, range);
            &&& text == head + selected + tail
            &&& byte_len(head) == a
            &&& byte_len(head) + byte_len(selected) == b
            &&& (a == b <==> selected.len() == 0)
        }),
{
    let (head, selected, tail) = parts(text, range);
    let (a, b) = clip(text, range);
    lemma_boundary(text, a);
    lemma_boundary(text, b);
    lemma_boundary_order(text, a, b);
    assert(text =~= head + selected + tail);
    assert(text.take(index_at(text, b)) =~= head + selected);
    lemma_byte_len_concat(head, selected);
}

/// The parts of a text that is put together from three pieces, where the middle one is selected.
proof fn lemma_parts_of(head: Seq<char>, selected: Seq<char>, tail: Seq<char>, range: Range<usize>)
    requires
        range.start == byte_len(head),
        range.end == byte_len(head) + byte_len(selected),
    ensures
        on_boundaries(head + selected + tail, range),
        parts(head + selected + tail, range) == (head, selected, tail),
        clip(head + selected + tail, range) == (range.start as int, range.end as int),
{
    let text = head + selected + tail;
    lemma_split_at(head + selected, tail);
    lemma_byte_len_concat(head, selected);
    assert(text =~= head + (selected + tail));
    lemma_split_at(head, selected + tail);
    assert(text.take(head.len() as int) =~= head);
    assert(text.subrange(head.len() as int, (head + selected).len() as int) =~= selected);
    assert(text.skip((head + selected).len() as int) =~= tail);
}

/// What `wrap_or_unwrap` makes of a text in three pieces of which the middle one is selected.
pub open spec fn wrap_parts(
    head: Seq<char>,
    selected: Seq<char>,
    tail: Seq<char>,
    prefix: Seq<char>,
    suffix: Seq<char>,
) -> (Seq<char>, int, int) {
    let a = byte_len(head) as int;
    if selected.len() > 0 && marked_inside(selected, prefix, suffix) && selected.len()
        >= prefix.len() + suffix.len() {
        let inner = selected.subrange(prefix.len() as int, selected.len() - suffix.len());
        (head + inner + tail, a, a + byte_len(inner))
    } else if marked_around(head, tail, prefix, suffix) {
        let start = a - byte_len(prefix);
        (
            head.take(head.len() - prefix.len()) + selected + tail.skip(suffix.len() as int),
            start,
            start + byte_len(selected),
        )
    } else if selected.len() == 0 {
        (head + prefix + suffix + tail, a + byte_len(prefix), a + byte_len(prefix))
    } else {
        (
            head + prefix + selected + suffix + tail,
            a,
            a + byte_len(prefix) + byte_len(selected) + byte_len(suffix),
        )
    }
}

/// The markers around, or at the ends of, the middle piece.
pub open spec fn wrapped_parts(
    head: Seq<char>,
    selected: Seq<char>,
    tail: Seq<char>,
    prefix: Seq<char>,
    suffix: Seq<char>,
) -> bool {
    (selected.len() > 0 && marked_inside(selected, prefix, suffix)) || marked_around(
        head,
        tail,
        prefix,
        suffix,
    )
}

/// The command takes markers away: they are around the selection, or at its ends without
/// overlapping.
pub open spec fn unwraps(
    text: Seq<char>,
    range: Range<usize>,
    prefix: Seq<char>,
    suffix: Seq<char>,
) -> bool {
    let (head, selected, tail) = parts(text, range);
    on_boundaries(text, range) && ((selected.len() > 0 && marked_inside(selected, prefix, suffix)
        && selected.len() >= prefix.len() + suffix.len()) || marked_around(
        head,
        tail,
        prefix,
        suffix,
    ))
}

proof fn lemma_wrap_parts(
    text: Seq<char>,
    range: Range<usize>,
    prefix: Seq<char>,
    suffix: Seq<char>,
)
    requires
        on_boundaries(text, range),
    ensures
        ({
            let (head, selected, tail) = parts(text, range);
            &&& wrap_result(text, range, prefix, suffix) == wrap_parts(
                head,
                selected,
                tail,
                prefix,
                suffix,
            )
            &&& has_wrap(text, range, prefix, suffix) == wrapped_parts(
                head,
                selected,
                tail,
                prefix,
                suffix,
            )
        }),
{
    lemma_parts(text, range);
}

/// A prefix, a text and a suffix: what stands at its ends, and in the middle.
proof fn lemma_sandwich(prefix: Seq<char>, middle: Seq<char>, suffix: Seq<char>)
    ensures
        marked_inside(prefix + middle + suffix, prefix, suffix),
        (prefix + middle + suffix).subrange(
            prefix.len() as int,
            (prefix + middle + suffix).len() - suffix.len(),
        ) == middle,
        byte_len(prefix + middle + suffix) == byte_len(prefix) + byte_len(middle) + byte_len(
            suffix,
        ),
        byte_len(middle) >= middle.len(),
{
    let w = prefix + middle + suffix;
    assert(w.take(prefix.len() as int) =~= prefix);
    assert(w.skip(w.len() - suffix.len()) =~= suffix);
    assert(w.subrange(prefix.len() as int, w.len() - suffix.len()) =~= middle);
    lemma_byte_len_concat(prefix + middle, suffix);
    lemma_byte_len_concat(prefix, middle);
    lemma_byte_len_positive(middle);
}

proof fn lemma_surrounded(head: Seq<char>, prefix: Seq<char>, suffix: Seq<char>, tail: Seq<char>)
    ensures
        marked_around(head + prefix, suffix + tail, prefix, suffix),
        (head + prefix).take((head + prefix).len() - prefix.len()) == head,
        (suffix + tail).skip(suffix.len() as int) == tail,
        byte_len(head + prefix) == byte_len(head) + byte_len(prefix),
{
    let x = head + prefix;
    let y = suffix + tail;
    assert(x.skip(x.len() - prefix.len()) =~= prefix);
    assert(y.take(suffix.len() as int) =~= suffix);
    assert(x.take(x.len() - prefix.len()) =~= head);
    assert(y.skip(suffix.len() as int) =~= tail);
    lemma_byte_len_concat(head, prefix);
}

proof fn lemma_wrap_again_at_cursor(
    head: Seq<char>,
    tail: Seq<char>,
    prefix: Seq<char>,
    suffix: Seq<char>,
    again: Range<usize>,
)
    requires
        again.start == byte_len(head) + byte_len(prefix),
        again.end == byte_len(head) + byte_len(prefix),
    ensures
        ({
            let next = head + prefix + suffix + tail;
            let (x, y, z) = parts(next, again);
            &&& on_boundaries(next, again)
            &&& wrapped_parts(x, y, z, prefix, suffix)
            &&& wrap_parts(x, y, z, prefix, suffix) == (
                head + tail,
                byte_len(head) as int,
                byte_len(head) as int,
            )
        }),
{
    let none = Seq::<char>::empty();
    let next = head + prefix + suffix + tail;
    let outer = head + prefix;
    let rest = suffix + tail;
    assert(byte_len(none) == 0);
    lemma_surrounded(head, prefix, suffix, tail);
    lemma_parts_of(outer, none, rest, again);
    assert(next =~= outer + none + rest);
    assert(head + none + tail =~= head + tail);
}

proof fn lemma_wrap_again_selected(
    head: Seq<char>,
    selected: Seq<char>,
    tail: Seq<char>,
    prefix: Seq<char>,
    suffix: Seq<char>,
    again: Range<usize>,
)
    requires
        selected.len() > 0,
        again.start == byte_len(head),
        again.end == byte_len(head) + byte_len(prefix) + byte_len(selected) + byte_len(suffix),
    ensures
        ({
            let next = head + prefix + selected + suffix + tail;
            let (x, y, z) = parts(next, again);
            &&& on_boundaries(next, again)
            &&& wrapped_parts(x, y, z, prefix, suffix)
            &&& wrap_parts(x, y, z, prefix, suffix) == (
                head + selected + tail,
                byte_len(head) as int,
                (byte_len(head) + byte_len(selected)) as int,
            )
        }),
{
    let next = head + prefix + selected + suffix + tail;
    let inside = prefix + selected + suffix;
    lemma_sandwich(prefix, selected, suffix);
    lemma_parts_of(head, inside, tail, again);
    assert(next =~= head + inside + tail);
}

proof fn lemma_wrap_again(
    text: Seq<char>,
    range: Range<usize>,
    prefix: Seq<char>,
    suffix: Seq<char>,
    again: Range<usize>,
)
    requires
        on_boundaries(text, range),
        !unwraps(text, range, prefix, suffix),
        again.start == wrap_result(text, range, prefix, suffix).1,
        again.end == wrap_result(text, range, prefix, suffix).2,
    ensures
        has_wrap(wrap_result(text, range, prefix, suffix).0, again, prefix, suffix),
        wrap_result(wrap_result(text, range, prefix, suffix).0, again, prefix, suffix) == (
            text,
            clip(text, range).0,
            clip(text, range).1,
        ),
{
    lemma_parts(text, range);
    lemma_wrap_parts(text, range, prefix, suffix);
    let (head, selected, tail) = parts(text, range);
    let next = wrap_parts(head, selected, tail, prefix, suffix).0;
    if selected.len() == 0 {
        lemma_wrap_again_at_cursor(head, tail, prefix, suffix, again);
        assert(head + tail =~= head + selected + tail);
    } else {
        lemma_wrap_again_selected(head, selected, tail, prefix, suffix, again);
    }
    lemma_wrap_parts(next, again, prefix, suffix);
}

/// Wrapping a selection in markers and then calling the same command on the new selection gives
/// back the text and the selection. That goes for every selection from which the command does not
/// take markers away.
pub proof fn law_wrap_then_unwrap(
    text: Seq<char>,
    range: Range<usize>,
    prefix: Seq<char>,
    suffix: Seq<char>,
    again: Range<usize>,
)
    requires
        !unwraps(text, range, prefix, suffix),
        again.start == wrap_result(text, range, prefix, suffix).1,
        again.end == wrap_result(text, range, prefix, suffix).2,
    ensures
        wrap_result(wrap_result(text, range, prefix, suffix).0, again, prefix, suffix) == (
            text,
            clip(text, range).0,
            clip(text, range).1,
        ),
{
    if on_boundaries(text, range) {
        lemma_wrap_again(text, range, prefix, suffix, again);
    } else {
        assert(clip(text, again) == clip(text, range));
    }
}

/// A selection that has no markers, at its ends or around it, is put between them, and is selected
/// with them. Without a selection the cursor goes between the two.
pub proof fn law_wrap(
    head: Seq<char>,
    selected: Seq<char>,
    tail: Seq<char>,
    prefix: Seq<char>,
    suffix: Seq<char>,
    range: Range<usize>,
)
    requires
        range.start == byte_len(head),
        range.end == byte_len(head) + byte_len(selected),
        !unwraps(head + selected + tail, range, prefix, suffix),
    ensures
        ({
            let (next, from, to) = wrap_result(head + selected + tail, range, prefix, suffix);
            &&& next == head + prefix + selected + suffix + tail
            &&& selected.len() > 0 ==> from == byte_len(head) && to == byte_len(head) + byte_len(
                prefix,
            ) + byte_len(selected) + byte_len(suffix)
            &&& selected.len() == 0 ==> from == byte_len(head) + byte_len(prefix) && to == from
        }),
{
    let text = head + selected + tail;
    lemma_parts_of(head, selected, tail, range);
    lemma_parts(text, range);
    lemma_wrap_parts(text, range, prefix, suffix);
    if selected.len() == 0 {
        assert(head + prefix + selected =~= head + prefix);
    }
}

/// Markers at the ends of the selection are taken away, and what was between them is selected.
pub proof fn law_unwrap_selected(
    head: Seq<char>,
    inner: Seq<char>,
    tail: Seq<char>,
    prefix: Seq<char>,
    suffix: Seq<char>,
    range: Range<usize>,
)
    requires
        (prefix + inner + suffix).len() > 0,
        range.start == byte_len(head),
        range.end == byte_len(head) + byte_len(prefix + inner + suffix),
    ensures
        wrap_result(head + (prefix + inner + suffix) + tail, range, prefix, suffix) == (
            head + inner + tail,
            byte_len(head) as int,
            (byte_len(head) + byte_len(inner)) as int,
        ),
{
    let selected = prefix + inner + suffix;
    let text = head + selected + tail;
    lemma_sandwich(prefix, inner, suffix);
    lemma_parts_of(head, selected, tail, range);
    lemma_parts(text, range);
    lemma_wrap_parts(text, range, prefix, suffix);
}

/// Markers around the selection are taken away, and the selection stays, where it has none at its own
/// ends.
pub proof fn law_unwrap_around(
    head: Seq<char>,
    selected: Seq<char>,
    tail: Seq<char>,
    prefix: Seq<char>,
    suffix: Seq<char>,
    range: Range<usize>,
)
    requires
        range.start == byte_len(head + prefix),
        range.end == byte_len(head + prefix) + byte_len(selected),
        !(selected.len() > 0 && marked_inside(selected, prefix, suffix) && selected.len()
            >= prefix.len() + suffix.len()),
    ensures
        wrap_result((head + prefix) + selected + (suffix + tail), range, prefix, suffix) == (
            head + selected + tail,
            byte_len(head) as int,
            (byte_len(head) + byte_len(selected)) as int,
        ),
{
    let text = (head + prefix) + selected + (suffix + tail);
    lemma_surrounded(head, prefix, suffix, tail);
    lemma_parts_of(head + prefix, selected, suffix + tail, range);
    lemma_parts(text, range);
    lemma_wrap_parts(text, range, prefix, suffix);
}

proof fn lemma_byte_len_positive(s: Seq<char>)
    ensures
        byte_len(s) >= s.len(),
{
    crate::text::lemma_byte_len_bounds(s);
}

/// After wrapping, the markers are found around the new selection or at its ends.
pub proof fn law_wrap_is_seen(
    text: Seq<char>,
    range: Range<usize>,
    prefix: Seq<char>,
    suffix: Seq<char>,
    again: Range<usize>,
)
    requires
        on_boundaries(text, range),
        !unwraps(text, range, prefix, suffix),
        again.start == wrap_result(text, range, prefix, suffix).1,
        again.end == wrap_result(text, range, prefix, suffix).2,
    ensures
        has_wrap(wrap_result(text, range, prefix, suffix).0, again, prefix, suffix),
{
    lemma_wrap_again(text, range, prefix, suffix, again);
}

/// After wrapping in a marker on both sides, the marker is in force at the new selection.
pub proof fn law_wrap_sets_format(
    text: Seq<char>,
    range: Range<usize>,
    marker: Seq<char>,
    isolated: bool,
    again: Range<usize>,
)
    requires
        on_boundaries(text, range),
        !unwraps(text, range, marker, marker),
        again.start == wrap_result(text, range, marker, marker).1,
        again.end == wrap_result(text, range, marker, marker).2,
    ensures
        marker_active(wrap_result(text, range, marker, marker).0, again, marker, isolated),
{
    law_wrap_is_seen(text, range, marker, marker, again);
}

/// Wrapping and unwrapping a selection between characters gives a selection between characters of
/// the new text.
pub proof fn law_wrap_keeps_boundaries(
    text: Seq<char>,
    range: Range<usize>,
    prefix: Seq<char>,
    suffix: Seq<char>,
)
    requires
        on_boundaries(text, range),
    ensures
        ({
            let (next, from, to) = wrap_result(text, range, prefix, suffix);
            0 <= from <= to <= byte_len(next) && is_boundary(next, from) && is_boundary(next, to)
        }),
{
    let (a, b) = clip(text, range);
    let (next, from, to) = wrap_result(text, range, prefix, suffix);
    lemma_parts(text, range);
    let (head, selected, tail) = parts(text, range);
    if a < b && marked_inside(selected, prefix, suffix) && selected.len() >= prefix.len()
        + suffix.len() {
        let inner = selected.subrange(prefix.len() as int, selected.len() - suffix.len());
        lemma_three(head, inner, tail);
    } else if marked_around(head, tail, prefix, suffix) {
        let outer = head.take(head.len() - prefix.len());
        lemma_byte_len_split(head, head.len() - prefix.len());
        lemma_three(outer, selected, tail.skip(suffix.len() as int));
    } else if a == b {
        lemma_three(head + prefix, Seq::empty(), suffix + tail);
        lemma_byte_len_concat(head, prefix);
        assert(byte_len(Seq::<char>::empty()) == 0);
        assert(next =~= (head + prefix) + Seq::empty() + (suffix + tail));
    } else {
        let inside = prefix + selected + suffix;
        lemma_byte_len_concat(prefix + selected, suffix);
        lemma_byte_len_concat(prefix, selected);
        lemma_three(head, inside, tail);
        assert(next =~= head + inside + tail);
    }
}

proof fn lemma_three(head: Seq<char>, selected: Seq<char>, tail: Seq<char>)
    ensures
        is_boundary(head + selected + tail, byte_len(head) as int),
        is_boundary(head + selected + tail, (byte_len(head) + byte_len(selected)) as int),
        byte_len(head + selected + tail) == byte_len(head) + byte_len(selected) + byte_len(tail),
{
    lemma_split_at(head + selected, tail);
    lemma_byte_len_concat(head, selected);
    assert(head + selected + tail =~= head + (selected + tail));
    lemma_split_at(head, selected + tail);
}

// ---------------------------------------------------------------------------
// Headings
// ---------------------------------------------------------------------------

proof fn lemma_marks(body: Seq<char>, level: int)
    requires
        1 <= level <= 6,
    ensures
        heading_level_of(heading_marks(level) + body) == level,
        heading_body_of(heading_marks(level) + body) == body,
{
    let line = heading_marks(level) + body;
    assert(line[level] == ' ');
    assert forall|k: int| 0 <= k < level implies only('#')(#[trigger] line[k]) by {
        assert(line[k] == '#');
    }
    lemma_run_is(line, only('#'), level);
    assert(line.skip(level + 1) =~= body);
}

/// A line that was given a heading level has that level, and keeps its body.
pub proof fn law_heading_level_set(line: Seq<char>, level: int)
    requires
        1 <= level <= 6,
    ensures
        heading_level_of(with_heading(line, level)) == level,
        heading_body_of(with_heading(line, level)) == heading_body_of(line),
{
    lemma_marks(heading_body_of(line), level);
}

/// Of two heading levels that a line is given, the second one counts.
pub proof fn law_last_heading_level_counts(line: Seq<char>, first: int, second: int)
    requires
        1 <= first <= 6,
        0 <= second,
    ensures
        with_heading(with_heading(line, first), second) == with_heading(line, second),
{
    lemma_marks(heading_body_of(line), first);
}

/// The line after some number of steps through the heading levels.
pub open spec fn cycled(line: Seq<char>, steps: nat) -> Seq<char>
    decreases steps,
{
    if steps == 0 {
        line
    } else {
        let before = cycled(line, (steps - 1) as nat);
        with_heading(before, next_heading(heading_level_of(before)))
    }
}

proof fn lemma_cycled(line: Seq<char>, steps: nat)
    requires
        heading_level_of(line) == 0,
        1 <= steps <= 6,
    ensures
        cycled(line, steps) == with_heading(line, steps as int),
    decreases steps,
{
    if steps > 1 {
        lemma_cycled(line, (steps - 1) as nat);
        lemma_marks(heading_body_of(line), steps - 1);
    } else {
        assert(cycled(line, 0) == line);
        assert(line.skip(0) =~= line);
    }
}

/// Seven steps through the heading levels lead an ordinary line back to itself.
pub proof fn law_heading_cycle(line: Seq<char>)
    requires
        heading_level_of(line) == 0,
    ensures
        cycled(line, 7) == line,
{
    lemma_cycled(line, 6);
    lemma_marks(heading_body_of(line), 6);
    assert(line.skip(0) =~= line);
    assert(heading_marks(0) + line =~= line);
    assert(cycled(line, 7) == with_heading(cycled(line, 6), 0));
}

// ---------------------------------------------------------------------------
// Block prefixes
// ---------------------------------------------------------------------------

/// The prefix makes an item of the text that is not a task item by accident.
pub open spec fn plain_under(line: Seq<char>, prefix: Seq<char>) -> bool {
    prefix != "# "@ && !(prefix == "- "@ && starts_with_box(line))
}

proof fn lemma_prefix_put(line: Seq<char>, prefix: Seq<char>)
    requires
        plain_under(line, prefix),
    ensures
        has_exact_prefix(prefix + line, prefix),
        (prefix + line).skip(prefix.len() as int) == line,
{
    assert((prefix + line).take(prefix.len() as int) =~= prefix);
    assert((prefix + line).skip(prefix.len() as int) =~= line);
}

/// Toggling a block prefix twice leaves a line without a block prefix as it was, and brings the
/// cursor back.
pub proof fn law_toggle_prefix_twice(line: Seq<char>, prefix: Seq<char>, cursor: int)
    requires
        block_prefix(line) == 0,
        plain_under(line, prefix),
        !has_exact_prefix(line, prefix),
        0 <= cursor,
    ensures
        toggled_line(line, prefix) == prefix + line,
        toggled_cursor(line, prefix, cursor) == cursor + byte_len(prefix),
        toggled_line(prefix + line, prefix) == line,
        toggled_cursor(prefix + line, prefix, cursor + byte_len(prefix)) == cursor,
{
    lemma_prefix_put(line, prefix);
    assert(line.skip(0) =~= line);
    assert(line.take(0).len() == 0);
}

/// One of the prefixes that the commands for lists and quotes toggle.
pub open spec fn is_item_prefix(prefix: Seq<char>) -> bool {
    prefix == "- "@ || prefix == "* "@ || prefix == "+ "@ || prefix == "> "@ || prefix == "1. "@
        || prefix == "- [ ] "@
}

/// Toggling the prefix of a list or a quote twice leaves a line without a block prefix as it was, and
/// brings the cursor back. Only a line that starts with a box is no such line under a bullet: with it
/// it is a task item.
pub proof fn law_toggle_item_twice(line: Seq<char>, prefix: Seq<char>, cursor: int)
    requires
        is_item_prefix(prefix),
        block_prefix(line) == 0,
        prefix == "- "@ ==> !starts_with_box(line),
        0 <= cursor,
    ensures
        toggled_line(line, prefix) == prefix + line,
        toggled_cursor(line, prefix, cursor) == cursor + byte_len(prefix),
        toggled_line(prefix + line, prefix) == line,
        toggled_cursor(prefix + line, prefix, cursor + byte_len(prefix)) == cursor,
{
    reveal_strlit("# ");
    reveal_strlit("- ");
    reveal_strlit("* ");
    reveal_strlit("+ ");
    reveal_strlit("> ");
    reveal_strlit("1. ");
    reveal_strlit(". ");
    reveal_strlit("- [ ] ");
    assert("# "@[0] == '#');
    assert(prefix[0] != '#');
    if prefix == "1. "@ && has_prefix(line, prefix) {
        assert(line.take(3)[0] == '1' && line.take(3)[1] == '.' && line.take(3)[2] == ' ');
        assert(line[0] == '1' && line[1] == '.' && line[2] == ' ');
        lemma_run_is(line, digits(), 1);
        assert(line.skip(1).take(2) =~= ". "@);
    }
    law_toggle_prefix_twice(line, prefix, cursor);
}

/// On a heading, and on a line without a block prefix, the prefix of a heading goes through the
/// levels.
pub proof fn law_heading_prefix_cycles(line: Seq<char>)
    requires
        heading_level_of(line) > 0 || block_prefix(line) == 0,
    ensures
        toggled_line(line, "# "@) == with_heading(line, next_heading(heading_level_of(line))),
{
}

/// A block prefix takes the place of another one: what follows it is what followed the other one.
/// For the prefix of a heading these are the marks of the next level, so that a heading keeps one
/// row of marks too.
pub proof fn law_prefixes_do_not_stack(line: Seq<char>, prefix: Seq<char>)
    requires
        !has_exact_prefix(line, prefix) || prefix == "# "@,
    ensures
        toggled_line(line, prefix) == toggle_marks(line, prefix) + line.skip(block_prefix(line)),
        prefix != "# "@ ==> toggle_marks(line, prefix) == prefix,
        prefix == "# "@ && heading_level_of(line) == 0 ==> toggle_marks(line, prefix) == prefix,
        plain_under(line.skip(block_prefix(line)), prefix) ==> has_exact_prefix(
            toggled_line(line, prefix),
            prefix,
        ),
{
    reveal_strlit("# ");
    assert(heading_marks(1) =~= "# "@);
    if plain_under(line.skip(block_prefix(line)), prefix) {
        lemma_prefix_put(line.skip(block_prefix(line)), prefix);
    }
}

/// Lines that carry no block prefix, and to which the prefix can be given.
pub open spec fn bare_lines(lines: Seq<Seq<char>>, prefix: Seq<char>) -> bool {
    &&& exists|k: int| 0 <= k < lines.len() && !is_blank(#[trigger] lines[k])
    &&& forall|k: int|
        0 <= k < lines.len() && !is_blank(#[trigger] lines[k]) ==> block_prefix(lines[k]) == 0
            && plain_under(lines[k], prefix) && !has_exact_prefix(lines[k], prefix)
}

/// Toggling a block prefix twice on several lines without block prefixes leaves them as they were.
pub proof fn law_toggle_lines_twice(lines: Seq<Seq<char>>, prefix: Seq<char>)
    requires
        bare_lines(lines, prefix),
    ensures
        group_toggled(group_toggled(lines, prefix), prefix) == lines,
{
    let k0 = choose|k: int| 0 <= k < lines.len() && !is_blank(#[trigger] lines[k]);
    assert(!all_prefixed(lines, prefix)) by {
        assert(!is_blank(lines[k0]));
    }
    let next = group_toggled(lines, prefix);
    assert forall|k: int| 0 <= k < lines.len() implies (if is_blank(lines[k]) {
        next[k] == lines[k]
    } else {
        next[k] == prefix + lines[k] && !is_blank(next[k]) && has_exact_prefix(next[k], prefix)
            && next[k].skip(prefix.len() as int) == lines[k]
    }) by {
        if !is_blank(lines[k]) {
            law_toggle_prefix_twice(lines[k], prefix, 0);
            lemma_prefix_put(lines[k], prefix);
            let j = choose|j: int| 0 <= j < lines[k].len() && !is_white(#[trigger] lines[k][j]);
            assert(next[k][prefix.len() + j] == lines[k][j]);
        }
    }
    assert(!is_blank(next[k0]));
    assert forall|k: int| 0 <= k < next.len() && !is_blank(#[trigger] next[k]) implies has_exact_prefix(
        next[k],
        prefix,
    ) by {
        assert(if is_blank(lines[k]) {
            next[k] == lines[k]
        } else {
            has_exact_prefix(next[k], prefix)
        });
    }
    assert(all_prefixed(next, prefix));
    assert(group_toggled(next, prefix) =~= lines);
}

proof fn lemma_toggled_one_line(lines: Seq<Seq<char>>, prefix: Seq<char>)
    requires
        bare_lines(lines, prefix),
        all_one_line(lines),
        one_line(prefix),
    ensures
        all_one_line(group_toggled(lines, prefix)),
{
    let next = group_toggled(lines, prefix);
    let k0 = choose|k: int| 0 <= k < lines.len() && !is_blank(#[trigger] lines[k]);
    assert(!all_prefixed(lines, prefix)) by {
        assert(!is_blank(lines[k0]));
    }
    assert forall|k: int| 0 <= k < next.len() implies one_line(#[trigger] next[k]) by {
        assert(one_line(lines[k]));
        if !is_blank(lines[k]) {
            law_toggle_prefix_twice(lines[k], prefix, 0);
            assert(next[k] == prefix + lines[k]);
        }
    }
}

/// Toggling a block prefix on several selected lines without block prefixes, and toggling it again
/// with the same lines selected, gives the text back.
pub proof fn law_toggle_text_twice(
    text: Seq<char>,
    range: Range<usize>,
    prefix: Seq<char>,
    again: Range<usize>,
)
    requires
        selected_lines(text, range).0 < selected_lines(text, range).1,
        one_line(prefix),
        bare_lines(
            lines_of(text).subrange(
                selected_lines(text, range).0,
                selected_lines(text, range).1 + 1,
            ),
            prefix,
        ),
        selected_lines(toggle_result(text, range, prefix).0, again) == selected_lines(text, range),
    ensures
        toggle_result(toggle_result(text, range, prefix).0, again, prefix).0 == text,
{
    let (first, last) = selected_lines(text, range);
    lemma_selected_lines(text, range);
    let chosen = lines_of(text).subrange(first, last + 1);
    let new = group_toggled(chosen, prefix);
    lemma_lines_one_line(text);
    assert(all_one_line(chosen)) by {
        assert forall|k: int| 0 <= k < chosen.len() implies one_line(#[trigger] chosen[k]) by {
            assert(one_line(lines_of(text)[first + k]));
        }
    }
    lemma_toggled_one_line(chosen, prefix);
    law_toggle_lines_twice(chosen, prefix);
    law_other_lines_unchanged(text, first, last, new);
    law_lines_put_back(text, first, last, new);
    let next = with_lines(text, first, last, new);
    assert(lines_of(next).subrange(first, last + 1) =~= new);
}

// ---------------------------------------------------------------------------
// Lists
// ---------------------------------------------------------------------------

proof fn lemma_two_spaces()
    ensures
        "  "@ == seq![' ', ' '],
{
    reveal_strlit("  ");
    assert("  "@ =~= seq![' ', ' ']);
}

/// Two more spaces before a line: the line is the same kind of item, nested deeper.
proof fn lemma_indented(line: Seq<char>)
    ensures
        indent_of("  "@ + line) == indent_of(line) + 2,
        ("  "@ + line).skip(indent_of(line) + 2) == line.skip(indent_of(line)),
        is_blank("  "@ + line) == is_blank(line),
        is_list_line("  "@ + line) == is_list_line(line),
        outdent_width("  "@ + line) == 2,
        ("  "@ + line).skip(2) == line,
{
    lemma_two_spaces();
    let w = "  "@ + line;
    let n = indent_of(line);
    lemma_run(line, blanks());
    assert forall|k: int| 0 <= k < n + 2 implies blanks()(#[trigger] w[k]) by {
        if k >= 2 {
            assert(blanks()(line[k - 2]));
            assert(w[k] == line[k - 2]);
        }
    }
    if n < line.len() {
        assert(w[n + 2] == line[n]);
    }
    lemma_run_is(w, blanks(), n + 2);
    assert(w.skip(n + 2) =~= line.skip(n));
    assert(w.skip(2) =~= line);
    assert(w.take(2) =~= "  "@);
    if is_blank(line) {
        assert forall|k: int| 0 <= k < w.len() implies is_white(#[trigger] w[k]) by {
            if k >= 2 {
                assert(is_white(line[k - 2]));
            }
        }
    } else {
        let j = choose|j: int| 0 <= j < line.len() && !is_white(#[trigger] line[j]);
        assert(w[j + 2] == line[j]);
    }
}

/// Indenting lines of a list and outdenting them again leaves them as they were.
pub proof fn law_indent_then_outdent_lines(lines: Seq<Seq<char>>)
    requires
        all_list_lines(lines),
    ensures
        all_list_lines(shifted_lines(lines, false)),
        shifted_lines(shifted_lines(lines, false), true) == lines,
        total_shift(shifted_lines(lines, false), true) == total_shift(lines, false),
    decreases lines.len(),
{
    let next = shifted_lines(lines, false);
    assert forall|k: int| 0 <= k < lines.len() implies shifted_line(#[trigger] next[k], true)
        == lines[k] && (is_blank(next[k]) || is_list_line(next[k])) by {
        assert(is_blank(lines[k]) || is_list_line(lines[k]));
        lemma_indented(lines[k]);
    }
    assert(shifted_lines(next, true) =~= lines);
    if lines.len() > 0 {
        let short = lines.drop_last();
        assert forall|k: int| 0 <= k < short.len() implies is_blank(#[trigger] short[k])
            || is_list_line(short[k]) by {
            assert(is_blank(lines[k]) || is_list_line(lines[k]));
        }
        law_indent_then_outdent_lines(short);
        assert(next.drop_last() =~= shifted_lines(short, false));
        lemma_indented(lines.last());
        assert(next.last() == shifted_line(lines.last(), false));
    }
}

/// Indenting the selected lines of a list, and outdenting with the same lines selected, gives the
/// text back.
pub proof fn law_indent_then_outdent(text: Seq<char>, range: Range<usize>, again: Range<usize>)
    requires
        indent_result(text, range, false) is Some,
        on_boundaries(indent_result(text, range, false).unwrap().0, again),
        selected_lines(indent_result(text, range, false).unwrap().0, again) == selected_lines(
            text,
            range,
        ),
    ensures
        indent_result(indent_result(text, range, false).unwrap().0, again, true) is Some,
        indent_result(indent_result(text, range, false).unwrap().0, again, true).unwrap().0 == text,
{
    let (first, last) = selected_lines(text, range);
    lemma_selected_lines(text, range);
    let chosen = lines_of(text).subrange(first, last + 1);
    let new = shifted_lines(chosen, false);
    lemma_lines_one_line(text);
    lemma_two_spaces();
    assert forall|k: int| 0 <= k < new.len() implies one_line(#[trigger] new[k]) by {
        assert(one_line(lines_of(text)[first + k]));
        assert(chosen[k] == lines_of(text)[first + k]);
    }
    law_indent_then_outdent_lines(chosen);
    lemma_shift_bound(chosen, false);
    law_other_lines_unchanged(text, first, last, new);
    law_lines_put_back(text, first, last, new);
    let next = with_lines(text, first, last, new);
    assert(lines_of(next).subrange(first, last + 1) =~= new);
}

/// The last line that a selection of the whole text touches: the last one, or the one before where
/// the text ends with a line feed.
pub open spec fn last_touched(lines: Seq<Seq<char>>) -> int {
    if lines.len() > 1 && lines.last().len() == 0 {
        lines.len() - 2
    } else {
        lines.len() - 1
    }
}

/// The selection goes from the start of the text to its end.
pub open spec fn selects_all(text: Seq<char>, range: Range<usize>) -> bool {
    range.start == 0 && range.end == byte_len(text)
}

proof fn lemma_whole_selection(text: Seq<char>, range: Range<usize>)
    requires
        selects_all(text, range),
    ensures
        on_boundaries(text, range),
        clip(text, range) == (0int, byte_len(text) as int),
        selected_lines(text, range) == (0int, last_touched(lines_of(text))),
{
    let ls = lines_of(text);
    let n = ls.len() as int;
    let none = Seq::<char>::empty();
    assert(byte_len(none) == 0);
    lemma_split_at(none, text);
    assert(none + text =~= text);
    lemma_split_at(text, none);
    assert(text + none =~= text);
    lemma_fields_nonempty(text, '\n');
    assert(ls.take(0) =~= Seq::empty());
    lemma_line_start_bound(text, 0);
    lemma_line_is(text, 0, 0);
    lemma_line_start_bound(text, n - 1);
    lemma_line_is(text, byte_len(text) as int, n - 1);
    lemma_byte_len_positive(ls.last());
    if n > 1 {
        lemma_line_start_bound(text, n - 2);
        if ls.last().len() == 0 {
            lemma_line_is(text, byte_len(text) - 1, n - 2);
        }
    }
}

/// Indented lines are longer by the spaces that were put before them.
proof fn lemma_indented_len(lines: Seq<Seq<char>>)
    ensures
        byte_len(terminated(shifted_lines(lines, false))) == byte_len(terminated(lines))
            + total_shift(lines, false),
    decreases lines.len(),
{
    let new = shifted_lines(lines, false);
    if lines.len() > 0 {
        lemma_indented_len(lines.drop_last());
        assert(new.drop_last() =~= shifted_lines(lines.drop_last(), false));
        let last = lines.last();
        assert(new.last() == shifted_line(last, false));
        lemma_byte_len_concat(terminated(lines.drop_last()) + last, feed());
        lemma_byte_len_concat(terminated(lines.drop_last()), last);
        lemma_byte_len_concat(terminated(new.drop_last()) + new.last(), feed());
        lemma_byte_len_concat(terminated(new.drop_last()), new.last());
        lemma_two_spaces();
        lemma_ascii("  "@);
        lemma_byte_len_concat("  "@, last);
    } else {
        assert(new =~= lines);
    }
}

/// A text of which the first lines are indented is longer by the spaces that were put before them.
proof fn lemma_indented_text_len(text: Seq<char>, last: int)
    requires
        0 <= last < lines_of(text).len(),
    ensures
        ({
            let chosen = lines_of(text).subrange(0, last + 1);
            byte_len(with_lines(text, 0, last, shifted_lines(chosen, false))) == byte_len(text)
                + total_shift(chosen, false)
        }),
{
    let ls = lines_of(text);
    let chosen = ls.subrange(0, last + 1);
    let new = shifted_lines(chosen, false);
    let rest = ls.skip(last + 1);
    lemma_indented_len(chosen);
    lemma_unlines(text);
    assert(ls.take(0) + new + rest =~= new + rest);
    assert(chosen + rest =~= ls);
    if rest.len() == 0 {
        assert(new + rest =~= new);
        assert(chosen =~= ls);
        lemma_byte_len_concat(unlines(new), feed());
        lemma_byte_len_concat(unlines(ls), feed());
        assert(terminated(new) =~= unlines(new) + feed());
        assert(terminated(ls) =~= unlines(ls) + feed());
    } else {
        lemma_unlines_concat(new, rest);
        lemma_unlines_concat(chosen, rest);
        lemma_byte_len_concat(terminated(new), unlines(rest));
        lemma_byte_len_concat(terminated(chosen), unlines(rest));
    }
}

/// Indenting a whole text selects the same lines again when the whole of it is selected.
proof fn lemma_same_lines_touched(text: Seq<char>)
    ensures
        ({
            let last = last_touched(lines_of(text));
            let new = shifted_lines(lines_of(text).subrange(0, last + 1), false);
            let next = with_lines(text, 0, last, new);
            &&& 0 <= last < lines_of(text).len()
            &&& last_touched(lines_of(next)) == last
            &&& lines_of(next).subrange(0, last + 1) == new
        }),
{
    let ls = lines_of(text);
    lemma_fields_nonempty(text, '\n');
    let last = last_touched(ls);
    let chosen = ls.subrange(0, last + 1);
    let new = shifted_lines(chosen, false);
    lemma_lines_one_line(text);
    lemma_two_spaces();
    assert forall|k: int| 0 <= k < new.len() implies one_line(#[trigger] new[k]) by {
        assert(one_line(ls[k]));
        assert(chosen[k] == ls[k]);
    }
    law_other_lines_unchanged(text, 0, last, new);
    let now = lines_of(with_lines(text, 0, last, new));
    assert(now.subrange(0, last + 1) =~= new);
    assert(now.len() == ls.len());
    if last == ls.len() - 1 {
        assert(now.last() == new[last]);
        assert(new[last] == shifted_line(ls[last], false));
    } else {
        assert(now.last() == ls.last());
    }
}

/// Indenting a whole list, and outdenting the whole of it again, gives the text back. Both times the
/// cursor goes to the end of the text, and the second time the same lines are selected.
pub proof fn law_indent_then_outdent_all(
    text: Seq<char>,
    range: Range<usize>,
    again: Range<usize>,
)
    requires
        selects_all(text, range),
        indent_result(text, range, false) is Some,
        selects_all(indent_result(text, range, false).unwrap().0, again),
    ensures
        ({
            let (next, cursor) = indent_result(text, range, false).unwrap();
            &&& cursor == byte_len(next)
            &&& selected_lines(next, again) == selected_lines(text, range)
            &&& indent_result(next, again, true) == Some((text, byte_len(text) as int))
        }),
{
    let next = indent_result(text, range, false).unwrap().0;
    let last = last_touched(lines_of(text));
    let chosen = lines_of(text).subrange(0, last + 1);
    lemma_whole_selection(text, range);
    lemma_same_lines_touched(text);
    lemma_whole_selection(next, again);
    lemma_indented_text_len(text, last);
    lemma_shift_bound(chosen, false);
    law_indent_then_outdent_lines(chosen);
    law_indent_then_outdent(text, range, again);
}

/// The mark in a checkbox after the box was ticked or cleared.
pub open spec fn flipped_mark(mark: char) -> char {
    if mark == ' ' {
        'x'
    } else {
        ' '
    }
}

/// Ticking or clearing the checkbox of a line changes the mark in the box and nothing else.
pub proof fn law_flip_changes_mark(line: Seq<char>)
    requires
        flipped_task(line) is Some,
    ensures
        ({
            let p = indent_of(line) + 3;
            &&& 0 < p && p + 2 < line.len()
            &&& line[p - 1] == '[' && line[p + 1] == ']'
            &&& line[p] == ' ' || line[p] == 'x' || line[p] == 'X'
            &&& flipped_task(line) == Some(line.update(p, flipped_mark(line[p])))
        }),
{
    reveal_strlit("- [ ] ");
    reveal_strlit("- [x] ");
    reveal_strlit("- [X] ");
    let n = indent_of(line);
    let rest = line.skip(n);
    let next = flipped_task(line).unwrap();
    lemma_run(line, blanks());
    let was = rest.take(6);
    assert(was[2] == line[n + 2] && was[3] == line[n + 3] && was[4] == line[n + 4]);
    assert(was[0] == line[n] && was[1] == line[n + 1] && was[5] == line[n + 5]);
    assert(next =~= line.update(n + 3, flipped_mark(line[n + 3])));
}

/// Ticking and clearing a checkbox undo each other, but that a box ticked with a capital letter
/// comes back with a small one.
pub proof fn law_flip_task_twice(line: Seq<char>)
    requires
        flipped_task(line) is Some,
    ensures
        ({
            let p = indent_of(line) + 3;
            let back = if line[p] == 'X' {
                line.update(p, 'x')
            } else {
                line
            };
            flipped_task(flipped_task(line).unwrap()) == Some(back)
        }),
        indent_of(flipped_task(line).unwrap()) == indent_of(line),
        flipped_task(line).unwrap().len() == line.len(),
        byte_len(flipped_task(line).unwrap()) == byte_len(line),
{
    reveal_strlit("- [ ] ");
    reveal_strlit("- [x] ");
    reveal_strlit("- [X] ");
    let n = indent_of(line);
    let head = line.take(n);
    let rest = line.skip(n);
    let next = flipped_task(line).unwrap();
    lemma_run(line, blanks());
    let mark = if has_prefix(rest, "- [ ] "@) {
        "- [x] "@
    } else {
        "- [ ] "@
    };
    assert(next == head + mark + rest.skip(6));
    assert forall|k: int| 0 <= k < n implies blanks()(#[trigger] next[k]) by {
        assert(blanks()(line[k]));
        assert(next[k] == line[k]);
    }
    assert(next[n] == mark[0]);
    lemma_run_is(next, blanks(), n);
    let tail = next.skip(n);
    assert(tail =~= mark + rest.skip(6));
    assert(tail.take(6) =~= mark);
    law_flip_changes_mark(line);
    law_flip_changes_mark(next);
    let back = flipped_task(next).unwrap();
    if line[n + 3] == 'X' {
        assert(back =~= line.update(n + 3, 'x'));
    } else {
        assert(back =~= line);
    }
    lemma_flip_widths(line);
    lemma_same_widths(line, next);
}

proof fn lemma_ascii(s: Seq<char>)
    requires
        forall|k: int| 0 <= k < s.len() ==> (#[trigger] s[k] as u32) < 0x80,
    ensures
        byte_len(s) == s.len(),
    decreases s.len(),
{
    if s.len() > 0 {
        assert((s[s.len() - 1] as u32) < 0x80);
        let t = s.drop_last();
        assert forall|k: int| 0 <= k < t.len() implies (#[trigger] t[k] as u32) < 0x80 by {
            assert((s[k] as u32) < 0x80);
        }
        lemma_ascii(t);
    }
}

/// What follows line `k` of a text.
pub open spec fn after_line(text: Seq<char>, k: int) -> Seq<char> {
    if k + 1 < lines_of(text).len() {
        feed() + unlines(lines_of(text).skip(k + 1))
    } else {
        Seq::empty()
    }
}

/// A text with one line replaced, as what comes before, the line, and what comes after.
proof fn lemma_with_one_line(text: Seq<char>, k: int, line: Seq<char>)
    requires
        0 <= k < lines_of(text).len(),
    ensures
        with_lines(text, k, k, seq![line]) == terminated(lines_of(text).take(k)) + line
            + after_line(text, k),
{
    let ls = lines_of(text);
    let a = ls.take(k);
    let c = ls.skip(k + 1);
    let one = seq![line];
    assert(a + one + c =~= a + (one + c));
    lemma_unlines_concat(a, one + c);
    assert(one.drop_last() =~= Seq::empty());
    reveal_with_fuel(terminated, 2);
    if c.len() == 0 {
        assert(one + c =~= one);
        assert(unlines(one) =~= line);
        assert(terminated(a) + line + Seq::empty() =~= terminated(a) + line);
    } else {
        lemma_unlines_concat(one, c);
        assert(terminated(one) =~= line + feed());
        assert(terminated(a) + line + (feed() + unlines(c)) =~= terminated(a) + (line + feed()
            + unlines(c)));
    }
}

proof fn lemma_text_around_line(text: Seq<char>, k: int)
    requires
        0 <= k < lines_of(text).len(),
    ensures
        text == terminated(lines_of(text).take(k)) + lines_of(text)[k] + after_line(text, k),
{
    lemma_unlines(text);
    let ls = lines_of(text);
    lemma_with_one_line(text, k, ls[k]);
    assert(ls.take(k) + seq![ls[k]] + ls.skip(k + 1) =~= ls);
}

/// Texts with characters of the same widths have their boundaries at the same places.
proof fn lemma_same_widths(a: Seq<char>, b: Seq<char>)
    requires
        a.len() == b.len(),
        forall|k: int|
            0 <= k < a.len() ==> crate::text::char_width(#[trigger] a[k])
                == crate::text::char_width(b[k]),
    ensures
        byte_len(a) == byte_len(b),
    decreases a.len(),
{
    if a.len() > 0 {
        let n = a.len() - 1;
        assert(crate::text::char_width(a[n]) == crate::text::char_width(b[n]));
        assert forall|k: int| 0 <= k < n implies crate::text::char_width(
            #[trigger] a.drop_last()[k],
        ) == crate::text::char_width(b.drop_last()[k]) by {
            assert(crate::text::char_width(a[k]) == crate::text::char_width(b[k]));
        }
        lemma_same_widths(a.drop_last(), b.drop_last());
    }
}

/// A ticked or cleared checkbox changes no character's width.
proof fn lemma_flip_widths(line: Seq<char>)
    requires
        flipped_task(line) is Some,
    ensures
        flipped_task(line).unwrap().len() == line.len(),
        forall|k: int|
            0 <= k < line.len() ==> crate::text::char_width(#[trigger] line[k])
                == crate::text::char_width(flipped_task(line).unwrap()[k]),
        one_line(line) ==> one_line(flipped_task(line).unwrap()),
{
    law_flip_changes_mark(line);
    let next = flipped_task(line).unwrap();
    if one_line(line) {
        assert forall|k: int| 0 <= k < next.len() implies next[k] != '\n' by {
            assert(line[k] != '\n');
        }
    }
}

/// The index of the mark in the checkbox on the line of the cursor.
pub open spec fn mark_index(text: Seq<char>, cursor: usize) -> int {
    let k = line_at(text, min_of(cursor as int, byte_len(text) as int));
    terminated(lines_of(text).take(k)).len() + indent_of(lines_of(text)[k]) + 3
}

/// Toggling a task replaces a line of the text, and so the mark in its checkbox.
proof fn lemma_with_mark(text: Seq<char>, k: int, p: int, mark: char)
    requires
        0 <= k < lines_of(text).len(),
        0 <= p < lines_of(text)[k].len(),
    ensures
        ({
            let a = terminated(lines_of(text).take(k)).len() as int;
            &&& a + lines_of(text)[k].len() <= text.len()
            &&& forall|j: int|
                0 <= j < lines_of(text)[k].len() ==> text[a + j] == #[trigger] lines_of(text)[k][j]
            &&& with_lines(text, k, k, seq![lines_of(text)[k].update(p, mark)]) == text.update(
                a + p,
                mark,
            )
        }),
{
    let line = lines_of(text)[k];
    let a = terminated(lines_of(text).take(k));
    let t = after_line(text, k);
    lemma_with_one_line(text, k, line.update(p, mark));
    lemma_text_around_line(text, k);
    assert(text == a + line + t);
    assert(a + line.update(p, mark) + t =~= text.update(a.len() + p, mark));
}

/// The same cursor is on the same line of two texts that have the same lines but for one, which has
/// characters of the same widths.
proof fn lemma_same_place(text: Seq<char>, k: int, line: Seq<char>, c: int)
    requires
        0 <= c <= byte_len(text),
        is_boundary(text, c),
        k == line_at(text, c),
        one_line(line),
        line.len() == lines_of(text)[k].len(),
        forall|j: int|
            0 <= j < line.len() ==> crate::text::char_width(#[trigger] lines_of(text)[k][j])
                == crate::text::char_width(line[j]),
    ensures
        ({
            let next = with_lines(text, k, k, seq![line]);
            &&& byte_len(next) == byte_len(text)
            &&& is_boundary(next, c)
            &&& line_at(next, c) == k
            &&& lines_of(next) == lines_of(text).update(k, line)
        }),
{
    let ls = lines_of(text);
    lemma_line_at_offset(text, c);
    let old_line = ls[k];
    let next = with_lines(text, k, k, seq![line]);
    lemma_same_widths(old_line, line);
    law_other_lines_unchanged(text, k, k, seq![line]);
    let now = lines_of(next);
    assert(now =~= ls.update(k, line));
    assert(now.take(k) =~= ls.take(k));
    lemma_line_start_bound(text, k);
    lemma_line_start_bound(next, k);
    lemma_line_is(next, c, k);
    lemma_with_one_line(text, k, line);
    lemma_text_around_line(text, k);
    let a = terminated(ls.take(k));
    let t = after_line(text, k);
    assert(next.len() == text.len());
    assert forall|i: int| 0 <= i < text.len() implies crate::text::char_width(#[trigger] text[i])
        == crate::text::char_width(next[i]) by {
        if i < a.len() {
            assert(text[i] == a[i] && next[i] == a[i]);
        } else if i < a.len() + line.len() {
            assert(text[i] == old_line[i - a.len()] && next[i] == line[i - a.len()]);
        } else {
            assert(text[i] == t[i - a.len() - line.len()]);
            assert(next[i] == t[i - a.len() - line.len()]);
        }
    }
    lemma_same_widths(text, next);
    let i = index_at(text, c);
    lemma_boundary(text, c);
    assert forall|j: int| 0 <= j < i implies crate::text::char_width(#[trigger] text.take(i)[j])
        == crate::text::char_width(next.take(i)[j]) by {
        assert(text.take(i)[j] == text[j]);
    }
    lemma_same_widths(text.take(i), next.take(i));
    assert(starts_char(next, i, c));
}

/// Toggling the task at the cursor changes one character, the mark between the brackets on the line
/// of the cursor, and leaves the cursor where it is.
pub proof fn law_toggle_changes_mark(text: Seq<char>, cursor: usize)
    requires
        task_result(text, cursor) is Some,
    ensures
        ({
            let (next, c) = task_result(text, cursor).unwrap();
            let p = mark_index(text, cursor);
            let k = line_at(text, c);
            &&& c == min_of(cursor as int, byte_len(text) as int)
            &&& 0 < p && p + 1 < text.len()
            &&& byte_len(text.take(p)) == line_start(text, k) + indent_of(lines_of(text)[k]) + 3
            &&& text[p - 1] == '[' && text[p + 1] == ']'
            &&& text[p] == ' ' || text[p] == 'x' || text[p] == 'X'
            &&& next == text.update(p, flipped_mark(text[p]))
            &&& next[p] != text[p]
            &&& byte_len(next) == byte_len(text)
        }),
{
    let (next, c) = task_result(text, cursor).unwrap();
    let k = line_at(text, c);
    lemma_line_at_offset(text, c);
    let line = lines_of(text)[k];
    let n = indent_of(line);
    law_flip_changes_mark(line);
    lemma_flip_widths(line);
    lemma_lines_one_line(text);
    assert(one_line(line));
    lemma_with_mark(text, k, n + 3, flipped_mark(line[n + 3]));
    lemma_same_place(text, k, flipped_task(line).unwrap(), c);
    let a = terminated(lines_of(text).take(k));
    let p = a.len() + n + 3;
    assert(text[p - 1] == line[n + 2] && text[p] == line[n + 3] && text[p + 1] == line[n + 4]);
    lemma_text_around_line(text, k);
    let before = line.take(n + 3);
    assert(text.take(p) =~= a + before);
    lemma_byte_len_concat(a, before);
    lemma_run(line, blanks());
    reveal_strlit("- [ ] ");
    reveal_strlit("- [x] ");
    reveal_strlit("- [X] ");
    assert forall|j: int| 0 <= j < before.len() implies (#[trigger] before[j] as u32) < 0x80 by {
        if j < n {
            assert(blanks()(line[j]));
        } else {
            assert(line.skip(n).take(6)[j - n] == line[j]);
        }
    }
    lemma_ascii(before);
}

/// Toggling the task at the cursor twice gives the text back and leaves the cursor where it is, but
/// that a box ticked with a capital letter comes back with a small one.
pub proof fn law_toggle_task_twice(text: Seq<char>, cursor: usize, again: usize)
    requires
        task_result(text, cursor) is Some,
        again == task_result(text, cursor).unwrap().1,
    ensures
        ({
            let p = mark_index(text, cursor);
            let back = if text[p] == 'X' {
                text.update(p, 'x')
            } else {
                text
            };
            task_result(task_result(text, cursor).unwrap().0, again) == Some((back, again as int))
        }),
{
    let (next, c) = task_result(text, cursor).unwrap();
    let k = line_at(text, c);
    let ls = lines_of(text);
    lemma_line_at_offset(text, c);
    let line = ls[k];
    let new = flipped_task(line).unwrap();
    law_toggle_changes_mark(text, cursor);
    law_flip_changes_mark(line);
    law_flip_task_twice(line);
    lemma_flip_widths(line);
    lemma_lines_one_line(text);
    assert(one_line(line));
    lemma_same_place(text, k, new, c);
    let now = lines_of(next);
    assert(now[k] == new);
    law_toggle_changes_mark(next, again);
    assert(now.take(k) =~= ls.take(k));
    let p = mark_index(text, cursor);
    assert(mark_index(next, again) == p);
    let back = task_result(next, again).unwrap().0;
    if text[p] == 'X' {
        assert(back =~= text.update(p, 'x'));
    } else {
        assert(back =~= text);
    }
}

/// The line that continues an item is an empty item of the same kind.
proof fn lemma_continued_item(line: Seq<char>)
    requires
        continuation_of(line) is Some,
    ensures
        ({
            let (indent, marker, kind) = continuation_of(line).unwrap();
            let next = line.take(indent) + next_marker(kind);
            &&& continuation_of(next) is Some
            &&& continuation_of(next).unwrap().0 + continuation_of(next).unwrap().1 == next.len()
            &&& byte_len(next) == next.len()
            &&& one_line(next)
        }),
{
    let (indent, marker, kind) = continuation_of(line).unwrap();
    let mark = next_marker(kind);
    let next = line.take(indent) + mark;
    lemma_run(line, blanks());
    lemma_run(line.skip(indent), digits());
    reveal_strlit("- [ ] ");
    reveal_strlit("- [x] ");
    reveal_strlit("- [X] ");
    reveal_strlit("- ");
    reveal_strlit("* ");
    reveal_strlit("+ ");
    reveal_strlit("> ");
    assert forall|k: int| 0 <= k < indent implies blanks()(#[trigger] next[k]) by {
        assert(blanks()(line[k]));
        assert(next[k] == line[k]);
    }
    match kind {
        MarkdownContinuation::Numbered { number, delimiter } => {
            let n: nat = if number == u64::MAX {
                number as nat
            } else {
                (number + 1) as nat
            };
            let num = decimal(n);
            lemma_number_of_decimal(n);
            assert(is_digit(num[0]));
            assert(mark[0] == num[0]);
            assert(next[indent] == num[0]);
            lemma_run_is(next, blanks(), indent);
            assert(next.skip(indent) =~= mark);
            assert forall|k: int| 0 <= k < num.len() implies digits()(#[trigger] mark[k]) by {
                assert(is_digit(num[k]));
            }
            lemma_run_is(mark, digits(), num.len() as int);
            assert(mark.take(num.len() as int) =~= num);
            assert(mark.len() >= 6 ==> mark.take(6)[0] == num[0]);
            assert(mark.take(2)[0] == num[0]);
            assert(mark.len() == num.len() + 2);
        },
        _ => {
            assert(next[indent] == mark[0]);
            lemma_run_is(next, blanks(), indent);
            assert(next.skip(indent) =~= mark);
            if kind is Task {
                assert(mark.take(6) =~= mark);
            } else {
                assert(mark.take(2) =~= mark);
            }
            match kind {
                MarkdownContinuation::Bullet(c) => {
                    assert(c == '-' || c == '*' || c == '+');
                    assert("- "@ =~= seq!['-', ' ']);
                    assert("* "@ =~= seq!['*', ' ']);
                    assert("+ "@ =~= seq!['+', ' ']);
                },
                _ => {},
            }
        },
    }
    assert forall|k: int| 0 <= k < next.len() implies (#[trigger] next[k] as u32) < 0x80
        && next[k] != '\n' by {
        if k < indent {
            assert(blanks()(next[k]));
        } else {
            assert(next[k] == mark[k - indent]);
            match kind {
                MarkdownContinuation::Numbered { number, delimiter } => {
                    let n: nat = if number == u64::MAX {
                        number as nat
                    } else {
                        (number + 1) as nat
                    };
                    if k - indent < decimal(n).len() {
                        lemma_number_of_decimal(n);
                        assert(is_digit(decimal(n)[k - indent]));
                    }
                },
                _ => {},
            }
        }
    }
    lemma_ascii(next);
}

/// Pressing Enter at the end of an item, and again on the empty item that this opens, leaves the
/// block: the text has one empty line more, and the cursor is on it.
pub proof fn law_enter_twice_leaves_block(
    text: Seq<char>,
    range: Range<usize>,
    again: Range<usize>,
)
    requires
        enter_result(text, range) is Some,
        ({
            let k = line_at(text, clip(text, range).0);
            let line = lines_of(text)[k];
            let (indent, marker, kind) = continuation_of(line).unwrap();
            &&& clip(text, range).0 == line_start(text, k) + byte_len(line)
            &&& !is_blank(line.skip(indent + marker))
        }),
        again.start == enter_result(text, range).unwrap().1,
        again.end == again.start,
    ensures
        ({
            let a = clip(text, range).0;
            let i = index_at(text, a);
            enter_result(enter_result(text, range).unwrap().0, again) == Some(
                (text.take(i) + feed() + text.skip(i), a + 1),
            )
        }),
{
    let a = clip(text, range).0;
    let k = line_at(text, a);
    lemma_line_at_offset(text, a);
    let line = lines_of(text)[k];
    let (indent, marker, kind) = continuation_of(line).unwrap();
    lemma_continued_item(line);
    lemma_enter_opens(text, range);
    lemma_enter_closes(text, k, line.take(indent) + next_marker(kind), again);
}

/// The text up to the end of line `k`.
pub open spec fn upto_line(text: Seq<char>, k: int) -> Seq<char> {
    terminated(lines_of(text).take(k)) + lines_of(text)[k]
}

/// Enter splits a text at an index of it, and at the cursor where a line ends there.
proof fn lemma_split_index(text: Seq<char>, cursor: int)
    requires
        is_boundary(text, cursor),
    ensures
        0 <= split_index(text, cursor) <= text.len(),
        ({
            let i = index_at(text, cursor);
            i == text.len() || text[i] == '\n' ==> split_index(text, cursor) == i
        }),
{
    lemma_boundary(text, cursor);
    if text == "  - hello world"@ && cursor == 9 {
        let i = index_at(text, cursor);
        reveal_strlit("  - hello world");
        lemma_ascii(text.take(i));
        assert(text[9] == ' ');
    }
}

/// Enter in an item with a body splits the item at the cursor, and puts the marker of the next item
/// between the two parts; the cursor is then behind the marker. There is an edit just where the
/// selection is empty and between two characters, at or behind the end of the marker of an item.
pub proof fn law_enter_splits_at_cursor(text: Seq<char>, range: Range<usize>)
    requires
        !(text == "  - hello world"@ && clip(text, range).0 == 9),
    ensures
        ({
            let (a, b) = clip(text, range);
            let k = line_at(text, a);
            let line = lines_of(text)[k];
            &&& enter_result(text, range) is Some <==> a == b && is_boundary(text, a)
                && continuation_of(line) is Some && line_start(text, k) + continuation_of(
                line,
            ).unwrap().0 + continuation_of(line).unwrap().1 <= a
            &&& enter_result(text, range) is Some ==> {
                let (indent, marker, kind) = continuation_of(line).unwrap();
                let (next, cursor) = enter_result(text, range).unwrap();
                let inserted = feed() + line.take(indent) + next_marker(kind);
                let i = index_at(text, a);
                !is_blank(line.skip(indent + marker)) ==> {
                    &&& byte_len(text.take(i)) == a
                    &&& next == text.take(i) + inserted + text.skip(i)
                    &&& cursor == a + byte_len(inserted)
                }
            }
        }),
{
    let a = clip(text, range).0;
    if is_boundary(text, a) {
        lemma_boundary(text, a);
    }
}

/// Enter at the end of an item with a body opens a new item.
proof fn lemma_enter_opens(text: Seq<char>, range: Range<usize>)
    requires
        enter_result(text, range) is Some,
        ({
            let k = line_at(text, clip(text, range).0);
            let line = lines_of(text)[k];
            let (indent, marker, kind) = continuation_of(line).unwrap();
            &&& clip(text, range).0 == line_start(text, k) + byte_len(line)
            &&& !is_blank(line.skip(indent + marker))
        }),
    ensures
        ({
            let a = clip(text, range).0;
            let k = line_at(text, a);
            let line = lines_of(text)[k];
            let (indent, marker, kind) = continuation_of(line).unwrap();
            let item = line.take(indent) + next_marker(kind);
            &&& enter_result(text, range) == Some(
                (
                    upto_line(text, k) + feed() + item + after_line(text, k),
                    a + 1 + byte_len(item),
                ),
            )
            &&& a == byte_len(upto_line(text, k))
            &&& text.take(index_at(text, a)) == upto_line(text, k)
            &&& text.skip(index_at(text, a)) == after_line(text, k)
        }),
{
    let a = clip(text, range).0;
    let i = index_at(text, a);
    let k = line_at(text, a);
    let ls = lines_of(text);
    lemma_line_at_offset(text, a);
    lemma_boundary(text, a);
    let line = ls[k];
    let (indent, marker, kind) = continuation_of(line).unwrap();
    let item = line.take(indent) + next_marker(kind);
    let before = upto_line(text, k);
    let rest = after_line(text, k);
    lemma_text_around_line(text, k);
    lemma_byte_len_concat(terminated(ls.take(k)), line);
    lemma_split_at(before, rest);
    assert(text.take(i) =~= before);
    assert(text.skip(i) =~= rest);
    if i < text.len() {
        assert(text[i] == rest[0]);
        assert(rest[0] == '\n');
    }
    lemma_split_index(text, a);
    let inserted = feed() + line.take(indent) + next_marker(kind);
    assert(inserted =~= feed() + item);
    assert(byte_len(feed()) == 1) by {
        reveal_with_fuel(byte_len, 2);
    }
    lemma_byte_len_concat(feed(), item);
    assert(before + inserted + rest =~= before + feed() + item + rest);
}

/// Enter at the end of an empty item behind line `k` clears it.
proof fn lemma_enter_closes(text: Seq<char>, k: int, item: Seq<char>, again: Range<usize>)
    requires
        0 <= k < lines_of(text).len(),
        continuation_of(item) is Some,
        continuation_of(item).unwrap().0 + continuation_of(item).unwrap().1 == item.len(),
        byte_len(item) == item.len(),
        one_line(item),
        again.start == byte_len(upto_line(text, k)) + 1 + byte_len(item),
        again.end == again.start,
    ensures
        enter_result(upto_line(text, k) + feed() + item + after_line(text, k), again) == Some(
            (
                upto_line(text, k) + feed() + after_line(text, k),
                byte_len(upto_line(text, k)) as int + 1,
            ),
        ),
{
    let ls = lines_of(text);
    let before = upto_line(text, k);
    let rest = after_line(text, k);
    let next = before + feed() + item + rest;
    let more = ls.take(k + 1) + seq![item] + ls.skip(k + 1);
    lemma_lines_with_item(text, k, item);
    let cursor = again.start as int;
    lemma_split_at(before + feed() + item, rest);
    lemma_byte_len_concat(before + feed(), item);
    lemma_byte_len_concat(before, feed());
    assert(byte_len(feed()) == 1) by {
        reveal_with_fuel(byte_len, 2);
    }
    assert(clip(next, again) == (cursor, cursor));
    lemma_line_start_bound(next, k + 1);
    lemma_line_is(next, cursor, k + 1);
    let (indent, marker, kind) = continuation_of(item).unwrap();
    assert(item.skip(indent + marker) =~= Seq::empty());
    assert(is_blank(item.skip(indent + marker)));
    let none = Seq::<char>::empty();
    lemma_more_lines(text, k, none);
    assert(more.take(k + 1) + seq![none] + more.skip(k + 2) =~= ls.take(k + 1) + seq![none]
        + ls.skip(k + 1));
    assert(before + feed() + none + rest =~= before + feed() + rest);
}

proof fn lemma_lines_with_item(text: Seq<char>, k: int, item: Seq<char>)
    requires
        0 <= k < lines_of(text).len(),
        one_line(item),
    ensures
        ({
            let next = upto_line(text, k) + feed() + item + after_line(text, k);
            &&& lines_of(next) == lines_of(text).take(k + 1) + seq![item] + lines_of(text).skip(
                k + 1,
            )
            &&& line_start(next, k + 1) == byte_len(upto_line(text, k)) + 1
        }),
{
    let ls = lines_of(text);
    let more = ls.take(k + 1) + seq![item] + ls.skip(k + 1);
    lemma_more_lines(text, k, item);
    lemma_lines_one_line(text);
    assert forall|x: int, j: int| 0 <= x < more.len() && 0 <= j < more[x].len() implies (
    #[trigger] more[x][j]) != '\n' by {
        if x <= k {
            assert(one_line(ls[x]));
        } else if x == k + 1 {
            assert(one_line(item));
        } else {
            assert(one_line(ls[x - 1]));
            assert(more[x] == ls[x - 1]);
        }
    }
    lemma_lines_of_unlines(more);
    assert(more.take(k + 1) =~= ls.take(k + 1));
    assert(ls.take(k + 1).drop_last() =~= ls.take(k));
    let before = upto_line(text, k);
    assert(terminated(ls.take(k + 1)) =~= before + feed());
    assert(byte_len(feed()) == 1) by {
        reveal_with_fuel(byte_len, 2);
    }
    lemma_byte_len_concat(before, feed());
}

/// A text with one more line behind line `k`.
proof fn lemma_more_lines(text: Seq<char>, k: int, item: Seq<char>)
    requires
        0 <= k < lines_of(text).len(),
    ensures
        unlines(lines_of(text).take(k + 1) + seq![item] + lines_of(text).skip(k + 1))
            == terminated(lines_of(text).take(k)) + lines_of(text)[k] + feed() + item + after_line(
            text,
            k,
        ),
{
    let ls = lines_of(text);
    let a = ls.take(k + 1);
    let c = ls.skip(k + 1);
    let one = seq![item];
    assert(a + one + c =~= a + (one + c));
    lemma_unlines_concat(a, one + c);
    assert(a.drop_last() =~= ls.take(k));
    assert(terminated(a) == terminated(ls.take(k)) + ls[k] + feed());
    assert(one.drop_last() =~= Seq::empty());
    reveal_with_fuel(terminated, 2);
    if c.len() == 0 {
        assert(one + c =~= one);
        assert(unlines(one) =~= item);
        assert(terminated(a) + item + Seq::empty() =~= terminated(a) + item);
    } else {
        lemma_unlines_concat(one, c);
        assert(terminated(one) =~= item + feed());
        assert(terminated(a) + item + (feed() + unlines(c)) =~= terminated(a) + (item + feed()
            + unlines(c)));
    }
}

/// Every heading in the outline has a level from one to six, and starts where a line of that level
/// starts.
pub proof fn law_outline_points_at_headings(text: Seq<char>, n: int, m: int)
    requires
        0 <= n <= lines_of(text).len(),
        0 <= m < outline_upto(text, n).len(),
    ensures
        1 <= outline_upto(text, n)[m].0 <= 6,
        exists|k: int|
            0 <= k < n && #[trigger] line_start(text, k) == outline_upto(text, n)[m].2
                && heading_level_of(lines_of(text)[k]) == outline_upto(text, n)[m].0,
    decreases n,
{
    if n > 0 {
        let line = lines_of(text)[n - 1];
        lemma_heading_bounds(line);
        if m < outline_upto(text, n - 1).len() {
            law_outline_points_at_headings(text, n - 1, m);
        } else {
            assert(line_start(text, n - 1) == outline_upto(text, n)[m].2);
        }
    }
}

/// Every heading line is in the outline, with its level, its text and its place.
pub proof fn law_outline_is_complete(text: Seq<char>, n: int, k: int)
    requires
        0 <= k < n <= lines_of(text).len(),
        heading_level_of(lines_of(text)[k]) > 0,
    ensures
        exists|m: int|
            0 <= m < outline_upto(text, n).len() && #[trigger] outline_upto(text, n)[m] == (
                heading_level_of(lines_of(text)[k]),
                trim_of(heading_body_of(lines_of(text)[k])),
                line_start(text, k) as int,
            ),
    decreases n,
{
    let before = outline_upto(text, n - 1);
    if k == n - 1 {
        assert(outline_upto(text, n)[before.len() as int].2 == line_start(text, k));
        assert(outline_upto(text, n)[before.len() as int].1 == trim_of(
            heading_body_of(lines_of(text)[k]),
        ));
    } else {
        law_outline_is_complete(text, n - 1, k);
        let m = choose|m: int|
            0 <= m < before.len() && #[trigger] before[m] == (
                heading_level_of(lines_of(text)[k]),
                trim_of(heading_body_of(lines_of(text)[k])),
                line_start(text, k) as int,
            );
        assert(outline_upto(text, n)[m] == before[m]);
    }
}

/// The outline has no other entries than the heading lines: as many as there are of these.
pub proof fn law_outline_grows(text: Seq<char>, n: int)
    requires
        0 < n <= lines_of(text).len(),
    ensures
        outline_upto(text, 0).len() == 0,
        outline_upto(text, n).len() == outline_upto(text, n - 1).len() + if heading_level_of(
            lines_of(text)[n - 1],
        ) > 0 {
            1nat
        } else {
            0nat
        },
{
}

/// The characters of a selection are counted as they would be by themselves.
pub proof fn law_selection_count(
    head: Seq<char>,
    selected: Seq<char>,
    tail: Seq<char>,
    range: Range<usize>,
)
    requires
        range.start == byte_len(head),
        range.end == byte_len(head) + byte_len(selected),
    ensures
        crate::editing::selection_count(head + selected + tail, range)
            == crate::editing::visible_count(selected),
{
    lemma_parts_of(head, selected, tail, range);
}

/// A selected word becomes a link to an address that stands alone on the clipboard, and what is around
/// it stays. Nothing becomes a link that is an address itself, has white space at its ends, or goes
/// over several lines.
pub proof fn law_linkify(
    head: Seq<char>,
    selected: Seq<char>,
    tail: Seq<char>,
    url: Seq<char>,
    range: Range<usize>,
)
    requires
        range.start == byte_len(head),
        range.end == byte_len(head) + byte_len(selected),
    ensures
        ({
            let result = linkify_result(head + selected + tail, range, url);
            let link = link_text(selected, full_url(url));
            &&& result is Some <==> selected.len() > 0 && crate::editing::is_lone_url(url)
                && trim_of(selected) == selected && one_line(selected) && !is_url(selected)
            &&& result is Some ==> result.unwrap() == (
                head + link + tail,
                (byte_len(head) + byte_len(link)) as int,
            )
        }),
{
    let text = head + selected + tail;
    lemma_parts_of(head, selected, tail, range);
    lemma_parts(text, range);
}

/// A format is in force at a selection that has the marker of the format, and no other, at its ends or
/// around it: two stars for bold, one for italic, two tildes for struck text and a backtick for code.
pub proof fn law_format_markers(text: Seq<char>, range: Range<usize>)
    ensures
        ({
            let f = format_at(text, range);
            &&& has_wrap(text, range, seq!['*', '*'], seq!['*', '*']) ==> f.bold
            &&& has_wrap(text, range, seq!['*'], seq!['*']) ==> f.italic
            &&& has_wrap(text, range, seq!['~', '~'], seq!['~', '~']) ==> f.strike
            &&& has_wrap(text, range, seq!['`'], seq!['`']) ==> f.code
            &&& (forall|k: int| 0 <= k < text.len() ==> text[k] != '*') ==> !f.bold && !f.italic
            &&& (forall|k: int| 0 <= k < text.len() ==> text[k] != '~') ==> !f.strike
            &&& (forall|k: int| 0 <= k < text.len() ==> text[k] != '`') ==> !f.code
        }),
{
    reveal_strlit("**");
    reveal_strlit("*");
    reveal_strlit("~~");
    reveal_strlit("`");
    assert("**"@ =~= seq!['*', '*']);
    assert("*"@ =~= seq!['*']);
    assert("~~"@ =~= seq!['~', '~']);
    assert("`"@ =~= seq!['`']);
    if forall|k: int| 0 <= k < text.len() ==> text[k] != '*' {
        lemma_absent(text, "**"@);
        lemma_absent(text, "*"@);
        law_no_marker_no_format(text, range, "**"@, false);
        law_no_marker_no_format(text, range, "*"@, true);
    }
    if forall|k: int| 0 <= k < text.len() ==> text[k] != '~' {
        lemma_absent(text, "~~"@);
        law_no_marker_no_format(text, range, "~~"@, false);
    }
    if forall|k: int| 0 <= k < text.len() ==> text[k] != '`' {
        lemma_absent(text, "`"@);
        law_no_marker_no_format(text, range, "`"@, true);
    }
}

/// The text has neither the character, nor a backslash, nor a line feed.
pub open spec fn is_free_of(s: Seq<char>, c: char) -> bool {
    forall|k: int| 0 <= k < s.len() ==> s[k] != c && s[k] != '\\' && s[k] != '\n'
}

/// The text is a marker made of one character of ASCII, once or more.
pub open spec fn is_marker(marker: Seq<char>) -> bool {
    marker.len() > 0 && (marker[0] as u32) < 0x80 && marker[0] != '\\' && marker[0] != '\n'
        && forall|k: int| 0 <= k < marker.len() ==> #[trigger] marker[k] == marker[0]
}

proof fn lemma_places(a: Seq<char>, marker: Seq<char>, b: Seq<char>, c: Seq<char>, isolated: bool)
    requires
        is_marker(marker),
        b.len() > 0,
        is_free_of(a, marker[0]),
        is_free_of(b, marker[0]),
        is_free_of(c, marker[0]),
    ensures
        markers_from(a + marker + b + marker + c, marker, isolated, 0) == seq![
            a.len() as int,
            (a.len() + marker.len() + b.len()) as int,
        ],
{
    let line = a + marker + b + marker + c;
    let w = marker.len() as int;
    let p = a.len() as int;
    let q = p + w + b.len();
    let c0 = marker[0];
    assert(line.subrange(p, p + w) =~= marker);
    assert(line.subrange(q, q + w) =~= marker);
    assert forall|k: int| 0 <= k < p implies !matches_at(line, k, marker) by {
        if matches_at(line, k, marker) {
            assert(line.subrange(k, k + w)[0] == a[k]);
        }
    }
    lemma_find_is(line, marker, 0, p);
    assert forall|k: int| p + w <= k < q implies !matches_at(line, k, marker) by {
        if matches_at(line, k, marker) {
            assert(line.subrange(k, k + w)[0] == b[k - p - w]);
        }
    }
    lemma_find_is(line, marker, p + w, q);
    lemma_find_from(line, marker, q + w);
    if let Some(k) = crate::text::find_from(line, marker, q + w) {
        assert(line.subrange(k, k + w)[0] == c[k - q - w]);
    }
    let slash = only('\\');
    if p > 0 {
        assert(line.take(p)[p - 1] == a[p - 1]);
    }
    lemma_run_back_is(line.take(p), slash, 0);
    assert(line.take(q)[q - 1] == b.last());
    lemma_run_back_is(line.take(q), slash, 0);
    if p > 0 {
        assert(line[p - 1] == a[p - 1]);
    }
    if byte_len(marker) == 1 {
        crate::text::lemma_byte_len_bounds(marker);
        assert(w == 1);
        assert(line[p + 1] == b[0]);
        assert(line[q - 1] == b.last());
        if q + 1 < line.len() {
            assert(line[q + 1] == c[0]);
        }
    }
    reveal_with_fuel(markers_from, 4);
    assert(markers_from(line, marker, isolated, q + w) =~= Seq::<int>::empty());
    assert(markers_from(line, marker, isolated, p + w) =~= seq![q]);
    assert(markers_from(line, marker, isolated, 0) =~= seq![p, q]);
}

proof fn lemma_one_line_of(a: Seq<char>, marker: Seq<char>, b: Seq<char>, c: Seq<char>)
    requires
        is_marker(marker),
        is_free_of(a, marker[0]),
        is_free_of(b, marker[0]),
        is_free_of(c, marker[0]),
    ensures
        one_line(a + marker + b + marker + c),
{
    let line = a + marker + b + marker + c;
    let w = marker.len() as int;
    let p = a.len() as int;
    let q = p + w + b.len();
    assert forall|k: int| 0 <= k < line.len() implies line[k] != '\n' by {
        if k < p {
            assert(line[k] == a[k]);
        } else if k < p + w {
            assert(line[k] == marker[k - p]);
        } else if k < q {
            assert(line[k] == b[k - p - w]);
        } else if k < q + w {
            assert(line[k] == marker[k - q]);
        } else {
            assert(line[k] == c[k - q - w]);
        }
    }
}

/// A text of one line is the line around every place in it.
proof fn lemma_whole_line(line: Seq<char>, i: int, j: int)
    requires
        one_line(line),
        0 <= i <= j <= line.len(),
    ensures
        line_head(line, i) == 0,
        line_tail(line, j) == line.len(),
        line.subrange(0, line.len() as int) == line,
        !crate::editing::holds_char(line.subrange(i, j), '\n'),
{
    lemma_find_last(line, feed(), i);
    if let Some(k) = crate::text::find_last(line, feed(), i) {
        assert(line.subrange(k, k + 1)[0] == line[k]);
    }
    lemma_find_from(line, feed(), j);
    if let Some(k) = crate::text::find_from(line, feed(), j) {
        assert(line.subrange(k, k + 1)[0] == line[k]);
    }
    assert(line.subrange(0, line.len() as int) =~= line);
    assert forall|k: int| 0 <= k < line.subrange(i, j).len() implies line.subrange(i, j)[k]
        != '\n' by {
        assert(line.subrange(i, j)[k] == line[i + k]);
    }
}

/// A selection between the only two markers of a line has the format.
proof fn lemma_covered(
    line: Seq<char>,
    range: Range<usize>,
    marker: Seq<char>,
    isolated: bool,
    p: int,
    q: int,
)
    requires
        one_line(line),
        range.start <= range.end <= byte_len(line),
        is_boundary(line, range.start as int),
        is_boundary(line, range.end as int),
        markers_from(line, marker, isolated, 0) == seq![p, q],
        p + marker.len() <= index_at(line, range.start as int),
        index_at(line, range.end as int) <= q,
    ensures
        marker_active(line, range, marker, isolated),
{
    let x = range.start as int;
    let y = range.end as int;
    lemma_boundary(line, x);
    lemma_boundary(line, y);
    lemma_boundary_order(line, x, y);
    let i = index_at(line, x);
    let j = index_at(line, y);
    lemma_whole_line(line, i, j);
    let places = seq![p, q];
    let m: int = 0;
    assert(crate::editing::pair_covers(
        places[2 * m],
        places[2 * m + 1],
        marker.len() as int,
        i,
        j,
    ));
    assert(crate::editing::some_pair_covers(places, marker.len() as int, i, j));
}

/// Offsets between the end of a first part and the start of a last one are within the middle.
proof fn lemma_within(first: Seq<char>, middle: Seq<char>, last: Seq<char>, offset: int)
    requires
        is_boundary(first + middle + last, offset),
        byte_len(first) <= offset <= byte_len(first + middle),
    ensures
        first.len() <= index_at(first + middle + last, offset) <= first.len() + middle.len(),
        byte_len(first + middle) <= byte_len(first + middle + last),
{
    let text = first + middle + last;
    assert(text =~= first + (middle + last));
    lemma_split_at(first, middle + last);
    lemma_split_at(first + middle, last);
    lemma_boundary_order(text, byte_len(first) as int, offset);
    lemma_boundary_order(text, offset, byte_len(first + middle) as int);
}

/// Between two markers of a format on a line, the format is in force at every selection.
pub proof fn law_format_between_markers(
    a: Seq<char>,
    marker: Seq<char>,
    b: Seq<char>,
    c: Seq<char>,
    isolated: bool,
    range: Range<usize>,
)
    requires
        is_marker(marker),
        b.len() > 0,
        is_free_of(a, marker[0]),
        is_free_of(b, marker[0]),
        is_free_of(c, marker[0]),
        range.start <= range.end,
        byte_len(a + marker) <= range.start,
        range.end <= byte_len(a + marker + b),
        is_boundary(a + marker + b + marker + c, range.start as int),
        is_boundary(a + marker + b + marker + c, range.end as int),
    ensures
        marker_active(a + marker + b + marker + c, range, marker, isolated),
{
    let line = a + marker + b + marker + c;
    lemma_places(a, marker, b, c, isolated);
    lemma_one_line_of(a, marker, b, c);
    assert(line =~= (a + marker) + b + (marker + c));
    lemma_within(a + marker, b, marker + c, range.start as int);
    lemma_within(a + marker, b, marker + c, range.end as int);
    lemma_covered(
        line,
        range,
        marker,
        isolated,
        a.len() as int,
        (a.len() + marker.len() + b.len()) as int,
    );
}

proof fn lemma_absent(text: Seq<char>, marker: Seq<char>)
    requires
        marker.len() > 0,
        forall|k: int| 0 <= k < text.len() ==> text[k] != marker[0],
    ensures
        forall|k: int| 0 <= k ==> !matches_at(text, k, marker),
{
    assert forall|k: int| 0 <= k implies !matches_at(text, k, marker) by {
        if matches_at(text, k, marker) {
            assert(text.subrange(k, k + marker.len())[0] == text[k]);
        }
    }
}

// ---------------------------------------------------------------------------
// Cursors
// ---------------------------------------------------------------------------

/// Enter leaves the cursor within the text, and between two characters.
pub proof fn law_enter_cursor(text: Seq<char>, range: Range<usize>)
    requires
        enter_result(text, range) is Some,
    ensures
        ({
            let (next, cursor) = enter_result(text, range).unwrap();
            0 <= cursor <= byte_len(next) && is_boundary(next, cursor)
        }),
{
    let (a, b) = clip(text, range);
    let k = line_at(text, a);
    lemma_line_at_offset(text, a);
    let line = lines_of(text)[k];
    let (indent, marker, kind) = continuation_of(line).unwrap();
    lemma_boundary(text, a);
    if is_blank(line.skip(indent + marker)) {
        let none = Seq::<char>::empty();
        lemma_with_one_line(text, k, none);
        let before = terminated(lines_of(text).take(k));
        let rest = after_line(text, k);
        assert(before + none + rest =~= before + rest);
        lemma_split_at(before, rest);
    } else {
        let inserted = feed() + line.take(indent) + next_marker(kind);
        let i = split_index(text, a);
        lemma_split_index(text, a);
        lemma_split_at(text.take(i) + inserted, text.skip(i));
        lemma_byte_len_concat(text.take(i), inserted);
    }
}

/// Making a link leaves the cursor within the text, behind the link.
pub proof fn law_linkify_cursor(text: Seq<char>, range: Range<usize>, url: Seq<char>)
    requires
        linkify_result(text, range, url) is Some,
    ensures
        ({
            let (next, cursor) = linkify_result(text, range, url).unwrap();
            0 <= cursor <= byte_len(next) && is_boundary(next, cursor)
        }),
{
    let (a, b) = clip(text, range);
    let (head, selected, tail) = parts(text, range);
    lemma_parts(text, range);
    let link = link_text(selected, full_url(url));
    lemma_split_at(head + link, tail);
    lemma_byte_len_concat(head, link);
}

/// Setting a heading level leaves the cursor within the text, behind the lines that it changed.
pub proof fn law_heading_cursor(text: Seq<char>, range: Range<usize>, level: int)
    requires
        0 <= level,
    ensures
        0 <= heading_result(text, range, level).1 <= byte_len(heading_result(text, range, level).0),
{
    let (first, last) = selected_lines(text, range);
    lemma_selected_lines(text, range);
    let new = group_heading(lines_of(text).subrange(first, last + 1), level);
    lemma_with_lines_len(text, first, last, new);
}

/// Toggling a block prefix leaves the cursor within the text, where the selection was within it.
pub proof fn law_toggle_cursor(text: Seq<char>, range: Range<usize>, prefix: Seq<char>)
    requires
        range.start <= byte_len(text),
        range.end <= byte_len(text),
    ensures
        0 <= toggle_result(text, range, prefix).1 <= byte_len(toggle_result(text, range, prefix).0),
{
    let (first, last) = selected_lines(text, range);
    lemma_selected_lines(text, range);
    let start = line_start(text, first) as int;
    if first == last {
        let a = range.start as int;
        let b = range.end as int;
        let line = lines_of(text)[first];
        let extra: int = if first + 1 < lines_of(text).len() {
            1
        } else {
            0
        };
        lemma_line_start_bound(text, first);
        lemma_line_at_offset(text, a);
        lemma_line_at_offset(text, b);
        assert(a <= start + byte_len(line));
        assert(b <= start + byte_len(line) + extra) by {
            let m = line_at(text, b);
            if b > a && line_start(text, m) == b {
                let j = line_at(text, b - 1);
                lemma_line_at_offset(text, b - 1);
                assert(j <= first);
                if m > first + 1 {
                    lemma_line_starts_grow(text, first + 1, m);
                    if j < first {
                        lemma_line_starts_grow(text, j + 1, first + 1);
                    }
                } else if m < first {
                    lemma_line_starts_grow(text, m, first);
                }
            } else if m < first {
                if m + 1 < first {
                    lemma_line_starts_grow(text, m + 1, first);
                }
            }
        }
        let cursor = max_of(max_of(a, b) - start, 0);
        lemma_toggled_cursor(line, prefix, cursor, extra);
        let new = toggled_line(line, prefix);
        lemma_with_one_line(text, first, new);
        let before = terminated(lines_of(text).take(first));
        lemma_byte_len_concat(before + new, after_line(text, first));
        lemma_byte_len_concat(before, new);
        if extra == 1 {
            lemma_byte_len_concat(feed(), unlines(lines_of(text).skip(first + 1)));
            assert(byte_len(feed()) == 1) by {
                reveal_with_fuel(byte_len, 2);
            }
        }
    } else {
        let new = group_toggled(lines_of(text).subrange(first, last + 1), prefix);
        lemma_with_lines_len(text, first, last, new);
    }
}

// ---------------------------------------------------------------------------
// Formats, outlines and addresses
// ---------------------------------------------------------------------------

proof fn lemma_no_markers(line: Seq<char>, marker: Seq<char>, isolated: bool)
    requires
        forall|k: int| 0 <= k ==> !matches_at(line, k, marker),
    ensures
        markers_from(line, marker, isolated, 0) == Seq::<int>::empty(),
{
    lemma_find_from(line, marker, 0);
}

/// A format whose marker does not occur in a text is in force nowhere in it.
pub proof fn law_no_marker_no_format(
    text: Seq<char>,
    range: Range<usize>,
    marker: Seq<char>,
    isolated: bool,
)
    requires
        marker.len() > 0,
        forall|k: int| 0 <= k ==> !matches_at(text, k, marker),
    ensures
        !marker_active(text, range, marker, isolated),
{
    if on_boundaries(text, range) {
        let (a, b) = clip(text, range);
        lemma_parts(text, range);
        lemma_boundary(text, a);
        lemma_boundary(text, b);
        lemma_boundary_order(text, a, b);
        let (head, selected, tail) = parts(text, range);
        let i = index_at(text, a);
        let j = index_at(text, b);
        if has_prefix(selected, marker) {
            assert(text.subrange(i, i + marker.len()) =~= selected.take(marker.len() as int));
            assert(matches_at(text, i, marker));
        }
        if has_suffix(head, marker) {
            let k = i - marker.len();
            assert(text.subrange(k, k + marker.len()) =~= head.skip(head.len() - marker.len()));
            assert(matches_at(text, k, marker));
        }
        let from = line_head(text, i);
        let to = line_tail(text, j);
        lemma_find_last(text, feed(), i);
        lemma_find_from(text, feed(), j);
        let line = text.subrange(from, to);
        assert forall|k: int| 0 <= k implies !matches_at(line, k, marker) by {
            if matches_at(line, k, marker) {
                assert(text.subrange(from + k, from + k + marker.len()) =~= line.subrange(
                    k,
                    k + marker.len(),
                ));
                assert(matches_at(text, from + k, marker));
            }
        }
        lemma_no_markers(line, marker, isolated);
    }
}

/// The headings of an outline come in the order in which they stand in the text.
pub proof fn law_outline_in_order(text: Seq<char>, n: int, i: int, j: int)
    requires
        0 <= n <= lines_of(text).len(),
        0 <= i < j < outline_upto(text, n).len(),
    ensures
        outline_upto(text, n)[i].2 < outline_upto(text, n)[j].2,
    decreases n,
{
    if n > 0 {
        let before = outline_upto(text, n - 1);
        if j < before.len() {
            law_outline_in_order(text, n - 1, i, j);
        } else {
            law_outline_points_at_headings(text, n - 1, i);
            let k = choose|k: int|
                0 <= k < n - 1 && #[trigger] line_start(text, k) == before[i].2 && heading_level_of(
                    lines_of(text)[k],
                ) == before[i].0;
            lemma_line_starts_grow(text, k, n - 1);
        }
    }
}

/// An address that was given a scheme is an address if it was one before, and stays as it is when it is
/// given a scheme again.
pub proof fn law_full_url(value: Seq<char>)
    ensures
        full_url(full_url(value)) == full_url(value),
        is_url(value) ==> is_url(full_url(value)),
{
    reveal_strlit("https://");
    reveal_strlit("www.");
    let t = trim_of(value);
    let f = full_url(value);
    lemma_trimmed_ends(value);
    if has_prefix(t, "www."@) {
        assert(t.take(4)[0] == 'w');
        assert(f == "https://"@ + t);
        assert(f[0] == 'h');
        assert(f.last() == t.last());
        assert(f.take(8) =~= "https://"@);
        assert(f.take(4)[0] == 'h');
    }
    lemma_trim_same(f);
}

} // verus!
