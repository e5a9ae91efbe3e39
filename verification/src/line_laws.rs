//! What the marks at the start of a line mean, and what new links, tables and addresses look like.

use std::ops::Range;
use vstd::prelude::*;

use crate::editing::{
    all_prefixed, blanks, block_of, block_prefix, clamp_of, clip, continuation_of, counts_at,
    full_url, group_heading, group_toggled, has_exact_prefix, heading_body_of, heading_cursor,
    heading_level_of, heading_marks, heading_prefix, heading_result, indent_of, is_escaped_at,
    is_lone_url, is_url, link_text, next_marker, pair_covers, selected_lines, shifted_line,
    starts_task, starts_with_box, table_heads, table_lines, table_row, toggle_result,
    toggled_cursor, toggled_line, visible_count, with_heading, with_lines, ActiveBlock,
};
use crate::input::{
    edit_place, inserted_after, link_start, selection_of, with_content, with_document_content,
    with_insert, PendingView,
};
use crate::lines::{lemma_line_at_offset, line_at, line_start, lines_of, unlines};
use crate::number::{all_digits, decimal, lemma_number_of_decimal};
use crate::text::{
    byte_len, digits, has_prefix, is_blank, is_digit, is_white, lemma_run, lemma_run_is, only, run,
    trim_of,
};

verus! {

// ---------------------------------------------------------------------------
// Headings
// ---------------------------------------------------------------------------

/// A row of number signs.
pub open spec fn signs(n: nat) -> Seq<char> {
    Seq::new(n, |k: int| '#')
}

proof fn lemma_signs(n: nat, rest: Seq<char>)
    requires
        rest.len() > 0 ==> rest[0] != '#',
    ensures
        run(signs(n) + rest, only('#')) == n,
{
    let line = signs(n) + rest;
    assert forall|k: int| 0 <= k < n implies only('#')(#[trigger] line[k]) by {}
    if rest.len() > 0 {
        assert(line[n as int] == rest[0]);
    }
    lemma_run_is(line, only('#'), n as int);
}

/// A line is a heading just where it starts with one to six number signs and a space, or is nothing
/// but the signs. Their number is its level, and what follows the space is its text.
pub proof fn law_heading_line(n: nat, rest: Seq<char>)
    requires
        rest.len() > 0 ==> rest[0] != '#',
    ensures
        ({
            let line = signs(n) + rest;
            &&& 1 <= n <= 6 && (rest.len() == 0 || rest[0] == ' ') ==> heading_level_of(line) == n
            &&& !(1 <= n <= 6 && (rest.len() == 0 || rest[0] == ' ')) ==> heading_level_of(line)
                == 0
            &&& 1 <= n <= 6 && rest.len() > 0 && rest[0] == ' ' ==> heading_body_of(line)
                == rest.skip(1)
            &&& n == 0 ==> heading_body_of(line) == line
        }),
{
    let line = signs(n) + rest;
    lemma_signs(n, rest);
    if n < line.len() && n <= 6 {
        assert(line[n as int] == rest[0]);
    }
    if n > 6 {
        assert(line[6] == '#');
    }
    if rest.len() > 0 {
        assert(line.skip(n as int + 1) =~= rest.skip(1));
    }
    assert(line.skip(0) =~= line);
}

/// A line that is given a level starts with that many number signs and a space, and keeps its text;
/// without a level it is the text alone.
pub proof fn law_line_with_level(line: Seq<char>, level: nat)
    ensures
        with_heading(line, 0) == heading_body_of(line),
        level > 0 ==> with_heading(line, level as int) == signs(level) + seq![' ']
            + heading_body_of(line),
{
    assert(with_heading(line, 0) =~= heading_body_of(line));
    if level > 0 {
        assert(heading_marks(level as int) =~= signs(level) + seq![' ']);
    }
}

/// All selected lines that are not blank get the level, and no other line is changed.
pub proof fn law_lines_with_level(lines: Seq<Seq<char>>, level: int, k: int)
    requires
        0 <= k < lines.len(),
    ensures
        group_heading(lines, level).len() == lines.len(),
        is_blank(lines[k]) ==> group_heading(lines, level)[k] == lines[k],
        !is_blank(lines[k]) ==> group_heading(lines, level)[k] == with_heading(lines[k], level),
{
}

// ---------------------------------------------------------------------------
// Items
// ---------------------------------------------------------------------------

/// The text is a bullet, as one of three characters.
pub open spec fn is_bullet(c: char) -> bool {
    c == '-' || c == '*' || c == '+'
}

/// The text starts with a box, ticked or not, as a task has it behind its bullet.
pub open spec fn starts_boxed(s: Seq<char>) -> bool {
    s.len() >= 4 && s[0] == '[' && (s[1] == ' ' || s[1] == 'x' || s[1] == 'X') && s[2] == ']'
        && s[3] == ' '
}

proof fn lemma_prefixes(s: Seq<char>)
    ensures
        has_prefix(s, "- "@) <==> s.len() >= 2 && s[0] == '-' && s[1] == ' ',
        has_prefix(s, "* "@) <==> s.len() >= 2 && s[0] == '*' && s[1] == ' ',
        has_prefix(s, "+ "@) <==> s.len() >= 2 && s[0] == '+' && s[1] == ' ',
        has_prefix(s, "> "@) <==> s.len() >= 2 && s[0] == '>' && s[1] == ' ',
        has_prefix(s, ". "@) <==> s.len() >= 2 && s[0] == '.' && s[1] == ' ',
        has_prefix(s, ") "@) <==> s.len() >= 2 && s[0] == ')' && s[1] == ' ',
        starts_task(s) <==> s.len() >= 6 && s[0] == '-' && s[1] == ' ' && starts_boxed(s.skip(2)),
{
    reveal_strlit("- ");
    reveal_strlit("* ");
    reveal_strlit("+ ");
    reveal_strlit("> ");
    reveal_strlit(". ");
    reveal_strlit(") ");
    reveal_strlit("- [ ] ");
    reveal_strlit("- [x] ");
    reveal_strlit("- [X] ");
    if s.len() >= 2 {
        let p = s.take(2);
        assert(p[0] == s[0] && p[1] == s[1]);
        if s[1] == ' ' {
            if s[0] == '-' {
                assert(p =~= "- "@);
            } else if s[0] == '*' {
                assert(p =~= "* "@);
            } else if s[0] == '+' {
                assert(p =~= "+ "@);
            } else if s[0] == '>' {
                assert(p =~= "> "@);
            } else if s[0] == '.' {
                assert(p =~= ". "@);
            } else if s[0] == ')' {
                assert(p =~= ") "@);
            }
        }
    }
    if s.len() >= 6 {
        let p = s.take(6);
        let r = s.skip(2);
        assert(p[0] == s[0] && p[1] == s[1] && p[2] == s[2] && p[3] == s[3] && p[4] == s[4] && p[5]
            == s[5]);
        assert(r[0] == s[2] && r[1] == s[3] && r[2] == s[4] && r[3] == s[5]);
        if s[0] == '-' && s[1] == ' ' && starts_boxed(r) {
            if s[3] == ' ' {
                assert(p =~= "- [ ] "@);
            } else if s[3] == 'x' {
                assert(p =~= "- [x] "@);
            } else {
                assert(p =~= "- [X] "@);
            }
        }
    }
}

proof fn lemma_not_heading(line: Seq<char>)
    requires
        line.len() > 0,
        line[0] != '#',
    ensures
        heading_level_of(line) == 0,
{
    lemma_run_is(line, only('#'), 0);
}

proof fn lemma_not_number(line: Seq<char>)
    requires
        line.len() > 0,
        !is_digit(line[0]),
    ensures
        run(line, digits()) == 0,
{
    lemma_run_is(line, digits(), 0);
}

/// What a line is, by what it starts with: a bullet and a space make an item, and with a box behind
/// them a task; an angle bracket and a space make a quote. These marks are the prefix of the line.
pub proof fn law_items_and_quotes(bullet: char, body: Seq<char>)
    requires
        is_bullet(bullet),
    ensures
        ({
            let item = seq![bullet, ' '] + body;
            let quote = seq!['>', ' '] + body;
            let task = bullet == '-' && starts_boxed(body);
            &&& task ==> block_of(item) is Task && block_prefix(item) == 6
            &&& !task ==> block_of(item) is Bullet && block_prefix(item) == 2
            &&& block_of(quote) is Quote && block_prefix(quote) == 2
        }),
{
    let item = seq![bullet, ' '] + body;
    let quote = seq!['>', ' '] + body;
    lemma_prefixes(item);
    lemma_prefixes(quote);
    lemma_not_heading(item);
    lemma_not_heading(quote);
    assert(item.skip(2) =~= body);
}

/// Digits with a full stop or a parenthesis and a space behind them make a numbered item, and are the
/// prefix of the line.
pub proof fn law_numbered_lines(number: Seq<char>, delimiter: char, body: Seq<char>)
    requires
        number.len() > 0,
        all_digits(number),
        delimiter == '.' || delimiter == ')',
    ensures
        block_of(number + seq![delimiter, ' '] + body) is Numbered,
        block_prefix(number + seq![delimiter, ' '] + body) == number.len() + 2,
{
    let line = number + seq![delimiter, ' '] + body;
    let n = number.len() as int;
    assert(is_digit(number[0]));
    assert(line[0] == number[0]);
    lemma_digits(number, seq![delimiter, ' '] + body);
    assert(line =~= number + (seq![delimiter, ' '] + body));
    lemma_not_heading(line);
    lemma_prefixes(line);
    lemma_prefixes(line.skip(n));
    assert(line.skip(n)[0] == delimiter && line.skip(n)[1] == ' ');
}

proof fn lemma_digits(number: Seq<char>, rest: Seq<char>)
    requires
        all_digits(number),
        rest.len() > 0 ==> !is_digit(rest[0]),
    ensures
        run(number + rest, digits()) == number.len(),
{
    let line = number + rest;
    assert forall|k: int| 0 <= k < number.len() implies digits()(#[trigger] line[k]) by {
        assert(is_digit(number[k]));
    }
    if rest.len() > 0 {
        assert(line[number.len() as int] == rest[0]);
    }
    lemma_run_is(line, digits(), number.len() as int);
}

/// A line that starts with no mark is a paragraph, and has no prefix.
pub proof fn law_plain_lines(line: Seq<char>)
    requires
        line.len() > 0 ==> line[0] != '#' && !is_bullet(line[0]) && line[0] != '>' && !is_digit(
            line[0],
        ),
    ensures
        block_of(line) is Paragraph,
        block_prefix(line) == 0,
{
    lemma_prefixes(line);
    lemma_run(line, digits());
    if line.len() > 0 {
        lemma_not_heading(line);
        lemma_not_number(line);
    } else {
        lemma_run(line, only('#'));
    }
}

/// A heading is a heading of its level.
pub proof fn law_heading_blocks(line: Seq<char>)
    ensures
        heading_level_of(line) > 0 ==> block_of(line) == ActiveBlock::Heading(
            heading_level_of(line) as u8,
        ),
        heading_level_of(line) == 0 ==> !(block_of(line) is Heading),
{
}

/// The text is made of spaces and tabs.
pub open spec fn is_indent(s: Seq<char>) -> bool {
    forall|k: int| 0 <= k < s.len() ==> s[k] == ' ' || s[k] == '\t'
}

proof fn lemma_indent(indent: Seq<char>, rest: Seq<char>)
    requires
        is_indent(indent),
        rest.len() > 0 ==> rest[0] != ' ' && rest[0] != '\t',
    ensures
        indent_of(indent + rest) == indent.len(),
        (indent + rest).skip(indent.len() as int) == rest,
{
    let line = indent + rest;
    assert forall|k: int| 0 <= k < indent.len() implies blanks()(#[trigger] line[k]) by {
        assert(line[k] == indent[k]);
    }
    if rest.len() > 0 {
        assert(line[indent.len() as int] == rest[0]);
    }
    lemma_run_is(line, blanks(), indent.len() as int);
    assert(line.skip(indent.len() as int) =~= rest);
}

/// How deep an item stands, how long its marker is, and what follows it: items with a bullet are
/// followed by items with the same one, tasks by tasks that are not ticked, and quotes by quotes.
pub proof fn law_what_follows_an_item(indent: Seq<char>, bullet: char, body: Seq<char>)
    requires
        is_indent(indent),
        is_bullet(bullet),
    ensures
        ({
            let n = indent.len() as int;
            let item = continuation_of(indent + (seq![bullet, ' '] + body));
            let quote = continuation_of(indent + (seq!['>', ' '] + body));
            let task = bullet == '-' && starts_boxed(body);
            &&& item is Some && quote is Some
            &&& item.unwrap().0 == n && quote.unwrap().0 == n
            &&& quote.unwrap().1 == 2 && next_marker(quote.unwrap().2) == seq!['>', ' ']
            &&& task ==> item.unwrap().1 == 6 && next_marker(item.unwrap().2) == seq![
                '-',
                ' ',
                '[',
                ' ',
                ']',
                ' ',
            ]
            &&& !task ==> item.unwrap().1 == 2 && next_marker(item.unwrap().2) == seq![bullet, ' ']
        }),
{
    let item = seq![bullet, ' '] + body;
    let quote = seq!['>', ' '] + body;
    lemma_indent(indent, item);
    lemma_indent(indent, quote);
    lemma_prefixes(item);
    lemma_prefixes(quote);
    assert(item.skip(2) =~= body);
    reveal_strlit("> ");
    reveal_strlit("- [ ] ");
    assert("> "@ =~= seq!['>', ' ']);
    assert("- [ ] "@ =~= seq!['-', ' ', '[', ' ', ']', ' ']);
}

/// A numbered item is followed by one with the next number and the same delimiter.
pub proof fn law_what_follows_a_number(indent: Seq<char>, n: u64, delimiter: char, body: Seq<char>)
    requires
        is_indent(indent),
        delimiter == '.' || delimiter == ')',
        n < u64::MAX,
    ensures
        ({
            let item = continuation_of(
                indent + (decimal(n as nat) + seq![delimiter, ' '] + body),
            );
            &&& item is Some
            &&& item.unwrap().0 == indent.len()
            &&& item.unwrap().1 == decimal(n as nat).len() + 2
            &&& next_marker(item.unwrap().2) == decimal((n + 1) as nat) + seq![delimiter, ' ']
        }),
{
    let number = decimal(n as nat);
    let rest = number + seq![delimiter, ' '] + body;
    lemma_number_of_decimal(n as nat);
    assert(is_digit(number[0]));
    assert(rest[0] == number[0]);
    lemma_indent(indent, rest);
    lemma_prefixes(rest);
    lemma_digits(number, seq![delimiter, ' '] + body);
    assert(rest =~= number + (seq![delimiter, ' '] + body));
    let d = number.len() as int;
    assert(rest[d] == delimiter && rest[d + 1] == ' ');
    assert(rest.take(d) =~= number);
}

/// Other lines are followed by nothing.
pub proof fn law_nothing_follows(indent: Seq<char>, rest: Seq<char>)
    requires
        is_indent(indent),
        rest.len() > 0 ==> rest[0] != ' ' && rest[0] != '\t' && !is_bullet(rest[0]) && rest[0] != '>'
            && !is_digit(rest[0]),
    ensures
        continuation_of(indent + rest) is None,
{
    lemma_indent(indent, rest);
    lemma_prefixes(rest);
    lemma_run(rest, digits());
    if rest.len() > 0 {
        lemma_not_number(rest);
    }
}

/// One step to the left takes two spaces, or the one space or tab that is there; one to the right puts
/// two spaces before the line. Blank lines stay.
pub proof fn law_shifts(line: Seq<char>)
    ensures
        is_blank(line) ==> shifted_line(line, true) == line && shifted_line(line, false) == line,
        !is_blank(line) ==> shifted_line(line, false) == seq![' ', ' '] + line,
        !is_blank(line) && line.len() >= 2 && line[0] == ' ' && line[1] == ' ' ==> shifted_line(
            line,
            true,
        ) == line.skip(2),
        !is_blank(line) && line[0] == '\t' ==> shifted_line(line, true) == line.skip(1),
        !is_blank(line) && line[0] == ' ' && line[1] != ' ' ==> shifted_line(line, true)
            == line.skip(1),
        !is_blank(line) && line[0] != ' ' && line[0] != '\t' ==> shifted_line(line, true) == line,
{
    reveal_strlit("  ");
    assert("  "@ =~= seq![' ', ' ']);
    if line.len() >= 2 {
        assert(line.take(2)[0] == line[0] && line.take(2)[1] == line[1]);
        if line[0] == ' ' && line[1] == ' ' {
            assert(line.take(2) =~= "  "@);
        }
    }
    assert(line.skip(0) =~= line);
}

// ---------------------------------------------------------------------------
// Several lines
// ---------------------------------------------------------------------------

/// Toggling a prefix on several lines takes it from all where all have it, and else gives it to those
/// that lack it. Blank lines stay, and no line is added or lost.
pub proof fn law_toggle_each_line(lines: Seq<Seq<char>>, prefix: Seq<char>, k: int)
    requires
        0 <= k < lines.len(),
    ensures
        ({
            let all = forall|j: int|
                0 <= j < lines.len() && !is_blank(#[trigger] lines[j]) ==> has_exact_prefix(
                    lines[j],
                    prefix,
                );
            let new = group_toggled(lines, prefix);
            &&& new.len() == lines.len()
            &&& is_blank(lines[k]) ==> new[k] == lines[k]
            &&& !is_blank(lines[k]) && all ==> new[k] == lines[k].skip(prefix.len() as int)
            &&& !is_blank(lines[k]) && !all && has_exact_prefix(lines[k], prefix) ==> new[k]
                == lines[k]
            &&& !is_blank(lines[k]) && !all && !has_exact_prefix(lines[k], prefix) ==> new[k]
                == toggled_line(lines[k], prefix)
        }),
{
    if !is_blank(lines[k]) && (forall|j: int|
        0 <= j < lines.len() && !is_blank(#[trigger] lines[j]) ==> has_exact_prefix(
            lines[j],
            prefix,
        )) {
        assert(all_prefixed(lines, prefix));
    }
}

/// A selection touches the line in which it starts, and every line up to the one in which it ends; the
/// line that starts at its very end is not one of them.
pub proof fn law_lines_of_selection(text: Seq<char>, range: Range<usize>)
    requires
        range.start <= range.end <= byte_len(text),
    ensures
        ({
            let (first, last) = selected_lines(text, range);
            let n = lines_of(text).len();
            &&& 0 <= first <= last < n
            &&& line_start(text, first) <= range.start
            &&& first + 1 < n ==> range.start < line_start(text, first + 1)
            &&& range.start < range.end ==> line_start(text, last) < range.end || last == first
            &&& last + 1 < n ==> range.end <= line_start(text, last + 1)
            &&& range.start == range.end ==> first == last
        }),
{
    let a = range.start as int;
    let b = range.end as int;
    lemma_line_at_offset(text, a);
    lemma_line_at_offset(text, b);
    if b > a {
        lemma_line_at_offset(text, b - 1);
        let ka = line_at(text, a);
        let kb = line_at(text, b);
        if ka > kb {
            if ka > kb + 1 {
                crate::lines::lemma_line_starts_grow(text, kb + 1, ka);
            }
        }
        let e = if line_start(text, kb) == b {
            b - 1
        } else {
            b
        };
        let ke = line_at(text, e);
        if ke < ka && ke + 1 < ka {
            crate::lines::lemma_line_starts_grow(text, ke + 1, ka);
        }
    }
}

/// A line has a prefix that stands at its start, but that a bullet before a box belongs to a task.
pub proof fn law_exact_prefix(line: Seq<char>, prefix: Seq<char>, rest: Seq<char>)
    ensures
        has_exact_prefix(prefix + rest, prefix) <==> !(prefix == seq!['-', ' '] && starts_boxed(
            rest,
        )),
        has_exact_prefix(line, prefix) ==> line.len() >= prefix.len() && line == prefix + line.skip(
            prefix.len() as int,
        ),
{
    reveal_strlit("- ");
    assert("- "@ =~= seq!['-', ' ']);
    let whole = prefix + rest;
    assert(whole.take(prefix.len() as int) =~= prefix);
    assert(whole.skip(prefix.len() as int) =~= rest);
    lemma_boxes(rest);
    if has_exact_prefix(line, prefix) {
        assert(line =~= prefix + line.skip(prefix.len() as int));
    }
}

proof fn lemma_boxes(s: Seq<char>)
    ensures
        starts_with_box(s) <==> starts_boxed(s),
{
    reveal_strlit("[ ] ");
    reveal_strlit("[x] ");
    reveal_strlit("[X] ");
    if s.len() >= 4 {
        let p = s.take(4);
        assert(p[0] == s[0] && p[1] == s[1] && p[2] == s[2] && p[3] == s[3]);
        if starts_boxed(s) {
            if s[1] == ' ' {
                assert(p =~= "[ ] "@);
            } else if s[1] == 'x' {
                assert(p =~= "[x] "@);
            } else {
                assert(p =~= "[X] "@);
            }
        }
    }
}

/// Where a mark takes the place of another one, the cursor keeps its place in the rest of the line; a
/// cursor in the mark goes to the start of the rest.
pub proof fn law_cursor_behind_marks(line: Seq<char>, prefix: Seq<char>, cursor: int)
    requires
        prefix != "# "@,
        !has_exact_prefix(line, prefix),
        0 <= cursor,
    ensures
        ({
            let before = byte_len(line.take(block_prefix(line)));
            toggled_cursor(line, prefix, cursor) == if cursor <= before {
                byte_len(prefix) as int
            } else {
                byte_len(prefix) + cursor - before
            }
        }),
{
}

/// Where a line gets another level, the cursor keeps its place in the text of the line, as far as that
/// reaches; a cursor in the marks goes to the start of the text.
pub proof fn law_cursor_in_heading(line: Seq<char>, cursor: int, level: int)
    ensures
        ({
            let before = byte_len(line.take(heading_prefix(line)));
            let marks = byte_len(heading_marks(level)) as int;
            let end = byte_len(with_heading(line, level)) as int;
            let moved = if cursor <= before {
                marks
            } else {
                marks + cursor - before
            };
            heading_cursor(line, cursor, level) == if moved <= end {
                moved
            } else {
                end
            }
        }),
{
}

/// The ends of a selection are brought into the text, and into order.
pub proof fn law_clip(text: Seq<char>, range: Range<usize>)
    ensures
        ({
            let (a, b) = clip(text, range);
            let n = byte_len(text);
            &&& 0 <= a <= b <= n
            &&& range.start <= n ==> a == range.start
            &&& range.start > n ==> a == n && b == n
            &&& range.start <= range.end <= n ==> b == range.end
            &&& range.start <= n < range.end ==> b == n
            &&& range.end < range.start ==> b == a
        }),
{
}

/// An edit of a selection that goes over several lines, or that gives them a level, puts the cursor
/// behind the last of them.
pub proof fn law_cursor_behind_lines(text: Seq<char>, range: Range<usize>, prefix: Seq<char>, level: int)
    ensures
        ({
            let (first, last) = selected_lines(text, range);
            let chosen = lines_of(text).subrange(first, last + 1);
            let toggled = group_toggled(chosen, prefix);
            let headed = group_heading(chosen, level);
            &&& first < last ==> toggle_result(text, range, prefix) == (
                with_lines(text, first, last, toggled),
                (line_start(text, first) + byte_len(unlines(toggled))) as int,
            )
            &&& heading_result(text, range, level) == (
                with_lines(text, first, last, headed),
                (line_start(text, first) + byte_len(unlines(headed))) as int,
            )
        }),
{
}

// ---------------------------------------------------------------------------
// Markers
// ---------------------------------------------------------------------------

/// A marker is escaped just where an odd number of backslashes stands before it.
pub proof fn law_escaped(a: Seq<char>, n: nat, rest: Seq<char>)
    requires
        a.len() > 0 ==> a.last() != '\\',
    ensures
        is_escaped_at(a + Seq::new(n, |k: int| '\\') + rest, (a.len() + n) as int) <==> n % 2 == 1,
{
    let line = a + Seq::new(n, |k: int| '\\') + rest;
    let t = line.take((a.len() + n) as int);
    assert forall|k: int| t.len() - n <= k < t.len() implies only('\\')(#[trigger] t[k]) by {}
    if a.len() > 0 {
        assert(t[t.len() - n - 1] == a.last());
    }
    crate::text::lemma_run_back_is(t, only('\\'), n as int);
}

/// Where a marker of one character is to stand alone, it does not count beside another one of its kind.
pub proof fn law_marker_alone(line: Seq<char>, c: char, i: int)
    requires
        0 <= i < line.len(),
        (c as u32) < 0x80,
    ensures
        counts_at(line, seq![c], true, i) ==> !is_escaped_at(line, i) && (i > 0 ==> line[i - 1] != c)
            && (i + 1 < line.len() ==> line[i + 1] != c),
        counts_at(line, seq![c], false, i) <==> !is_escaped_at(line, i),
{
    assert(byte_len(seq![c]) == 1) by {
        assert(seq![c].drop_last() =~= Seq::<char>::empty());
        reveal_with_fuel(byte_len, 2);
    }
}

/// Two markers cover what is between them, and themselves with all of it.
pub proof fn law_pair_of_markers(open: int, close: int, width: int, i: int, j: int)
    requires
        0 < width,
        open + width <= close,
        i <= j,
    ensures
        pair_covers(open, close, width, i, j) <==> (open + width <= i && j <= close) || (i == open && j
            == close + width),
{
}

// ---------------------------------------------------------------------------
// Snippets
// ---------------------------------------------------------------------------

/// A link has its text in brackets and its address in parentheses, both without white space around
/// them; where one is blank there is a substitute.
pub proof fn law_link_snippet(text: Seq<char>, url: Seq<char>)
    ensures
        link_text(text, url) == seq!['['] + (if is_blank(text) {
            "链接"@
        } else {
            trim_of(text)
        }) + seq![']', '('] + (if is_blank(url) {
            "https://example.com"@
        } else {
            trim_of(url)
        }) + seq![')'],
{
    reveal_strlit("[");
    reveal_strlit("](");
    reveal_strlit(")");
    assert("["@ =~= seq!['[']);
    assert("]("@ =~= seq![']', '(']);
    assert(")"@ =~= seq![')']);
}

/// A new code block has its language behind three backticks, an empty line, and three backticks.
pub proof fn law_code_block_snippet(language: Seq<char>)
    ensures
        crate::editing::code_block_text(language) == seq!['`', '`', '`'] + trim_of(language) + seq![
            '\n',
            '\n',
            '`',
            '`',
            '`',
        ],
{
    reveal_strlit("```");
    reveal_strlit("\n\n```");
    assert("```"@ =~= seq!['`', '`', '`']);
    assert("\n\n```"@ =~= seq!['\n', '\n', '`', '`', '`']);
}

/// A row of a table has a bar at either end and between each two cells.
pub proof fn law_row_of_table(cells: Seq<Seq<char>>, cell: Seq<char>)
    ensures
        table_row(seq![cell]) == seq!['|', ' '] + cell + seq![' ', '|'],
        cells.len() > 0 ==> table_row(cells.push(cell)) == table_row(cells) + seq![' '] + cell
            + seq![' ', '|'],
{
    reveal_strlit("| ");
    reveal_strlit(" | ");
    reveal_strlit(" |");
    assert("| "@ =~= seq!['|', ' ']);
    assert(" | "@ =~= seq![' ', '|', ' ']);
    assert(" |"@ =~= seq![' ', '|']);
    assert(cells.push(cell).drop_last() =~= cells);
    if cells.len() > 0 {
        assert(table_row(cells.push(cell)) =~= table_row(cells) + seq![' '] + cell + seq![' ', '|']);
    }
}

/// A new table has a line of headers, a line that divides, and as many rows as asked for, all of as
/// many cells. The headers are numbered from one on.
pub proof fn law_new_table(rows: int, cols: int, k: int, j: int)
    requires
        0 <= k < rows,
        0 <= j < cols,
    ensures
        ({
            let lines = table_lines(rows, cols);
            &&& lines.len() == rows + 2
            &&& lines[0] == table_row(table_heads(cols))
            &&& table_heads(cols).len() == cols
            &&& table_heads(cols)[j] == "列 "@ + decimal((j + 1) as nat)
            &&& exists|cells: Seq<Seq<char>>|
                lines[1] == #[trigger] table_row(cells) && cells.len() == cols && cells[j] == seq![
                    '-',
                    '-',
                    '-',
                ]
            &&& exists|cells: Seq<Seq<char>>|
                lines[k + 2] == #[trigger] table_row(cells) && cells.len() == cols && cells[j]
                    == "内容"@
        }),
{
    reveal_strlit("---");
    assert("---"@ =~= seq!['-', '-', '-']);
    let dashes = Seq::new(cols as nat, |i: int| "---"@);
    let cells = Seq::new(cols as nat, |i: int| "内容"@);
    assert(table_lines(rows, cols)[1] == table_row(dashes) && dashes[j] == "---"@);
    assert(table_lines(rows, cols)[k + 2] == table_row(cells) && cells[j] == "内容"@);
}

/// A number of rows or columns stays where it is between one and eight, and is brought there where it is
/// not.
pub proof fn law_clamp(n: int)
    ensures
        1 <= n <= 8 ==> clamp_of(n, 1, 8) == n,
        n < 1 ==> clamp_of(n, 1, 8) == 1,
        n > 8 ==> clamp_of(n, 1, 8) == 8,
{
}

/// A host without a scheme gets that of the web, and every other address stays, without the white
/// space around it.
pub proof fn law_complete_address(value: Seq<char>)
    ensures
        ({
            let t = trim_of(value);
            let bare = t.len() >= 4 && t[0] == 'w' && t[1] == 'w' && t[2] == 'w' && t[3] == '.';
            full_url(value) == if bare {
                "https://"@ + t
            } else {
                t
            }
        }),
{
    reveal_strlit("www.");
    let t = trim_of(value);
    if t.len() >= 4 {
        assert(t.take(4)[0] == t[0] && t.take(4)[1] == t[1] && t.take(4)[2] == t[2] && t.take(4)[3]
            == t[3]);
        if t[0] == 'w' && t[1] == 'w' && t[2] == 'w' && t[3] == '.' {
            assert(t.take(4) =~= "www."@);
        }
    }
}

/// An address on the clipboard stands alone: no space, tab or line feed is with it.
pub proof fn law_lone_address(value: Seq<char>)
    ensures
        is_lone_url(value) <==> is_url(value) && forall|k: int|
            0 <= k < value.len() ==> value[k] != '\n' && value[k] != ' ' && value[k] != '\t',
{
}

/// The length of a text counts every character that is not white space, and no other one.
pub proof fn law_visible_count(a: Seq<char>, b: Seq<char>, c: char)
    ensures
        visible_count(a + b) == visible_count(a) + visible_count(b),
        visible_count(seq![c]) == if is_white(c) {
            0nat
        } else {
            1nat
        },
        visible_count(Seq::empty()) == 0,
    decreases b.len(),
{
    reveal_with_fuel(visible_count, 2);
    assert(seq![c].drop_last() =~= Seq::<char>::empty());
    if b.len() == 0 {
        assert(a + b =~= a);
    } else {
        assert((a + b).drop_last() =~= a + b.drop_last());
        law_visible_count(a, b.drop_last(), c);
    }
}

// ---------------------------------------------------------------------------
// The text field
// ---------------------------------------------------------------------------

/// The dialog for a link starts with the selected text as its label, but for a selected address; and
/// with the address on the clipboard or, without one, the selected one.
pub proof fn law_link_dialog(selected: Seq<char>, clipboard: Seq<char>)
    ensures
        ({
            let (label, url) = link_start(selected, clipboard);
            &&& is_url(selected) ==> label.len() == 0
            &&& !is_url(selected) ==> label == selected
            &&& is_lone_url(clipboard) ==> url == full_url(clipboard)
            &&& !is_lone_url(clipboard) && is_url(selected) ==> url == full_url(selected)
            &&& !is_lone_url(clipboard) && !is_url(selected) ==> url.len() == 0
        }),
{
}

/// An edit that changes nothing does not happen; every other one puts the cursor where it asks for, as
/// far as the new text reaches.
pub proof fn law_edit_of_field(full: Seq<char>, next: Seq<char>, cursor: int)
    ensures
        full == next ==> edit_place(full, next, cursor) is None,
        full != next && cursor <= byte_len(next) ==> edit_place(full, next, cursor) == Some(cursor),
        full != next && cursor > byte_len(next) ==> edit_place(full, next, cursor) == Some(
            byte_len(next) as int,
        ),
{
}

/// A text that takes the place of all takes that of a text to insert too; what is inserted behind it
/// comes behind it; and only another document asks for the focus.
pub proof fn law_pending_text(p: PendingView, a: Seq<char>, b: Seq<char>, c: Seq<char>)
    ensures
        ({
            let set = with_content(with_insert(p, a), b);
            let document = with_document_content(p, b);
            let queued = with_insert(with_insert(set, a), c);
            &&& set.content == Some(b) && set.insert is None && set.refocus == p.refocus
            &&& document.content == Some(b) && document.insert is None && document.refocus
            &&& queued.content == Some(b) && queued.insert == Some(a + c)
        }),
{
}

/// Texts that wait to be inserted are inserted in the order in which they came.
pub proof fn law_inserts_in_order(a: Seq<char>, b: Seq<char>)
    ensures
        inserted_after(None, a) == a,
        inserted_after(Some(inserted_after(None, a)), b) == a + b,
{
}

/// The selected text is what stands between the two ends of the selection.
pub proof fn law_selected_text(head: Seq<char>, selected: Seq<char>, tail: Seq<char>, range: Range<usize>)
    requires
        selected.len() > 0,
        range.start == byte_len(head),
        range.end == byte_len(head) + byte_len(selected),
    ensures
        selection_of(head + selected + tail, range) == selected,
{
    let text = head + selected + tail;
    crate::text::lemma_byte_len_concat(head + selected, tail);
    crate::text::lemma_byte_len_concat(head, selected);
    crate::text::lemma_byte_len_bounds(selected);
    assert(text.take(head.len() as int) =~= head);
    assert(text.take((head + selected).len() as int) =~= head + selected);
    crate::text::lemma_index_at(text, head.len() as int, byte_len(head) as int);
    crate::text::lemma_index_at(
        text,
        (head + selected).len() as int,
        (byte_len(head) + byte_len(selected)) as int,
    );
    assert(text.subrange(head.len() as int, (head + selected).len() as int) =~= selected);
}

} // verus!
