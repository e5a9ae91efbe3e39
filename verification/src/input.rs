//! The text field of the editor: what waits to be put into it, and what an edit does to it.

use std::ops::Range;
use vstd::prelude::*;

use crate::editing::{
    full_url, is_clipboard_url, is_lone_url, is_url, lemma_starts_ascending, line_index,
    line_starts, looks_like_url, normalize_url,
};
use crate::lines::{lemma_line_at_offset, line_at, lines_of, split_lines, strs};
use crate::text::{
    byte_len, chars_of, index_at, is_boundary, lemma_boundary, lemma_boundary_order, locate,
    min_of, push_text, same_text, slice_of, str_len,
};
use crate::tree::opt_text;

verus! {

/// What waits to be put into a text field the next time it is drawn.
#[derive(Clone, Debug, PartialEq, Eq)]
pub struct PendingText {
    /// A text that takes the place of all.
    pub content: Option<String>,
    /// A text to insert at the cursor.
    pub insert: Option<String>,
    /// The field is to have the focus afterwards.
    pub refocus: bool,
}

/// The mathematical model of what waits.
pub ghost struct PendingView {
    pub content: Option<Seq<char>>,
    pub insert: Option<Seq<char>>,
    pub refocus: bool,
}

impl View for PendingText {
    type V = PendingView;

    open spec fn view(&self) -> PendingView {
        PendingView {
            content: opt_text(self.content),
            insert: opt_text(self.insert),
            refocus: self.refocus,
        }
    }
}

/// The text to insert, with another one behind it.
pub open spec fn inserted_after(insert: Option<Seq<char>>, text: Seq<char>) -> Seq<char> {
    match insert {
        Some(s) => s + text,
        None => text,
    }
}

/// What waits once a text takes the place of all.
pub open spec fn with_content(p: PendingView, content: Seq<char>) -> PendingView {
    PendingView { content: Some(content), insert: None, ..p }
}

/// What waits once another document takes the place of all.
pub open spec fn with_document_content(p: PendingView, content: Seq<char>) -> PendingView {
    PendingView { content: Some(content), insert: None, refocus: true }
}

/// What waits once another text is to be inserted.
pub open spec fn with_insert(p: PendingView, text: Seq<char>) -> PendingView {
    PendingView { insert: Some(inserted_after(p.insert, text)), ..p }
}

impl PendingText {
    /// Nothing waits.
    pub fn new() -> (r: PendingText)
        ensures
            r@ == (PendingView { content: None, insert: None, refocus: false }),
    {
        PendingText { content: None, insert: None, refocus: false }
    }

    /// A text takes the place of all, and of what was to be inserted.
    pub fn set_content(&mut self, content: &str)
        ensures
            final(self)@ == with_content(old(self)@, content@),
    {
        self.content = Some(content.to_owned());
        self.insert = None;
    }

    /// Another document takes the place of all, and the field gets the focus.
    pub fn set_document_content(&mut self, content: &str)
        ensures
            final(self)@ == with_document_content(old(self)@, content@),
    {
        self.refocus = true;
        self.set_content(content);
    }

    /// A text is to be inserted, behind what is to be inserted already.
    pub fn queue_insert(&mut self, text: &str)
        ensures
            final(self)@ == with_insert(old(self)@, text@),
    {
        let mut pending = match self.insert.take() {
            Some(s) => s,
            None => String::new(),
        };
        push_text(&mut pending, text);
        assert(pending@ =~= inserted_after(old(self)@.insert, text@));
        self.insert = Some(pending);
    }

    /// Takes the text that replaces all, and whether the field is to have the focus.
    pub fn take_content(&mut self) -> (r: Option<(String, bool)>)
        ensures
            match r {
                Some(taken) => old(self)@.content == Some(taken.0@) && taken.1
                    == old(self)@.refocus && final(self)@ == (PendingView {
                    content: None,
                    refocus: false,
                    ..old(self)@
                }),
                None => old(self)@.content is None && final(self)@ == old(self)@,
            },
    {
        match self.content.take() {
            Some(content) => {
                let refocus = self.refocus;
                self.refocus = false;
                Some((content, refocus))
            },
            None => None,
        }
    }

    /// Takes the text to insert.
    pub fn take_insert(&mut self) -> (r: Option<String>)
        ensures
            opt_text(r) == old(self)@.insert,
            final(self)@ == (PendingView { insert: None, ..old(self)@ }),
    {
        self.insert.take()
    }
}

/// Where the cursor goes when an edit puts a new text in place of a text.
pub open spec fn edit_place(full: Seq<char>, next: Seq<char>, cursor: int) -> Option<int> {
    if full == next {
        None
    } else {
        Some(min_of(cursor, byte_len(next) as int))
    }
}

/// Where the cursor goes when an edit puts a new text in place of a text; nothing happens where they
/// are the same.
pub fn document_edit(full: &str, next: &str, cursor: usize) -> (r: Option<usize>)
    ensures
        match r {
            Some(place) => edit_place(full@, next@, cursor as int) == Some(place as int),
            None => edit_place(full@, next@, cursor as int) is None,
        },
{
    if same_text(full, next) {
        return None;
    }
    let len: usize = str_len(next);
    if cursor <= len {
        Some(cursor)
    } else {
        Some(len)
    }
}

/// The line that the cursor is on.
pub fn current_line(text: &str, cursor: usize) -> (r: String)
    ensures
        r@ == lines_of(text@)[line_at(text@, cursor as int)],
{
    let starts = line_starts(text);
    let lines = split_lines(text);
    proof {
        lemma_starts_ascending(text@, starts@);
        lemma_line_at_offset(text@, cursor as int);
    }
    let k: usize = line_index(starts.as_slice(), cursor);
    assert(strs(lines@)[k as int] == lines@[k as int]@);
    lines[k].clone()
}

/// The selected text; none where nothing is selected or the selection is not within the text.
pub open spec fn selection_of(text: Seq<char>, range: Range<usize>) -> Seq<char> {
    if range.start < range.end && range.end <= byte_len(text) {
        text.subrange(index_at(text, range.start as int), index_at(text, range.end as int))
    } else {
        Seq::empty()
    }
}

/// The selected text.
pub fn selected_text(text: &str, range: Range<usize>) -> (r: String)
    requires
        range.start < range.end && range.end <= byte_len(text@) ==> is_boundary(
            text@,
            range.start as int,
        ) && is_boundary(text@, range.end as int),
    ensures
        r@ == selection_of(text@, range),
{
    if range.start < range.end && range.end <= str_len(text) {
        let cs = chars_of(text);
        match (locate(&cs, range.start), locate(&cs, range.end)) {
            (Some(i), Some(j)) => {
                proof {
                    lemma_boundary(text@, range.start as int);
                    lemma_boundary(text@, range.end as int);
                    lemma_boundary_order(text@, range.start as int, range.end as int);
                }
                return slice_of(&cs, i, j);
            },
            _ => {},
        }
    }
    let none = String::new();
    assert(none@ =~= Seq::empty());
    none
}

/// What the dialog for a link starts with: the label and the address. The address is that on the
/// clipboard, or the selected one; a selected address is no label.
pub open spec fn link_start(selected: Seq<char>, clipboard: Seq<char>) -> (Seq<char>, Seq<char>) {
    (
        if is_url(selected) {
            Seq::empty()
        } else {
            selected
        },
        if is_lone_url(clipboard) {
            full_url(clipboard)
        } else if is_url(selected) {
            full_url(selected)
        } else {
            Seq::empty()
        },
    )
}

/// What the dialog for a link starts with: the label and the address.
pub fn link_fields(selected: &str, clipboard: &str) -> (r: (String, String))
    ensures
        (r.0@, r.1@) == link_start(selected@, clipboard@),
{
    let none = String::new();
    assert(none@ =~= Seq::empty());
    let url = if is_clipboard_url(clipboard) {
        normalize_url(clipboard)
    } else if looks_like_url(selected) {
        normalize_url(selected)
    } else {
        none.clone()
    };
    let label = if looks_like_url(selected) {
        none
    } else {
        selected.to_owned()
    };
    (label, url)
}

} // verus!
