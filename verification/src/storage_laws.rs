//! What the lists of files and drafts, and the names and excerpts, promise.

use vstd::prelude::*;

use crate::lines::{fields, lemma_fields_concat, lemma_fields_single};
use crate::number::{decimal, lemma_number_of_decimal};
use crate::storage::{
    backup_place, clean_char, cleaned, crash_place, data_dir, directory_to_offer, draft_id,
    draft_named, draft_place, draft_title, drafts_place, excerpt, first_line, first_of,
    first_title, flagged, heading_title, index_place, is_clean, is_file_name, is_forbidden,
    is_known, is_last_name, is_listed, is_plain_path, is_titled, last_dot, legacy_draft,
    max_drafts, max_recent, media_address, media_candidate_name, media_dir_name, media_name,
    migrated, mode_label, name_among, name_parts, new_draft, next_mode, numbered_name, path_name,
    pending_place, prefs_place, recent_place, remembered, search_after, sidecar_name,
    single_draft_place, starts_as_drive, starts_as_share, still_there, temp_name, unified,
    with_all_moved, with_draft, with_media_moved, with_slashes, without_draft, without_returns,
    DocumentMeta, DraftView, Environment, MediaSearch, PathRoot, Platform, SaveDirectory,
    WorkspaceMode,
};
use crate::text::{
    first_chars, is_blank, is_digit, is_white, lemma_run, lemma_run_back, lemma_run_is,
    lemma_trim_blank, lemma_trimmed_ends, only, replace_all, run, trim_of, trim_start_of, white,
};
use crate::text_laws::{law_replace, starts_not_in};

verus! {

// ---------------------------------------------------------------------------
// Recent files
// ---------------------------------------------------------------------------

/// No item occurs twice.
pub open spec fn all_distinct<P>(items: Seq<P>) -> bool {
    forall|i: int, j: int| 0 <= i < j < items.len() ==> items[i] != items[j]
}

/// The item is one of those whose flag is set.
spec fn is_flagged<P>(items: Seq<P>, flags: Seq<bool>, item: P) -> bool {
    exists|j: int|
        0 <= j < items.len() && j < flags.len() && flags[j] && #[trigger] items[j] == item
}

proof fn lemma_flagged<P>(items: Seq<P>, flags: Seq<bool>)
    ensures
        flagged(items, flags).len() <= items.len(),
        forall|k: int|
            0 <= k < flagged(items, flags).len() ==> is_flagged(
                items,
                flags,
                #[trigger] flagged(items, flags)[k],
            ),
    decreases items.len(),
{
    if items.len() > 0 && flags.len() > 0 {
        let rest_items = items.skip(1);
        let rest_flags = flags.skip(1);
        let rest = flagged(rest_items, rest_flags);
        lemma_flagged(rest_items, rest_flags);
        let all = flagged(items, flags);
        assert forall|k: int| 0 <= k < all.len() implies is_flagged(items, flags, #[trigger] all[k]) by {
            let m = if flags[0] {
                k - 1
            } else {
                k
            };
            if flags[0] && k == 0 {
                assert(items[0] == all[k]);
            } else {
                assert(all[k] == rest[m]);
                assert(is_flagged(rest_items, rest_flags, rest[m]));
                let j = choose|j: int|
                    0 <= j < rest_items.len() && j < rest_flags.len() && rest_flags[j]
                        && #[trigger] rest_items[j] == rest[m];
                assert(items[j + 1] == rest_items[j]);
                assert(flags[j + 1] == rest_flags[j]);
            }
        }
    }
}

proof fn lemma_flagged_distinct<P>(items: Seq<P>, flags: Seq<bool>)
    requires
        all_distinct(items),
    ensures
        all_distinct(flagged(items, flags)),
    decreases items.len(),
{
    if items.len() > 0 && flags.len() > 0 {
        let rest_items = items.skip(1);
        let rest = flagged(rest_items, flags.skip(1));
        assert(all_distinct(rest_items)) by {
            assert forall|i: int, j: int| 0 <= i < j < rest_items.len() implies rest_items[i]
                != rest_items[j] by {
                assert(items[i + 1] != items[j + 1]);
            }
        }
        lemma_flagged_distinct(rest_items, flags.skip(1));
        lemma_flagged(rest_items, flags.skip(1));
        let all = flagged(items, flags);
        assert forall|i: int, j: int| 0 <= i < j < all.len() implies all[i] != all[j] by {
            if flags[0] {
                if i == 0 {
                    assert(is_flagged(rest_items, flags.skip(1), rest[j - 1]));
                    let m = choose|m: int|
                        0 <= m < rest_items.len() && #[trigger] rest_items[m] == rest[j - 1];
                    assert(items[0] != items[m + 1]);
                } else {
                    assert(rest[i - 1] != rest[j - 1]);
                }
            }
        }
    }
}

/// Files that are remembered are never more than the list holds, the latest comes first, and none is
/// listed twice.
pub proof fn law_recent_files<P>(paths: Seq<P>, differs: Seq<bool>, path: P)
    requires
        all_distinct(paths),
        differs.len() == paths.len(),
        forall|k: int| 0 <= k < paths.len() ==> differs[k] == (#[trigger] paths[k] != path),
    ensures
        1 <= remembered(paths, differs, path).len() <= max_recent(),
        remembered(paths, differs, path)[0] == path,
        all_distinct(remembered(paths, differs, path)),
{
    let kept = flagged(paths, differs);
    lemma_flagged(paths, differs);
    lemma_flagged_distinct(paths, differs);
    let all = seq![path] + kept;
    assert forall|i: int, j: int| 0 <= i < j < all.len() implies all[i] != all[j] by {
        if i == 0 {
            assert(is_flagged(paths, differs, kept[j - 1]));
            let m = choose|m: int|
                0 <= m < paths.len() && m < differs.len() && differs[m] && #[trigger] paths[m]
                    == kept[j - 1];
            assert(paths[m] != path);
        } else {
            assert(kept[i - 1] != kept[j - 1]);
        }
    }
}

proof fn lemma_flagged_filter<P>(items: Seq<P>, flags: Seq<bool>, p: spec_fn(P) -> bool)
    requires
        flags.len() == items.len(),
        forall|k: int| 0 <= k < items.len() ==> flags[k] == p(#[trigger] items[k]),
    ensures
        flagged(items, flags) == items.filter(p),
    decreases items.len(),
{
    reveal(Seq::filter);
    if items.len() > 0 {
        let rest = items.skip(1);
        assert forall|k: int| 0 <= k < rest.len() implies flags.skip(1)[k] == p(#[trigger] rest[k]) by {
            assert(flags[k + 1] == p(items[k + 1]));
        }
        lemma_flagged_filter(rest, flags.skip(1), p);
        let one = seq![items[0]];
        assert(one + rest =~= items);
        Seq::filter_distributes_over_add(one, rest, p);
        assert(one.drop_last().filter(p) =~= Seq::empty());
        assert(flags[0] == p(items[0]));
        if p(items[0]) {
            assert(one.filter(p) =~= one);
        } else {
            assert(one.filter(p) =~= Seq::empty());
            assert(Seq::<P>::empty() + rest.filter(p) =~= rest.filter(p));
        }
    } else {
        assert(flagged(items, flags) =~= items.filter(p));
    }
}

/// A file that is remembered comes before the other ones, which stay in order; and of the list that
/// is stored then, the files that still exist are read again, in order.
pub proof fn law_recent_files_reloaded<P>(
    paths: Seq<P>,
    differs: Seq<bool>,
    path: P,
    exists: Seq<bool>,
)
    requires
        differs.len() == paths.len(),
        forall|k: int| 0 <= k < paths.len() ==> differs[k] == (#[trigger] paths[k] != path),
    ensures
        remembered(paths, differs, path) == first_of(
            seq![path] + paths.filter(|p: P| p != path),
            max_recent(),
        ),
        still_there(remembered(paths, differs, path), exists) == flagged(
            remembered(paths, differs, path),
            exists,
        ),
{
    lemma_flagged_filter(paths, differs, |p: P| p != path);
    lemma_flagged(remembered(paths, differs, path), exists);
}

// ---------------------------------------------------------------------------
// Drafts
// ---------------------------------------------------------------------------

/// No two drafts have the same identifier.
pub open spec fn ids_distinct(drafts: Seq<DraftView>) -> bool {
    forall|i: int, j: int|
        0 <= i < j < drafts.len() ==> (#[trigger] drafts[i]).id != (#[trigger] drafts[j]).id
}

proof fn lemma_without(drafts: Seq<DraftView>, id: Seq<char>)
    ensures
        without_draft(drafts, id).len() <= drafts.len(),
        forall|k: int|
            0 <= k < without_draft(drafts, id).len() ==> (#[trigger] without_draft(
                drafts,
                id,
            )[k]).id != id,
        forall|k: int|
            0 <= k < without_draft(drafts, id).len() ==> exists|j: int|
                0 <= j < drafts.len() && #[trigger] drafts[j] == #[trigger] without_draft(
                    drafts,
                    id,
                )[k],
    decreases drafts.len(),
{
    if drafts.len() > 0 {
        let tail = drafts.skip(1);
        let rest = without_draft(tail, id);
        lemma_without(tail, id);
        let all = without_draft(drafts, id);
        let keep = drafts[0].id != id;
        assert forall|k: int| 0 <= k < all.len() implies (#[trigger] all[k]).id != id && exists|
            j: int,
        |
            0 <= j < drafts.len() && #[trigger] drafts[j] == all[k] by {
            if keep && k == 0 {
                assert(drafts[0] == all[k]);
            } else {
                let m = if keep {
                    k - 1
                } else {
                    k
                };
                assert(all[k] == rest[m]);
                let j = choose|j: int| 0 <= j < tail.len() && #[trigger] tail[j] == rest[m];
                assert(drafts[j + 1] == tail[j]);
            }
        }
    }
}

proof fn lemma_without_distinct(drafts: Seq<DraftView>, id: Seq<char>)
    requires
        ids_distinct(drafts),
    ensures
        ids_distinct(without_draft(drafts, id)),
    decreases drafts.len(),
{
    if drafts.len() > 0 {
        let tail = drafts.skip(1);
        assert(ids_distinct(tail)) by {
            assert forall|i: int, j: int| 0 <= i < j < tail.len() implies (#[trigger] tail[i]).id
                != (#[trigger] tail[j]).id by {
                assert(drafts[i + 1].id != drafts[j + 1].id);
            }
        }
        lemma_without_distinct(tail, id);
        lemma_without(tail, id);
        let rest = without_draft(tail, id);
        let all = without_draft(drafts, id);
        assert forall|i: int, j: int| 0 <= i < j < all.len() implies (#[trigger] all[i]).id != (
        #[trigger] all[j]).id by {
            if drafts[0].id != id {
                if i == 0 {
                    let m = choose|m: int| 0 <= m < tail.len() && #[trigger] tail[m] == rest[j - 1];
                    assert(drafts[0].id != drafts[m + 1].id);
                } else {
                    assert(rest[i - 1].id != rest[j - 1].id);
                }
            } else {
                assert(rest[i].id != rest[j].id);
            }
        }
    }
}

/// Saving a draft puts it first, keeps the list within its limit and without two drafts of one
/// identifier, and the draft is found under its identifier.
pub proof fn law_saved_draft(drafts: Seq<DraftView>, entry: DraftView)
    requires
        ids_distinct(drafts),
    ensures
        1 <= with_draft(drafts, entry).len() <= max_drafts(),
        with_draft(drafts, entry)[0] == entry,
        ids_distinct(with_draft(drafts, entry)),
        draft_named(with_draft(drafts, entry), entry.id) == Some(entry),
{
    let rest = without_draft(drafts, entry.id);
    lemma_without(drafts, entry.id);
    lemma_without_distinct(drafts, entry.id);
    let all = seq![entry] + rest;
    assert forall|i: int, j: int| 0 <= i < j < all.len() implies (#[trigger] all[i]).id != (
    #[trigger] all[j]).id by {
        if i == 0 {
            assert(rest[j - 1].id != entry.id);
        } else {
            assert(rest[i - 1].id != rest[j - 1].id);
        }
    }
}

proof fn lemma_not_named(drafts: Seq<DraftView>, id: Seq<char>)
    requires
        forall|k: int| 0 <= k < drafts.len() ==> (#[trigger] drafts[k]).id != id,
    ensures
        draft_named(drafts, id) is None,
    decreases drafts.len(),
{
    if drafts.len() > 0 {
        assert(drafts[0].id != id);
        assert forall|k: int| 0 <= k < drafts.skip(1).len() implies (
        #[trigger] drafts.skip(1)[k]).id != id by {
            assert(drafts[k + 1].id != id);
        }
        lemma_not_named(drafts.skip(1), id);
    }
}

/// A draft that was deleted is not found any more, and every other one is found as before.
pub proof fn law_deleted_draft(drafts: Seq<DraftView>, id: Seq<char>, other: Seq<char>)
    requires
        other != id,
    ensures
        draft_named(without_draft(drafts, id), id) is None,
        draft_named(without_draft(drafts, id), other) == draft_named(drafts, other),
    decreases drafts.len(),
{
    lemma_without(drafts, id);
    lemma_not_named(without_draft(drafts, id), id);
    if drafts.len() > 0 {
        law_deleted_draft(drafts.skip(1), id, other);
        if drafts[0].id != id {
            let all = without_draft(drafts, id);
            assert(all.skip(1) =~= without_draft(drafts.skip(1), id));
        }
    }
}

/// What is kept of the drafts: the list, and the files with their contents.
pub ghost struct DraftStore {
    pub listed: Seq<DraftView>,
    pub files: Map<(PathRoot, Seq<Seq<char>>), Seq<char>>,
}

/// The drafts once the list was read, which takes up the file of the single draft.
pub open spec fn opened(store: DraftStore, env: Environment, now: u64) -> DraftStore {
    let single = single_draft_place(env);
    if store.files.dom().contains(single) {
        DraftStore {
            listed: migrated(store.listed, Some(store.files[single]), now),
            files: if is_listed(store.listed, "legacy"@) {
                store.files
            } else {
                store.files.insert(draft_place(env, "legacy"@), store.files[single])
            },
        }
    } else {
        store
    }
}

/// The drafts once another one was saved: in a file of its own, in the list, and in the file of the
/// single draft.
pub open spec fn with_saved(
    store: DraftStore,
    env: Environment,
    entry: DraftView,
    content: Seq<char>,
    now: u64,
) -> DraftStore {
    let written = DraftStore {
        files: store.files.insert(draft_place(env, entry.id), content),
        ..store
    };
    let before = opened(written, env, now);
    DraftStore {
        listed: with_draft(before.listed, entry),
        files: before.files.insert(single_draft_place(env), content),
    }
}

/// The draft with this identifier and its content, if it is listed and has a file.
pub open spec fn draft_at(store: DraftStore, env: Environment, id: Seq<char>, now: u64) -> Option<
    (DraftView, Seq<char>),
> {
    let here = opened(store, env, now);
    match draft_named(here.listed, id) {
        Some(entry) => if here.files.dom().contains(draft_place(env, id)) {
            Some((entry, here.files[draft_place(env, id)]))
        } else {
            None
        },
        None => None,
    }
}

/// Drafts with different identifiers have different files, and these are neither the file of the
/// single draft nor the list.
pub proof fn law_draft_places_differ(env: Environment, id: Seq<char>, other: Seq<char>)
    ensures
        id != other ==> draft_place(env, id) != draft_place(env, other),
        draft_place(env, id) != single_draft_place(env),
        draft_place(env, id) != index_place(env),
        single_draft_place(env) != index_place(env),
{
    reveal_strlit(".md");
    reveal_strlit("index.json");
    let (_, a) = draft_place(env, id);
    let (_, b) = draft_place(env, other);
    let (_, c) = single_draft_place(env);
    let (_, d) = index_place(env);
    assert(a.len() == c.len() + 1);
    assert(d.len() == c.len() + 1);
    assert(a.last() == id + ".md"@);
    assert(b.last() == other + ".md"@);
    if a == b {
        assert((id + ".md"@).take((id + ".md"@).len() - 3) =~= id);
        assert((other + ".md"@).take((other + ".md"@).len() - 3) =~= other);
    }
    if a == d {
        let w = id + ".md"@;
        assert(w == "index.json"@);
        assert(w[w.len() - 1] == 'd');
        assert("index.json"@[9] == 'n');
    }
}

/// The identifier of a saved draft is not that of the draft from the file of the single draft.
proof fn lemma_not_legacy(made_at: u64, counter: u64)
    ensures
        draft_id(made_at, counter) != "legacy"@,
{
    reveal_strlit("legacy");
    lemma_number_of_decimal(made_at as nat);
    assert(is_digit(decimal(made_at as nat)[0]));
    assert(draft_id(made_at, counter)[0] == decimal(made_at as nat)[0]);
    assert("legacy"@[0] == 'l');
}

/// A draft that was saved is found under its identifier, with its content and under its title: the
/// one that it was given, or the document's own where that is blank.
pub proof fn law_saved_draft_comes_back(
    store: DraftStore,
    env: Environment,
    title: Seq<char>,
    content: Seq<char>,
    made_at: u64,
    counter: u64,
    updated_at: u64,
    saved_at: u64,
    now: u64,
)
    ensures
        ({
            let entry = new_draft(title, content, made_at, counter, updated_at);
            let saved = with_saved(store, env, entry, content, saved_at);
            &&& draft_at(saved, env, entry.id, now) == Some((entry, content))
            &&& is_blank(title) ==> entry.title == draft_title(content)
            &&& !is_blank(title) ==> entry.title == trim_of(title)
        }),
{
    let entry = new_draft(title, content, made_at, counter, updated_at);
    let saved = with_saved(store, env, entry, content, saved_at);
    lemma_not_legacy(made_at, counter);
    law_draft_places_differ(env, entry.id, "legacy"@);
    law_draft_places_differ(env, "legacy"@, entry.id);
    assert(saved.files[draft_place(env, entry.id)] == content);
    assert(saved.listed[0] == entry);
    assert(draft_named(saved.listed, entry.id) == Some(entry));
    let here = opened(saved, env, now);
    if is_listed(saved.listed, "legacy"@) {
        assert(here.listed == saved.listed);
    } else {
        assert(here.listed[0].id == "legacy"@);
        assert(here.listed.skip(1) =~= saved.listed);
        assert(draft_named(here.listed, entry.id) == draft_named(saved.listed, entry.id));
    }
    assert(here.files[draft_place(env, entry.id)] == content);
}

// ---------------------------------------------------------------------------
// Documents
// ---------------------------------------------------------------------------

/// What was stored about a document, in the files beside the documents of a directory.
pub open spec fn meta_at(files: Map<Seq<char>, DocumentMeta>, file_name: Seq<char>) -> Option<
    DocumentMeta,
> {
    if files.dom().contains(sidecar_name(file_name)) {
        Some(files[sidecar_name(file_name)])
    } else {
        None
    }
}

/// What was stored about a document is what is known of it afterwards, and what is known of every
/// other document stays as it was. Nothing is known of a document about which nothing was stored.
pub proof fn law_meta_comes_back(
    files: Map<Seq<char>, DocumentMeta>,
    file_name: Seq<char>,
    other: Seq<char>,
    stored: DocumentMeta,
    meta: DocumentMeta,
)
    ensures
        is_known(meta_at(files.insert(sidecar_name(file_name), stored), file_name), meta) <==> meta
            == stored,
        other != file_name ==> meta_at(files.insert(sidecar_name(file_name), stored), other)
            == meta_at(files, other),
        is_known(meta_at(files.remove(sidecar_name(file_name)), file_name), meta) <==> (
        meta.notion_page_id is None && meta.notion_url is None && meta.typecho_post_id is None),
{
    reveal_strlit(".olw-meta.json");
    let a = sidecar_name(file_name);
    let b = sidecar_name(other);
    if a == b {
        assert(a.take(a.len() - 14) =~= file_name);
        assert(b.take(b.len() - 14) =~= other);
    }
}

// ---------------------------------------------------------------------------
// Names
// ---------------------------------------------------------------------------

/// A cleaned name has nothing but characters for the name of a file, is as long as it was, and stays
/// as it is when it is cleaned again.
pub proof fn law_cleaned(s: Seq<char>)
    ensures
        is_clean(cleaned(s)),
        cleaned(s).len() == s.len(),
        cleaned(cleaned(s)) == cleaned(s),
{
    assert forall|k: int| 0 <= k < cleaned(s).len() implies !is_forbidden(
        #[trigger] cleaned(s)[k],
    ) by {
        assert(cleaned(s)[k] == clean_char(s[k]));
    }
    assert(cleaned(cleaned(s)) =~= cleaned(s));
}

proof fn lemma_name_among(parts: Seq<Seq<char>>, n: int)
    ensures
        name_among(parts, n) is Some ==> is_file_name(name_among(parts, n).unwrap()),
    decreases n,
{
    if n > 0 {
        lemma_name_among(parts, n - 1);
    }
}

/// The last name of a path can be the name of a file. A path that has the same parts on every system
/// has one last name, and one without a drive or a share has at most two.
pub proof fn law_last_name(path: Seq<char>, name: Option<Seq<char>>)
    requires
        is_last_name(path, name),
    ensures
        name is Some ==> is_file_name(name.unwrap()),
        is_plain_path(path) ==> name == path_name(path),
        !starts_as_drive(path) && !starts_as_share(path) ==> name == path_name(path) || name
            == path_name(unified(path)),
{
    let rest = path.skip(2);
    lemma_name_among(fields(path, '/'), fields(path, '/').len() as int);
    lemma_name_among(fields(unified(path), '/'), fields(unified(path), '/').len() as int);
    lemma_name_among(fields(unified(rest), '/'), fields(unified(rest), '/').len() as int);
    lemma_name_among(fields(path, '\\'), fields(path, '\\').len() as int);
    if is_plain_path(path) {
        assert(unified(path) =~= path);
    }
}

/// The name of a media file is never blank, has nothing but characters for the name of a file, and
/// stays as it is when it is made again.
pub proof fn law_media_name(name: Option<Seq<char>>)
    ensures
        !is_blank(media_name(name)),
        is_clean(media_name(name)),
        media_name(Some(media_name(name))) == media_name(name),
{
    reveal_strlit("image.png");
    assert(!is_blank("image.png"@)) by {
        assert("image.png"@[0] == 'i');
        assert(!is_white("image.png"@[0]));
    }
    assert(cleaned("image.png"@) =~= "image.png"@);
    if let Some(s) = name {
        law_cleaned(s);
    }
}

/// The name of a media file is a path of one part, whose last name it is.
pub proof fn law_media_name_as_path(name: Option<Seq<char>>)
    requires
        name is Some ==> is_file_name(name.unwrap()),
    ensures
        is_file_name(media_name(name)),
        is_plain_path(media_name(name)),
        path_name(media_name(name)) == Some(media_name(name)),
{
    let r = media_name(name);
    law_media_name(name);
    reveal_strlit("image.png");
    reveal_strlit(".");
    reveal_strlit("..");
    assert forall|k: int| 0 <= k < r.len() implies r[k] != '/' && r[k] != '\\' && r[k] != ':' by {
        assert(!is_forbidden(r[k]));
    }
    if name is Some && r != "image.png"@ {
        let s = name.unwrap();
        assert(r == cleaned(s));
        if r == "."@ {
            assert(r[0] == '.');
            assert(s =~= "."@);
        }
        if r == ".."@ {
            assert(r[0] == '.');
            assert(r[1] == '.');
            assert(s =~= ".."@);
        }
    }
    lemma_fields_single(r, '/');
}

proof fn lemma_between(a: Seq<char>, x: Seq<char>, y: Seq<char>, b: Seq<char>)
    requires
        a + x + b == a + y + b,
    ensures
        x == y,
{
    let u = a + x + b;
    let v = a + y + b;
    assert(u.len() == v.len());
    assert(x.len() == y.len());
    assert(u.subrange(a.len() as int, (a.len() + x.len()) as int) =~= x);
    assert(v.subrange(a.len() as int, (a.len() + y.len()) as int) =~= y);
}

proof fn lemma_decimals_differ(m: u64, n: u64)
    requires
        m != n,
    ensures
        decimal(m as nat) != decimal(n as nat),
{
    lemma_number_of_decimal(m as nat);
    lemma_number_of_decimal(n as nat);
}

/// No two of the numbered names of a media file are the same.
pub proof fn law_numbered_names_differ(name: Seq<char>, m: u64, n: u64)
    requires
        m != n,
    ensures
        numbered_name(name, m) != numbered_name(name, n),
{
    lemma_decimals_differ(m, n);
    let (stem, extension) = name_parts(name);
    let head = stem + "-"@;
    let tail = "."@ + match extension {
        Some(s) => s,
        None => "png"@,
    };
    assert(numbered_name(name, m) =~= head + decimal(m as nat) + tail);
    assert(numbered_name(name, n) =~= head + decimal(n as nat) + tail);
    if numbered_name(name, m) == numbered_name(name, n) {
        lemma_between(head, decimal(m as nat), decimal(n as nat), tail);
    }
}

proof fn lemma_last_dot(name: Seq<char>, to: int)
    ensures
        last_dot(name, to) is Some ==> 0 < last_dot(name, to).unwrap() < to,
    decreases to,
{
    if to > 1 {
        lemma_last_dot(name, to - 1);
    }
}

/// A name is tried once: no two attempts to find a free name for a media file try the same name.
pub proof fn law_candidates_differ(name: Seq<char>, m: u64, n: u64)
    requires
        1 <= m < n,
    ensures
        media_candidate_name(name, m) != media_candidate_name(name, n),
{
    if m > 1 {
        law_numbered_names_differ(name, m, n);
    } else {
        reveal_strlit("-");
        reveal_strlit(".");
        reveal_strlit("png");
        lemma_last_dot(name, name.len() as int);
        assert(numbered_name(name, n).len() > name.len());
    }
}

/// Drafts that were made with different numbers at the same time have different identifiers.
pub proof fn law_draft_ids_differ(made_at: u64, m: u64, n: u64)
    requires
        m != n,
    ensures
        draft_id(made_at, m) != draft_id(made_at, n),
{
    lemma_decimals_differ(m, n);
    let head = decimal(made_at as nat) + "-"@;
    let none = Seq::<char>::empty();
    assert(draft_id(made_at, m) =~= head + decimal(m as nat) + none);
    assert(draft_id(made_at, n) =~= head + decimal(n as nat) + none);
    if draft_id(made_at, m) == draft_id(made_at, n) {
        lemma_between(head, decimal(m as nat), decimal(n as nat), none);
    }
}

// ---------------------------------------------------------------------------
// Excerpts and titles
// ---------------------------------------------------------------------------

proof fn lemma_replaced_feeds(s: Seq<char>)
    ensures
        replace_all(s, "\n"@, " "@).len() == s.len(),
        forall|k: int|
            0 <= k < s.len() ==> (#[trigger] replace_all(s, "\n"@, " "@)[k]) == if s[k] == '\n' {
                ' '
            } else {
                s[k]
            },
    decreases s.len(),
{
    reveal_strlit("\n");
    reveal_strlit(" ");
    if s.len() > 0 {
        let t = s.skip(1);
        lemma_replaced_feeds(t);
        let w = replace_all(s, "\n"@, " "@);
        assert(s.take(1)[0] == s[0]);
        if s[0] == '\n' {
            assert(s.take(1) =~= "\n"@);
        }
        assert forall|k: int| 0 <= k < s.len() implies (#[trigger] w[k]) == if s[k] == '\n' {
            ' '
        } else {
            s[k]
        } by {
            if k > 0 {
                assert(w[k] == replace_all(t, "\n"@, " "@)[k - 1]);
                assert(t[k - 1] == s[k]);
            }
        }
    }
}

proof fn lemma_returns_gone(s: Seq<char>)
    ensures
        forall|k: int| 0 <= k < without_returns(s).len() ==> without_returns(s)[k] != '\r',
    decreases s.len(),
{
    if s.len() > 0 {
        let before = without_returns(s.drop_last());
        lemma_returns_gone(s.drop_last());
        assert forall|k: int| 0 <= k < without_returns(s).len() implies without_returns(s)[k]
            != '\r' by {
            if k < before.len() {
                assert(without_returns(s)[k] == before[k]);
            }
        }
    }
}

/// An excerpt is one line of at most eighty characters, without white space at its ends.
pub proof fn law_excerpt(content: Seq<char>)
    ensures
        excerpt(content).len() <= 80,
        forall|k: int|
            0 <= k < excerpt(content).len() ==> excerpt(content)[k] != '\n' && excerpt(content)[k]
                != '\r',
        excerpt(content).len() > 0 ==> !is_white(excerpt(content)[0]) && !is_white(
            excerpt(content).last(),
        ),
{
    let start = first_chars(without_returns(content), 80);
    let line = replace_all(start, "\n"@, " "@);
    lemma_returns_gone(content);
    lemma_replaced_feeds(start);
    lemma_trimmed_ends(line);
    lemma_run(line, white());
    let t = trim_start_of(line);
    lemma_run_back(t, white());
    let r = excerpt(content);
    assert forall|k: int| 0 <= k < r.len() implies r[k] != '\n' && r[k] != '\r' by {
        let n = run(line, white()) as int;
        assert(r[k] == t[k]);
        assert(t[k] == line[n + k]);
        assert(start[n + k] != '\r');
    }
}

proof fn lemma_first_title(lines: Seq<Seq<char>>)
    ensures
        first_title(lines) matches Some(t) ==> t.len() > 0,
        first_line(lines) matches Some(t) ==> t.len() > 0,
    decreases lines.len(),
{
    if lines.len() > 0 {
        lemma_first_title(lines.skip(1));
    }
}

/// The title of a draft is never empty, and never longer than one hundred characters.
pub proof fn law_draft_title(content: Seq<char>)
    ensures
        1 <= draft_title(content).len() <= 100,
{
    reveal_strlit("未命名文章");
    lemma_first_title(crate::lines::lines_of(content));
}

/// What becomes of the characters of an excerpt: line feeds become spaces, and the others stay.
pub open spec fn on_one_line(s: Seq<char>) -> Seq<char> {
    s.map_values(
        |c: char|
            if c == '\n' {
                ' '
            } else {
                c
            },
    )
}

proof fn lemma_without_returns(s: Seq<char>)
    requires
        forall|k: int| 0 <= k < s.len() ==> s[k] != '\r',
    ensures
        without_returns(s) == s,
    decreases s.len(),
{
    if s.len() == 0 {
        assert(without_returns(s) =~= s);
    } else {
        lemma_without_returns(s.drop_last());
        assert(s.last() == s[s.len() - 1]);
        assert(s.drop_last().push(s.last()) =~= s);
    }
}

proof fn lemma_feeds_to_spaces(s: Seq<char>)
    ensures
        replace_all(s, "\n"@, " "@) == on_one_line(s),
    decreases s.len(),
{
    reveal_strlit("\n");
    reveal_strlit(" ");
    assert("\n"@ =~= seq!['\n']);
    assert(" "@ =~= seq![' ']);
    if s.len() > 0 {
        let rest = s.skip(1);
        lemma_feeds_to_spaces(rest);
        assert(s.take(1)[0] == s[0]);
        if s[0] == '\n' {
            assert(s.take(1) =~= "\n"@);
            assert(seq![' '] + on_one_line(rest) =~= on_one_line(s));
        } else {
            assert(seq![s[0]] + on_one_line(rest) =~= on_one_line(s));
        }
    } else {
        assert(replace_all(s, "\n"@, " "@) =~= on_one_line(s));
    }
}

/// An excerpt has the first eighty characters of a text, on one line and without white space around
/// them. Carriage returns play no part.
pub proof fn law_excerpt_of_text(text: Seq<char>, other: Seq<char>)
    requires
        forall|k: int| 0 <= k < text.len() ==> text[k] != '\r',
    ensures
        text.len() <= 80 ==> excerpt(text) == trim_of(on_one_line(text)),
        text.len() > 80 ==> excerpt(text) == trim_of(on_one_line(text.take(80))),
        excerpt(other.push('\r')) == excerpt(other),
{
    lemma_without_returns(text);
    assert(other.push('\r').drop_last() =~= other);
    if text.len() <= 80 {
        assert(text.take(text.len() as int) =~= text);
        lemma_feeds_to_spaces(text);
    } else {
        lemma_feeds_to_spaces(text.take(80));
    }
}

/// A line that is a heading, whatever white space is around it, gives what follows its number signs as
/// a title; where nothing follows them it gives none.
pub proof fn law_title_of_line(line: Seq<char>, n: nat, rest: Seq<char>)
    requires
        n > 0,
        rest.len() > 0 ==> rest[0] != '#',
        trim_of(line) == Seq::new(n, |k: int| '#') + rest,
    ensures
        heading_title(line) == trim_of(rest),
        is_titled(line) <==> !is_blank(rest),
{
    let t = trim_of(line);
    assert forall|k: int| 0 <= k < n implies only('#')(#[trigger] t[k]) by {}
    if rest.len() > 0 {
        assert(t[n as int] == rest[0]);
    }
    lemma_run_is(t, only('#'), n as int);
    assert(t.skip(n as int) =~= rest);
    assert(t[0] == '#');
    lemma_trim_blank(rest);
}

/// A line that does not start with a number sign, but for white space, gives no title as a heading.
pub proof fn law_line_without_title(line: Seq<char>)
    requires
        trim_of(line).len() > 0 ==> trim_of(line)[0] != '#',
    ensures
        !is_titled(line),
{
}

/// The first heading of a draft gives its title, whatever lines follow it.
pub proof fn law_draft_title_is_first_heading(
    content: Seq<char>,
    before: Seq<Seq<char>>,
    line: Seq<char>,
    behind: Seq<Seq<char>>,
)
    requires
        forall|k: int| 0 <= k < before.len() ==> !is_titled(#[trigger] before[k]),
        is_titled(line),
        crate::lines::lines_of(content) == before + seq![line] + behind,
    ensures
        draft_title(content) == first_chars(heading_title(line), 100),
{
    lemma_first_titled(before, line, behind);
}

proof fn lemma_first_titled(before: Seq<Seq<char>>, line: Seq<char>, behind: Seq<Seq<char>>)
    requires
        forall|k: int| 0 <= k < before.len() ==> !is_titled(#[trigger] before[k]),
        is_titled(line),
    ensures
        first_title(before + seq![line] + behind) == Some(heading_title(line)),
    decreases before.len(),
{
    let all = before + seq![line] + behind;
    if before.len() == 0 {
        assert(all[0] == line);
    } else {
        assert(!is_titled(before[0]));
        let short = before.skip(1);
        assert forall|k: int| 0 <= k < short.len() implies !is_titled(#[trigger] short[k]) by {
            assert(!is_titled(before[k + 1]));
        }
        lemma_first_titled(short, line, behind);
        assert(all[0] == before[0]);
        assert(all.skip(1) =~= short + seq![line] + behind);
    }
}

proof fn lemma_no_title(lines: Seq<Seq<char>>)
    requires
        forall|k: int| 0 <= k < lines.len() ==> !is_titled(#[trigger] lines[k]),
    ensures
        first_title(lines) is None,
    decreases lines.len(),
{
    if lines.len() > 0 {
        assert(!is_titled(lines[0]));
        let short = lines.skip(1);
        assert forall|k: int| 0 <= k < short.len() implies !is_titled(#[trigger] short[k]) by {
            assert(!is_titled(lines[k + 1]));
        }
        lemma_no_title(short);
    }
}

proof fn lemma_first_full_line(before: Seq<Seq<char>>, line: Seq<char>, behind: Seq<Seq<char>>)
    requires
        forall|k: int| 0 <= k < before.len() ==> is_blank(#[trigger] before[k]),
        !is_blank(line),
    ensures
        first_line(before + seq![line] + behind) == Some(trim_of(line)),
        first_line(before) is None,
    decreases before.len(),
{
    let all = before + seq![line] + behind;
    lemma_trim_blank(line);
    if before.len() == 0 {
        assert(all[0] == line);
    } else {
        assert(is_blank(before[0]));
        lemma_trim_blank(before[0]);
        let short = before.skip(1);
        assert forall|k: int| 0 <= k < short.len() implies is_blank(#[trigger] short[k]) by {
            assert(is_blank(before[k + 1]));
        }
        lemma_first_full_line(short, line, behind);
        assert(all[0] == before[0]);
        assert(all.skip(1) =~= short + seq![line] + behind);
    }
}

/// Without a heading, the first line of a draft that is not blank gives its title; without such a line
/// it has the title of an article without one.
pub proof fn law_draft_title_without_heading(
    content: Seq<char>,
    before: Seq<Seq<char>>,
    line: Seq<char>,
    behind: Seq<Seq<char>>,
)
    requires
        forall|k: int|
            0 <= k < crate::lines::lines_of(content).len() ==> !is_titled(
                #[trigger] crate::lines::lines_of(content)[k],
            ),
        forall|k: int| 0 <= k < before.len() ==> is_blank(#[trigger] before[k]),
        !is_blank(line),
    ensures
        crate::lines::lines_of(content) == before + seq![line] + behind ==> draft_title(content)
            == first_chars(trim_of(line), 100),
        crate::lines::lines_of(content) == before ==> draft_title(content) == "未命名文章"@,
{
    lemma_no_title(crate::lines::lines_of(content));
    lemma_first_full_line(before, line, behind);
}

/// A new draft has the identifier of its time and number, its own time, and the excerpt of its text;
/// the draft that was kept alone has a name of its own.
pub proof fn law_new_draft(
    title: Seq<char>,
    content: Seq<char>,
    made_at: u64,
    counter: u64,
    updated_at: u64,
)
    ensures
        ({
            let draft = new_draft(title, content, made_at, counter, updated_at);
            let legacy = legacy_draft(content, updated_at);
            &&& draft.id == decimal(made_at as nat) + seq!['-'] + decimal(counter as nat)
            &&& draft.updated_at == updated_at
            &&& draft.excerpt == excerpt(content)
            &&& legacy.id == "legacy"@
            &&& legacy.title == draft_title(content)
            &&& legacy.updated_at == updated_at
            &&& legacy.excerpt == excerpt(content)
        }),
{
    reveal_strlit("-");
    assert("-"@ =~= seq!['-']);
}

/// The draft that was kept alone is listed once, before the others, which stay as they are.
pub proof fn law_kept_draft_is_listed_once(drafts: Seq<DraftView>, content: Seq<char>, now: u64)
    ensures
        ({
            let listed = migrated(drafts, Some(content), now);
            &&& migrated(drafts, None, now) == drafts
            &&& draft_named(drafts, "legacy"@) is Some ==> listed == drafts
            &&& draft_named(drafts, "legacy"@) is None ==> listed.len() == drafts.len() + 1
                && listed[0] == legacy_draft(content, now) && listed.skip(1) == drafts
            &&& migrated(listed, Some(content), now) == listed
        }),
{
    let listed = migrated(drafts, Some(content), now);
    if draft_named(drafts, "legacy"@) is None {
        assert(listed.skip(1) =~= drafts);
    }
}

/// The other drafts keep their order when one is saved or deleted.
pub proof fn law_other_drafts_in_order(a: Seq<DraftView>, draft: DraftView, b: Seq<DraftView>, id: Seq<char>)
    ensures
        without_draft(a + b, id) == without_draft(a, id) + without_draft(b, id),
        without_draft(seq![draft], id) == if draft.id == id {
            Seq::empty()
        } else {
            seq![draft]
        },
    decreases a.len(),
{
    let one = seq![draft];
    assert(one.skip(1) =~= Seq::<DraftView>::empty());
    reveal_with_fuel(without_draft, 2);
    assert(seq![draft] + Seq::empty() =~= seq![draft]);
    if a.len() == 0 {
        assert(a + b =~= b);
        assert(without_draft(a, id) + without_draft(b, id) =~= without_draft(b, id));
    } else {
        law_other_drafts_in_order(a.skip(1), draft, b, id);
        assert((a + b).skip(1) =~= a.skip(1) + b);
        assert((a + b)[0] == a[0]);
        let rest = without_draft(a.skip(1), id);
        assert(seq![a[0]] + (rest + without_draft(b, id)) =~= seq![a[0]] + rest + without_draft(
            b,
            id,
        ));
    }
}

/// Twelve files and forty drafts are remembered.
pub proof fn law_limits()
    ensures
        max_recent() == 12,
        max_drafts() == 40,
{
}

// ---------------------------------------------------------------------------
// Places
// ---------------------------------------------------------------------------

/// Where the data of the application is, on each system.
pub proof fn law_places(env: Environment)
    ensures
        ({
            let name = "OpenLiveWriter"@;
            let home = if env.has_home {
                PathRoot::Home
            } else {
                PathRoot::TempDir
            };
            let other = if env.has_xdg_data_home {
                (PathRoot::XdgDataHome, seq![name])
            } else {
                (home, seq![".local"@, "share"@, name])
            };
            &&& env.platform == Platform::Windows && env.has_app_data ==> data_dir(env) == (
                PathRoot::AppData,
                seq![name],
            )
            &&& env.platform == Platform::Windows && !env.has_app_data ==> data_dir(env) == other
            &&& env.platform == Platform::MacOs && env.has_home ==> data_dir(env) == (
                PathRoot::Home,
                seq!["Library"@, "Application Support"@, name],
            )
            &&& env.platform == Platform::MacOs && !env.has_home ==> data_dir(env) == other
            &&& env.platform == Platform::Other ==> data_dir(env) == other
        }),
{
}

/// Everything that is kept has a place of its own in the directory of the application, under its own
/// name.
pub proof fn law_places_differ(env: Environment)
    ensures
        ({
            let names = seq![
                "autosave.md"@,
                "prefs.json"@,
                "recent.json"@,
                "crash.log"@,
                "pending-media"@,
                "drafts"@,
                "draft.md"@,
            ];
            let places = seq![
                backup_place(env),
                prefs_place(env),
                recent_place(env),
                crash_place(env),
                pending_place(env),
                drafts_place(env),
                single_draft_place(env),
            ];
            &&& forall|k: int|
                0 <= k < 7 ==> (#[trigger] places[k]).0 == data_dir(env).0 && places[k].1
                    == data_dir(env).1.push(names[k])
            &&& names.no_duplicates()
            &&& places.no_duplicates()
        }),
{
    reveal_strlit("autosave.md");
    reveal_strlit("prefs.json");
    reveal_strlit("recent.json");
    reveal_strlit("crash.log");
    reveal_strlit("pending-media");
    reveal_strlit("drafts");
    reveal_strlit("draft.md");
    assert("autosave.md"@[0] == 'a' && "prefs.json"@[0] == 'p' && "recent.json"@[0] == 'r'
        && "crash.log"@[0] == 'c' && "pending-media"@[0] == 'p' && "drafts"@[0] == 'd'
        && "draft.md"@[0] == 'd');
    assert("prefs.json"@[1] == 'r' && "pending-media"@[1] == 'e' && "drafts"@[5] == 's'
        && "draft.md"@[5] == '.');
    let names = seq![
        "autosave.md"@,
        "prefs.json"@,
        "recent.json"@,
        "crash.log"@,
        "pending-media"@,
        "drafts"@,
        "draft.md"@,
    ];
    let dir = data_dir(env).1;
    assert forall|i: int, j: int| 0 <= i < 7 && 0 <= j < 7 && i != j implies dir.push(
        #[trigger] names[i],
    ) != dir.push(#[trigger] names[j]) by {
        assert(dir.push(names[i]).last() == names[i]);
        assert(dir.push(names[j]).last() == names[j]);
    }
    assert(names[0] == "autosave.md"@ && names[1] == "prefs.json"@ && names[2] == "recent.json"@
        && names[3] == "crash.log"@ && names[4] == "pending-media"@ && names[5] == "drafts"@
        && names[6] == "draft.md"@);
}

/// The drafts have a directory of their own, with a file for each by its identifier and one for the
/// list; what is known of a document has a file beside it.
pub proof fn law_places_of_drafts(env: Environment, id: Seq<char>, name: Seq<char>)
    ensures
        draft_place(env, id) == (drafts_place(env).0, drafts_place(env).1.push(id + ".md"@)),
        index_place(env) == (drafts_place(env).0, drafts_place(env).1.push("index.json"@)),
        sidecar_name(name) == name + ".olw-meta.json"@,
{
}

/// The media of a document have a directory by its name. A temporary file has a name of its own: it is
/// not that of the file, and no two numbers give the same one.
pub proof fn law_names_beside_document(name: Seq<char>, process: u32, m: u64, n: u64)
    requires
        m != n,
    ensures
        media_dir_name(Some(name)) == name + ".assets"@,
        media_dir_name(None) == "article"@ + ".assets"@,
        temp_name(name, process, m).len() > name.len(),
        temp_name(name, process, m)[0] == '.',
        temp_name(name, process, m) != temp_name(name, process, n),
{
    reveal_strlit(".");
    reveal_strlit(".tmp");
    lemma_decimals_differ(m, n);
    let head = "."@ + name + "."@ + decimal(process as nat) + "."@;
    assert(temp_name(name, process, m) =~= head + decimal(m as nat) + ".tmp"@);
    assert(temp_name(name, process, n) =~= head + decimal(n as nat) + ".tmp"@);
    if temp_name(name, process, m) == temp_name(name, process, n) {
        lemma_between(head, decimal(m as nat), decimal(n as nat), ".tmp"@);
    }
}

/// The directory that was used last comes first, and then the documents of the user, as far as they
/// exist on the system.
pub proof fn law_directory_to_offer(platform: Platform, last: bool, profile: bool, home: bool)
    ensures
        ({
            let offered = directory_to_offer(platform, last, profile, home);
            &&& offered == SaveDirectory::Last <==> last
            &&& offered == SaveDirectory::ProfileDocuments <==> !last && platform
                == Platform::Windows && profile
            &&& offered == SaveDirectory::HomeDocuments <==> !last && platform == Platform::MacOs
                && home
        }),
{
}

/// The modes follow one another from editing over both to the preview, and each has its name.
pub proof fn law_modes()
    ensures
        next_mode(WorkspaceMode::Edit) == WorkspaceMode::Split,
        next_mode(WorkspaceMode::Split) == WorkspaceMode::Preview,
        next_mode(WorkspaceMode::Preview) == WorkspaceMode::Edit,
        mode_label(WorkspaceMode::Edit) == "编辑"@,
        mode_label(WorkspaceMode::Split) == "双栏"@,
        mode_label(WorkspaceMode::Preview) == "预览"@,
{
}

// ---------------------------------------------------------------------------
// Media
// ---------------------------------------------------------------------------

/// The last name of a path is what follows its last slash; slashes and single full stops at the end
/// play no part, and there is none behind two full stops.
pub proof fn law_last_name_of_path(path: Seq<char>, name: Seq<char>)
    requires
        forall|k: int| 0 <= k < name.len() ==> name[k] != '/',
    ensures
        is_file_name(name) ==> path_name(path + seq!['/'] + name) == Some(name),
        is_file_name(name) ==> path_name(name) == Some(name),
        path_name(path + seq!['/'] + Seq::empty()) == path_name(path),
        path_name(path + seq!['/'] + seq!['.']) == path_name(path),
        path_name(path + seq!['/'] + seq!['.', '.']) is None,
        path_name(Seq::empty()) is None,
{
    reveal_strlit(".");
    reveal_strlit("..");
    assert("."@ =~= seq!['.']);
    assert(".."@ =~= seq!['.', '.']);
    let none = Seq::<char>::empty();
    lemma_fields_single(name, '/');
    lemma_fields_single(none, '/');
    lemma_fields_single(seq!['.'], '/');
    lemma_fields_single(seq!['.', '.'], '/');
    lemma_fields_concat(path, name, '/');
    lemma_fields_concat(path, none, '/');
    lemma_fields_concat(path, seq!['.'], '/');
    lemma_fields_concat(path, seq!['.', '.'], '/');
    let parts = fields(path, '/');
    let n = parts.len() as int;
    lemma_name_among_first(parts, seq![none], n);
    lemma_name_among_first(parts, seq![seq!['.']], n);
    assert(name_among(seq![none], 1) == name_among(seq![none], 0));
    assert((parts + seq![none])[n] == none);
    assert((parts + seq![seq!['.']])[n] == seq!['.']);
    assert((parts + seq![seq!['.', '.']])[n] == seq!['.', '.']);
    assert((parts + seq![name])[n] == name);
}

proof fn lemma_name_among_first(a: Seq<Seq<char>>, b: Seq<Seq<char>>, n: int)
    requires
        0 <= n <= a.len(),
    ensures
        name_among(a + b, n) == name_among(a, n),
    decreases n,
{
    if n > 0 {
        assert((a + b)[n - 1] == a[n - 1]);
        lemma_name_among_first(a, b, n - 1);
    }
}

/// A media file keeps its name but for the characters that have no place in it, and gets one where
/// nothing but white space is left or it had none.
pub proof fn law_name_of_media(name: Seq<char>)
    ensures
        !is_blank(cleaned(name)) ==> media_name(Some(name)) == cleaned(name),
        is_blank(cleaned(name)) ==> media_name(Some(name)) == "image.png"@,
        media_name(None) == "image.png"@,
{
    reveal_strlit("image.png");
    assert(!is_white("image.png"@[0]));
}

/// The number of a media file comes between its name and its extension; without one it gets that of an
/// image.
pub proof fn law_number_in_name(stem: Seq<char>, extension: Seq<char>, number: u64)
    requires
        stem.len() > 0,
        forall|k: int| 0 <= k < extension.len() ==> extension[k] != '.',
        forall|k: int| 0 <= k < stem.len() ==> stem[k] != '.',
    ensures
        numbered_name(stem + seq!['.'] + extension, number) == stem + seq!['-'] + decimal(
            number as nat,
        ) + seq!['.'] + extension,
        numbered_name(stem, number) == stem + seq!['-'] + decimal(number as nat) + seq![
            '.',
            'p',
            'n',
            'g',
        ],
{
    reveal_strlit("-");
    reveal_strlit(".");
    reveal_strlit("png");
    assert("-"@ =~= seq!['-']);
    assert("."@ =~= seq!['.']);
    assert("png"@ =~= seq!['p', 'n', 'g']);
    crate::names_laws::law_extension(stem, extension);
    crate::names_laws::law_extension(stem, stem);
    assert(numbered_name(stem, number) =~= stem + seq!['-'] + decimal(number as nat) + seq![
        '.',
        'p',
        'n',
        'g',
    ]);
}

/// The first name to try is the name itself, and every other one has the number of its attempt. The
/// search ends with the first name that is free, and after 999 of them.
pub proof fn law_search_for_name(name: Seq<char>, attempt: u64)
    ensures
        media_candidate_name(name, 1) == name,
        attempt > 1 ==> media_candidate_name(name, attempt) == numbered_name(name, attempt),
        search_after(attempt, false) == MediaSearch::Found,
        attempt < 999 ==> search_after(attempt, true) == MediaSearch::Try((attempt + 1) as u64),
        attempt >= 999 ==> search_after(attempt, true) == MediaSearch::LastResort,
{
}

/// A media file beside the document is named by its path from there, and every other one by the
/// address of the file, with slashes in both.
pub proof fn law_media_address(path: Seq<char>, other: Seq<char>)
    requires
        forall|k: int| 0 <= k < path.len() ==> path[k] != '\\',
    ensures
        media_address(Some(path), other) == path,
        media_address(None, path) == "file:///"@ + path,
        with_slashes(other).len() == other.len(),
        forall|k: int|
            0 <= k < other.len() ==> #[trigger] with_slashes(other)[k] == if other[k] == '\\' {
                '/'
            } else {
                other[k]
            },
{
    lemma_slashes(path);
    lemma_slashes(other);
    assert(with_slashes(path) =~= path);
}

proof fn lemma_slashes(s: Seq<char>)
    ensures
        with_slashes(s) == crate::storage::unified(s),
    decreases s.len(),
{
    reveal_strlit("\\");
    reveal_strlit("/");
    assert("\\"@ =~= seq!['\\']);
    assert("/"@ =~= seq!['/']);
    if s.len() > 0 {
        let rest = s.skip(1);
        lemma_slashes(rest);
        assert(s.take(1)[0] == s[0]);
        if s[0] == '\\' {
            assert(s.take(1) =~= "\\"@);
            assert(seq!['/'] + crate::storage::unified(rest) =~= crate::storage::unified(s));
        } else {
            assert(seq![s[0]] + crate::storage::unified(rest) =~= crate::storage::unified(s));
        }
    } else {
        assert(with_slashes(s) =~= crate::storage::unified(s));
    }
}

/// Where a document names a media file once, by its path with slashes, that place gets the new address
/// and all else stays.
pub proof fn law_media_moved(a: Seq<char>, source: Seq<char>, b: Seq<char>, to: Seq<char>)
    requires
        source.len() > 0,
        forall|k: int| 0 <= k < source.len() ==> source[k] != '\\',
        starts_not_in(a, source + b, source),
        starts_not_in(b, Seq::empty(), source),
        starts_not_in(a + to + b, Seq::empty(), "file:///"@ + source),
        starts_not_in(a + to + b, Seq::empty(), replace_all(source, "/"@, "\\"@)),
        replace_all(source, "/"@, "\\"@).len() > 0,
    ensures
        with_media_moved(a + source + b, source, to) == a + to + b,
{
    lemma_slashes(source);
    assert(with_slashes(source) =~= source);
    law_replace(a, b, source, to);
    law_replace(b, Seq::empty(), source, to);
    law_replace(a + to + b, Seq::empty(), "file:///"@ + source, to);
    law_replace(a + to + b, Seq::empty(), replace_all(source, "/"@, "\\"@), to);
}

/// The media files of a document are moved one after the other, each to the address of its own place in
/// the list; without any the document stays as it is.
pub proof fn law_all_media_moved(
    markdown: Seq<char>,
    sources: Seq<Seq<char>>,
    source: Seq<char>,
    targets: Seq<Seq<char>>,
)
    ensures
        with_all_moved(markdown, Seq::empty(), targets) == markdown,
        with_all_moved(markdown, sources.push(source), targets) == with_media_moved(
            with_all_moved(markdown, sources, targets),
            source,
            targets[sources.len() as int],
        ),
{
    assert(sources.push(source).drop_last() =~= sources);
}

} // verus!
