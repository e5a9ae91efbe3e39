//! What is kept between sessions: where it is kept, the recent files, the drafts, and the media of a
//! document.

use vstd::prelude::*;

use crate::lines::{fields, lines_of, split_lines, strs};
use crate::number::{decimal, to_decimal};
use crate::storage_laws::{law_last_name, law_media_name, law_media_name_as_path};
use crate::text::{
    blank, char_is_control, char_run, chars_of, concat2, concat3, first_chars, is_blank,
    is_control_char, only, push_text, replace, replace_all, run, same_text, slice_of, take_chars,
    trim, trim_of,
};
use crate::tree::opt_text;

verus! {

// ---------------------------------------------------------------------------
// Places
// ---------------------------------------------------------------------------

/// The systems that keep application data in different places.
#[derive(Clone, Copy, Debug, PartialEq, Eq, Structural)]
pub enum Platform {
    Windows,
    MacOs,
    Other,
}

/// The system, and which of the variables that name places it has set.
#[derive(Clone, Copy, Debug, PartialEq, Eq, Structural)]
pub struct Environment {
    pub platform: Platform,
    pub has_app_data: bool,
    pub has_home: bool,
    pub has_xdg_data_home: bool,
}

/// The place that a path starts from: what a variable names, or the directory for temporary files.
#[derive(Clone, Copy, Debug, PartialEq, Eq, Structural)]
pub enum PathRoot {
    AppData,
    Home,
    XdgDataHome,
    TempDir,
}

/// A path: where it starts, and the names on the way.
#[derive(Clone, Debug, PartialEq, Eq)]
pub struct DataPath {
    pub root: PathRoot,
    pub parts: Vec<String>,
}

impl View for DataPath {
    type V = (PathRoot, Seq<Seq<char>>);

    open spec fn view(&self) -> (PathRoot, Seq<Seq<char>>) {
        (self.root, strs(self.parts@))
    }
}

/// The directory for the data of the application.
pub open spec fn data_dir(env: Environment) -> (PathRoot, Seq<Seq<char>>) {
    if env.platform == Platform::Windows && env.has_app_data {
        (PathRoot::AppData, seq!["OpenLiveWriter"@])
    } else if env.platform == Platform::MacOs && env.has_home {
        (PathRoot::Home, seq!["Library"@, "Application Support"@, "OpenLiveWriter"@])
    } else if env.has_xdg_data_home {
        (PathRoot::XdgDataHome, seq!["OpenLiveWriter"@])
    } else {
        (
            if env.has_home {
                PathRoot::Home
            } else {
                PathRoot::TempDir
            },
            seq![".local"@, "share"@, "OpenLiveWriter"@],
        )
    }
}

/// A path one name further.
pub open spec fn path_join(path: (PathRoot, Seq<Seq<char>>), name: Seq<char>) -> (
    PathRoot,
    Seq<Seq<char>>,
) {
    (path.0, path.1.push(name))
}

impl DataPath {
    /// The path one name further.
    pub fn join(self, name: &str) -> (r: DataPath)
        ensures
            r@ == path_join(self@, name@),
    {
        let mut parts = self.parts;
        let name = name.to_owned();
        proof {
            crate::lines::lemma_strs_push(parts@, name);
        }
        parts.push(name);
        DataPath { root: self.root, parts }
    }

    /// The last name of the path.
    pub fn file_name(&self) -> (r: Option<&str>)
        ensures
            match r {
                Some(name) => self@.1.len() > 0 && name@ == self@.1.last(),
                None => self@.1.len() == 0,
            },
    {
        if self.parts.len() == 0 {
            None
        } else {
            Some(self.parts[self.parts.len() - 1].as_str())
        }
    }
}

fn app_data_dir(env: &Environment) -> (r: DataPath)
    ensures
        r@ == data_dir(*env),
{
    let mut parts: Vec<String> = Vec::new();
    if env.platform == Platform::Windows && env.has_app_data {
        parts.push("OpenLiveWriter".to_owned());
        assert(strs(parts@) =~= data_dir(*env).1);
        DataPath { root: PathRoot::AppData, parts }
    } else if env.platform == Platform::MacOs && env.has_home {
        parts.push("Library".to_owned());
        parts.push("Application Support".to_owned());
        parts.push("OpenLiveWriter".to_owned());
        assert(strs(parts@) =~= data_dir(*env).1);
        DataPath { root: PathRoot::Home, parts }
    } else if env.has_xdg_data_home {
        parts.push("OpenLiveWriter".to_owned());
        assert(strs(parts@) =~= data_dir(*env).1);
        DataPath { root: PathRoot::XdgDataHome, parts }
    } else {
        let root = if env.has_home {
            PathRoot::Home
        } else {
            PathRoot::TempDir
        };
        parts.push(".local".to_owned());
        parts.push("share".to_owned());
        parts.push("OpenLiveWriter".to_owned());
        assert(strs(parts@) =~= data_dir(*env).1);
        DataPath { root, parts }
    }
}

/// The place of the file of the automatic backup.
pub open spec fn backup_place(env: Environment) -> (PathRoot, Seq<Seq<char>>) {
    path_join(data_dir(env), "autosave.md"@)
}

/// The place of the file of the preferences.
pub open spec fn prefs_place(env: Environment) -> (PathRoot, Seq<Seq<char>>) {
    path_join(data_dir(env), "prefs.json"@)
}

/// The place of the file of the recent files.
pub open spec fn recent_place(env: Environment) -> (PathRoot, Seq<Seq<char>>) {
    path_join(data_dir(env), "recent.json"@)
}

/// The place of the file that tells of a crash.
pub open spec fn crash_place(env: Environment) -> (PathRoot, Seq<Seq<char>>) {
    path_join(data_dir(env), "crash.log"@)
}

/// The place of the media of documents that were never saved.
pub open spec fn pending_place(env: Environment) -> (PathRoot, Seq<Seq<char>>) {
    path_join(data_dir(env), "pending-media"@)
}

/// The place of the drafts.
pub open spec fn drafts_place(env: Environment) -> (PathRoot, Seq<Seq<char>>) {
    path_join(data_dir(env), "drafts"@)
}

/// The place of the file of the single draft.
pub open spec fn single_draft_place(env: Environment) -> (PathRoot, Seq<Seq<char>>) {
    path_join(data_dir(env), "draft.md"@)
}

/// The file of the single draft, which is kept beside the listed ones.
pub fn draft_path(env: &Environment) -> (r: DataPath)
    ensures
        r@ == single_draft_place(*env),
{
    app_data_dir(env).join("draft.md")
}

/// The directory of the drafts.
pub fn drafts_dir(env: &Environment) -> (r: DataPath)
    ensures
        r@ == drafts_place(*env),
{
    app_data_dir(env).join("drafts")
}

/// The file that tells of a crash.
pub fn crash_log_path(env: &Environment) -> (r: DataPath)
    ensures
        r@ == crash_place(*env),
{
    app_data_dir(env).join("crash.log")
}

/// The file of the automatic backup.
pub fn autosave_path(env: &Environment) -> (r: DataPath)
    ensures
        r@ == backup_place(*env),
{
    app_data_dir(env).join("autosave.md")
}

/// The file of the preferences.
pub fn prefs_path(env: &Environment) -> (r: DataPath)
    ensures
        r@ == prefs_place(*env),
{
    app_data_dir(env).join("prefs.json")
}

/// The file of the recent files.
pub fn recent_path(env: &Environment) -> (r: DataPath)
    ensures
        r@ == recent_place(*env),
{
    app_data_dir(env).join("recent.json")
}

/// The place of the file that lists the drafts.
pub open spec fn index_place(env: Environment) -> (PathRoot, Seq<Seq<char>>) {
    path_join(path_join(data_dir(env), "drafts"@), "index.json"@)
}

/// The file that lists the drafts.
pub fn drafts_index_path(env: &Environment) -> (r: DataPath)
    ensures
        r@ == index_place(*env),
{
    drafts_dir(env).join("index.json")
}

/// The directory of the media of documents that were never saved.
pub fn pending_media_dir(env: &Environment) -> (r: DataPath)
    ensures
        r@ == pending_place(*env),
{
    app_data_dir(env).join("pending-media")
}

/// The place of the file of a draft.
pub open spec fn draft_place(env: Environment, id: Seq<char>) -> (PathRoot, Seq<Seq<char>>) {
    path_join(path_join(data_dir(env), "drafts"@), id + ".md"@)
}

/// The file of a draft.
pub fn draft_file(env: &Environment, id: &str) -> (r: DataPath)
    ensures
        r@ == draft_place(*env, id@),
{
    drafts_dir(env).join(&concat2(id, ".md"))
}

// ---------------------------------------------------------------------------
// Workspace
// ---------------------------------------------------------------------------

/// What the window shows of a document.
#[derive(Clone, Copy, Debug, PartialEq, Eq, Structural)]
pub enum WorkspaceMode {
    Edit,
    Split,
    Preview,
}

impl Default for WorkspaceMode {
    fn default() -> (r: WorkspaceMode)
        ensures
            r == WorkspaceMode::Split,
    {
        WorkspaceMode::Split
    }
}

/// The mode that follows.
pub open spec fn next_mode(mode: WorkspaceMode) -> WorkspaceMode {
    match mode {
        WorkspaceMode::Edit => WorkspaceMode::Split,
        WorkspaceMode::Split => WorkspaceMode::Preview,
        WorkspaceMode::Preview => WorkspaceMode::Edit,
    }
}

/// The name of a mode.
pub open spec fn mode_label(mode: WorkspaceMode) -> Seq<char> {
    match mode {
        WorkspaceMode::Edit => "编辑"@,
        WorkspaceMode::Split => "双栏"@,
        WorkspaceMode::Preview => "预览"@,
    }
}

impl WorkspaceMode {
    /// The mode that follows.
    pub fn cycle(self) -> (r: WorkspaceMode)
        ensures
            r == next_mode(self),
    {
        match self {
            WorkspaceMode::Edit => WorkspaceMode::Split,
            WorkspaceMode::Split => WorkspaceMode::Preview,
            WorkspaceMode::Preview => WorkspaceMode::Edit,
        }
    }

    /// The name of the mode.
    pub fn label(self) -> (r: &'static str)
        ensures
            r@ == mode_label(self),
    {
        match self {
            WorkspaceMode::Edit => "编辑",
            WorkspaceMode::Split => "双栏",
            WorkspaceMode::Preview => "预览",
        }
    }
}

/// Three steps through the modes lead back to the first.
pub proof fn law_three_modes(mode: WorkspaceMode)
    ensures
        next_mode(next_mode(next_mode(mode))) == mode,
        next_mode(mode) != mode,
{
}

// ---------------------------------------------------------------------------
// Recent files
// ---------------------------------------------------------------------------

/// The files that were opened or saved last, the latest first.
pub struct RecentFiles<P> {
    pub paths: Vec<P>,
}

/// The number of files that are remembered.
pub open spec fn max_recent() -> int {
    12
}

/// The items whose flag is set, in order.
pub open spec fn flagged<P>(items: Seq<P>, flags: Seq<bool>) -> Seq<P>
    decreases items.len(),
{
    if items.len() == 0 || flags.len() == 0 {
        Seq::empty()
    } else {
        let rest = flagged(items.skip(1), flags.skip(1));
        if flags[0] {
            seq![items[0]] + rest
        } else {
            rest
        }
    }
}

/// At most so many items from the start.
pub open spec fn first_of<P>(items: Seq<P>, n: int) -> Seq<P> {
    if items.len() <= n {
        items
    } else {
        items.take(n)
    }
}

fn take_flagged<P>(items: Vec<P>, flags: &Vec<bool>) -> (r: Vec<P>)
    ensures
        r@ == flagged(items@, flags@),
{
    let ghost all = items@;
    let mut rest = items;
    let mut out: Vec<P> = Vec::new();
    let mut i: usize = 0;
    assert(flags@.skip(0) =~= flags@);
    assert(out@ + flagged(all, flags@) =~= flagged(all, flags@));
    while rest.len() > 0 && i < flags.len()
        invariant
            i <= flags.len(),
            out@ + flagged(rest@, flags@.skip(i as int)) == flagged(all, flags@),
        decreases rest.len(),
    {
        let ghost before = out@;
        let ghost was = rest@;
        let item = rest.remove(0);
        assert(rest@ =~= was.skip(1));
        assert(flags@.skip(i as int).skip(1) =~= flags@.skip(i + 1));
        let ghost more = flagged(was.skip(1), flags@.skip(i + 1));
        if flags[i] {
            out.push(item);
            assert(out@ + more =~= before + (seq![item] + more));
        }
        i = i + 1;
    }
    assert(out@ + Seq::empty() =~= out@);
    out
}

/// The files that are listed and still exist, as far as they are remembered.
pub open spec fn still_there<P>(paths: Seq<P>, exists: Seq<bool>) -> Seq<P> {
    first_of(flagged(paths, exists), max_recent())
}

/// The files that are remembered and still exist.
pub fn load_recent_files<P>(stored: Option<RecentFiles<P>>, exists: &Vec<bool>) -> (r: Vec<P>)
    ensures
        r@ == match stored {
            Some(recent) => still_there(recent.paths@, exists@),
            None => Seq::empty(),
        },
{
    match stored {
        Some(recent) => {
            let mut paths = take_flagged(recent.paths, exists);
            if paths.len() > 12 {
                paths.truncate(12);
                assert(paths@ =~= still_there(recent.paths@, exists@));
            }
            paths
        },
        None => {
            let none: Vec<P> = Vec::new();
            assert(none@ =~= Seq::empty());
            none
        },
    }
}

/// The remembered files once another one was opened or saved: it comes first, and once.
pub open spec fn remembered<P>(paths: Seq<P>, differs: Seq<bool>, path: P) -> Seq<P> {
    first_of(seq![path] + flagged(paths, differs), max_recent())
}

/// The remembered files once another one was opened or saved, given which of those so far are other
/// files.
pub fn remember_recent_file<P>(paths: Vec<P>, differs: &Vec<bool>, path: P) -> (r: Vec<P>)
    ensures
        r@ == remembered(paths@, differs@, path),
{
    let mut out = take_flagged(paths, differs);
    out.insert(0, path);
    assert(out@ =~= seq![path] + flagged(paths@, differs@));
    if out.len() > 12 {
        out.truncate(12);
        assert(out@ =~= remembered(paths@, differs@, path));
    }
    out
}

// ---------------------------------------------------------------------------
// Drafts
// ---------------------------------------------------------------------------

/// A draft in the list of drafts.
#[derive(Clone, Debug, PartialEq, Eq)]
pub struct DraftEntry {
    pub id: String,
    pub title: String,
    pub updated_at: u64,
    pub excerpt: String,
}

/// The mathematical model of a draft in the list.
pub ghost struct DraftView {
    pub id: Seq<char>,
    pub title: Seq<char>,
    pub updated_at: u64,
    pub excerpt: Seq<char>,
}

impl View for DraftEntry {
    type V = DraftView;

    open spec fn view(&self) -> DraftView {
        DraftView {
            id: self.id@,
            title: self.title@,
            updated_at: self.updated_at,
            excerpt: self.excerpt@,
        }
    }
}

/// The list of drafts, the latest first.
#[derive(Clone, Debug, PartialEq, Eq)]
pub struct DraftIndex {
    pub drafts: Vec<DraftEntry>,
}

pub open spec fn drafts_view(drafts: Seq<DraftEntry>) -> Seq<DraftView> {
    drafts.map_values(|entry: DraftEntry| entry@)
}

impl View for DraftIndex {
    type V = Seq<DraftView>;

    open spec fn view(&self) -> Seq<DraftView> {
        drafts_view(self.drafts@)
    }
}

/// The number of drafts that are listed.
pub open spec fn max_drafts() -> int {
    40
}

/// The text without carriage returns.
pub open spec fn without_returns(s: Seq<char>) -> Seq<char>
    decreases s.len(),
{
    if s.len() == 0 {
        Seq::empty()
    } else if s.last() == '\r' {
        without_returns(s.drop_last())
    } else {
        without_returns(s.drop_last()).push(s.last())
    }
}

/// The start of a document on one line: eighty characters without carriage returns, with spaces for
/// line feeds, trimmed.
pub open spec fn excerpt(content: Seq<char>) -> Seq<char> {
    trim_of(replace_all(first_chars(without_returns(content), 80), "\n"@, " "@))
}

/// The start of a document on one line.
pub fn excerpt_of(content: &str) -> (r: String)
    ensures
        r@ == excerpt(content@),
{
    let cs = chars_of(content);
    let mut out = String::new();
    let mut i: usize = 0;
    while i < cs.len()
        invariant
            i <= cs.len(),
            out@ == without_returns(cs@.take(i as int)),
        decreases cs.len() - i,
    {
        assert(cs@.take(i + 1).drop_last() =~= cs@.take(i as int));
        if cs[i] != '\r' {
            out.push(cs[i]);
        }
        i = i + 1;
    }
    assert(cs@.take(i as int) =~= cs@);
    proof {
        reveal_strlit("\n");
    }
    trim(&replace(&take_chars(&out, 80), "\n", " "))
}

/// The title that a line gives as a heading: what follows its number signs.
pub open spec fn heading_title(line: Seq<char>) -> Seq<char> {
    let t = trim_of(line);
    trim_of(t.skip(run(t, only('#')) as int))
}

/// The line starts with a number sign, and something follows its number signs.
pub open spec fn is_titled(line: Seq<char>) -> bool {
    trim_of(line).len() > 0 && trim_of(line)[0] == '#' && heading_title(line).len() > 0
}

/// The title that the first heading gives.
pub open spec fn first_title(lines: Seq<Seq<char>>) -> Option<Seq<char>>
    decreases lines.len(),
{
    if lines.len() == 0 {
        None
    } else if is_titled(lines[0]) {
        Some(heading_title(lines[0]))
    } else {
        first_title(lines.skip(1))
    }
}

/// The first line that is not blank, trimmed.
pub open spec fn first_line(lines: Seq<Seq<char>>) -> Option<Seq<char>>
    decreases lines.len(),
{
    if lines.len() == 0 {
        None
    } else if trim_of(lines[0]).len() > 0 {
        Some(trim_of(lines[0]))
    } else {
        first_line(lines.skip(1))
    }
}

/// The title of a draft: its first heading, or its first line that is not blank, cut to one hundred
/// characters.
pub open spec fn draft_title(content: Seq<char>) -> Seq<char> {
    match first_title(lines_of(content)) {
        Some(title) => first_chars(title, 100),
        None => match first_line(lines_of(content)) {
            Some(title) => first_chars(title, 100),
            None => "未命名文章"@,
        },
    }
}

fn find_title(lines: &Vec<String>) -> (r: Option<String>)
    ensures
        opt_text(r) == first_title(strs(lines@)),
{
    let ghost all = strs(lines@);
    let mut i: usize = 0;
    assert(all.skip(0) =~= all);
    while i < lines.len()
        invariant
            i <= lines.len(),
            all == strs(lines@),
            first_title(all) == first_title(all.skip(i as int)),
        decreases lines.len() - i,
    {
        assert(all.skip(i as int)[0] == lines@[i as int]@);
        assert(all.skip(i as int).skip(1) =~= all.skip(i + 1));
        let cs = chars_of(&trim(&lines[i]));
        if cs.len() > 0 && cs[0] == '#' {
            assert(cs@.skip(0) =~= cs@);
            let n: usize = char_run(&cs, 0, '#');
            assert(cs@.subrange(n as int, cs@.len() as int) =~= cs@.skip(n as int));
            let title = trim(&slice_of(&cs, n, cs.len()));
            if chars_of(&title).len() > 0 {
                return Some(title);
            }
        }
        i = i + 1;
    }
    None
}

fn find_line(lines: &Vec<String>) -> (r: Option<String>)
    ensures
        opt_text(r) == first_line(strs(lines@)),
{
    let ghost all = strs(lines@);
    let mut i: usize = 0;
    assert(all.skip(0) =~= all);
    while i < lines.len()
        invariant
            i <= lines.len(),
            all == strs(lines@),
            first_line(all) == first_line(all.skip(i as int)),
        decreases lines.len() - i,
    {
        assert(all.skip(i as int)[0] == lines@[i as int]@);
        assert(all.skip(i as int).skip(1) =~= all.skip(i + 1));
        let title = trim(&lines[i]);
        if chars_of(&title).len() > 0 {
            return Some(title);
        }
        i = i + 1;
    }
    None
}

/// The title of a draft: its first heading, or its first line that is not blank.
pub fn title_from_markdown(content: &str) -> (r: String)
    ensures
        r@ == draft_title(content@),
{
    let lines = split_lines(content);
    if let Some(title) = find_title(&lines) {
        return take_chars(&title, 100);
    }
    match find_line(&lines) {
        Some(title) => take_chars(&title, 100),
        None => "未命名文章".to_owned(),
    }
}

/// The drafts but those with this identifier.
pub open spec fn without_draft(drafts: Seq<DraftView>, id: Seq<char>) -> Seq<DraftView>
    decreases drafts.len(),
{
    if drafts.len() == 0 {
        Seq::empty()
    } else {
        let rest = without_draft(drafts.skip(1), id);
        if drafts[0].id == id {
            rest
        } else {
            seq![drafts[0]] + rest
        }
    }
}

/// The drafts with another one, which comes first and once.
pub open spec fn with_draft(drafts: Seq<DraftView>, entry: DraftView) -> Seq<DraftView> {
    first_of(seq![entry] + without_draft(drafts, entry.id), max_drafts())
}

/// The first draft with this identifier.
pub open spec fn draft_named(drafts: Seq<DraftView>, id: Seq<char>) -> Option<DraftView>
    decreases drafts.len(),
{
    if drafts.len() == 0 {
        None
    } else if drafts[0].id == id {
        Some(drafts[0])
    } else {
        draft_named(drafts.skip(1), id)
    }
}

pub proof fn lemma_drafts_push(drafts: Seq<DraftEntry>, entry: DraftEntry)
    ensures
        drafts_view(drafts.push(entry)) == drafts_view(drafts).push(entry@),
{
    assert(drafts_view(drafts.push(entry)) =~= drafts_view(drafts).push(entry@));
}

fn copy_entry(entry: &DraftEntry) -> (r: DraftEntry)
    ensures
        r@ == entry@,
{
    DraftEntry {
        id: entry.id.clone(),
        title: entry.title.clone(),
        updated_at: entry.updated_at,
        excerpt: entry.excerpt.clone(),
    }
}

fn drop_draft(drafts: &Vec<DraftEntry>, id: &str) -> (r: Vec<DraftEntry>)
    ensures
        drafts_view(r@) == without_draft(drafts_view(drafts@), id@),
{
    let ghost all = drafts_view(drafts@);
    let mut out: Vec<DraftEntry> = Vec::new();
    let mut i: usize = 0;
    assert(all.skip(0) =~= all);
    assert(drafts_view(out@) + without_draft(all, id@) =~= without_draft(all, id@));
    while i < drafts.len()
        invariant
            i <= drafts.len(),
            all == drafts_view(drafts@),
            drafts_view(out@) + without_draft(all.skip(i as int), id@) == without_draft(all, id@),
        decreases drafts.len() - i,
    {
        assert(all.skip(i as int)[0] == drafts@[i as int]@);
        assert(all.skip(i as int).skip(1) =~= all.skip(i + 1));
        let ghost before = drafts_view(out@);
        let ghost more = without_draft(all.skip(i + 1), id@);
        if !same_text(&drafts[i].id, id) {
            let entry = copy_entry(&drafts[i]);
            proof {
                lemma_drafts_push(out@, entry);
                assert(before.push(entry@) + more =~= before + (seq![entry@] + more));
            }
            out.push(entry);
        }
        i = i + 1;
    }
    assert(drafts_view(out@) + Seq::empty() =~= drafts_view(out@));
    out
}

/// The identifier of a draft: when it was made, and a number that no other one has.
pub open spec fn draft_id(made_at: u64, counter: u64) -> Seq<char> {
    decimal(made_at as nat) + "-"@ + decimal(counter as nat)
}

/// A draft of a document. Where it is given no title it takes one from the document.
pub open spec fn new_draft(
    title: Seq<char>,
    content: Seq<char>,
    made_at: u64,
    counter: u64,
    updated_at: u64,
) -> DraftView {
    DraftView {
        id: draft_id(made_at, counter),
        title: if is_blank(title) {
            draft_title(content)
        } else {
            trim_of(title)
        },
        updated_at,
        excerpt: excerpt(content),
    }
}

/// The draft that the file of the single draft holds.
pub open spec fn legacy_draft(content: Seq<char>, now: u64) -> DraftView {
    DraftView {
        id: "legacy"@,
        title: draft_title(content),
        updated_at: now,
        excerpt: excerpt(content),
    }
}

/// A draft with this identifier is listed.
pub open spec fn is_listed(drafts: Seq<DraftView>, id: Seq<char>) -> bool {
    draft_named(drafts, id) is Some
}

/// The identifier of a draft.
pub fn new_draft_id(made_at: u64, counter: u64) -> (r: String)
    ensures
        r@ == draft_id(made_at, counter),
{
    concat3(&to_decimal(made_at), "-", &to_decimal(counter))
}

/// A draft of a document, and the list with it. The time and the number of the draft are given.
pub fn save_named_draft(
    index: &DraftIndex,
    title: &str,
    content: &str,
    made_at: u64,
    counter: u64,
    updated_at: u64,
) -> (r: (DraftIndex, DraftEntry))
    ensures
        r.1@ == new_draft(title@, content@, made_at, counter, updated_at),
        r.0@ == with_draft(index@, r.1@),
{
    let id = new_draft_id(made_at, counter);
    let title = if blank(title) {
        title_from_markdown(content)
    } else {
        trim(title)
    };
    let entry = DraftEntry { id, title, updated_at, excerpt: excerpt_of(content) };
    let mut drafts = drop_draft(&index.drafts, &entry.id);
    let ghost rest = drafts_view(drafts@);
    drafts.insert(0, copy_entry(&entry));
    assert(drafts_view(drafts@) =~= seq![entry@] + rest);
    if drafts.len() > 40 {
        drafts.truncate(40);
        assert(drafts_view(drafts@) =~= (seq![entry@] + rest).take(40));
    }
    (DraftIndex { drafts }, entry)
}

/// A draft of a document under the document's own title, and the list with it.
pub fn save_draft(
    index: &DraftIndex,
    content: &str,
    made_at: u64,
    counter: u64,
    updated_at: u64,
) -> (r: (DraftIndex, DraftEntry))
    ensures
        r.1@ == new_draft(draft_title(content@), content@, made_at, counter, updated_at),
        r.0@ == with_draft(index@, r.1@),
{
    let title = title_from_markdown(content);
    save_named_draft(index, &title, content, made_at, counter, updated_at)
}

/// The draft with this identifier, if it is listed.
pub fn load_named_draft(index: &DraftIndex, id: &str) -> (r: Option<DraftEntry>)
    ensures
        match r {
            Some(entry) => draft_named(index@, id@) == Some(entry@),
            None => draft_named(index@, id@) is None,
        },
{
    let ghost all = index@;
    let mut i: usize = 0;
    assert(all.skip(0) =~= all);
    while i < index.drafts.len()
        invariant
            i <= index.drafts.len(),
            all == drafts_view(index.drafts@),
            draft_named(all, id@) == draft_named(all.skip(i as int), id@),
        decreases index.drafts.len() - i,
    {
        assert(all.skip(i as int)[0] == index.drafts@[i as int]@);
        assert(all.skip(i as int).skip(1) =~= all.skip(i + 1));
        if same_text(&index.drafts[i].id, id) {
            return Some(copy_entry(&index.drafts[i]));
        }
        i = i + 1;
    }
    None
}

/// The list without the draft with this identifier.
pub fn delete_named_draft(index: &DraftIndex, id: &str) -> (r: DraftIndex)
    ensures
        r@ == without_draft(index@, id@),
{
    DraftIndex { drafts: drop_draft(&index.drafts, id) }
}

/// The list with the draft that the file of the single draft holds, if that exists and is not
/// listed yet.
pub open spec fn migrated(
    drafts: Seq<DraftView>,
    legacy: Option<Seq<char>>,
    now: u64,
) -> Seq<DraftView> {
    match legacy {
        Some(content) => if is_listed(drafts, "legacy"@) {
            drafts
        } else {
            seq![legacy_draft(content, now)] + drafts
        },
        None => drafts,
    }
}

/// The list with the draft that the file of the single draft holds, if that exists and is not
/// listed yet.
pub fn migrate_legacy_draft(index: DraftIndex, legacy: Option<&str>, now: u64) -> (r: DraftIndex)
    ensures
        r@ == migrated(
            index@,
            match legacy {
                Some(content) => Some(content@),
                None => None,
            },
            now,
        ),
{
    let content = match legacy {
        Some(content) => content,
        None => {
            return index;
        },
    };
    if load_named_draft(&index, "legacy").is_some() {
        return index;
    }
    let entry = DraftEntry {
        id: "legacy".to_owned(),
        title: title_from_markdown(content),
        updated_at: now,
        excerpt: excerpt_of(content),
    };
    let ghost before = index@;
    let mut drafts = index.drafts;
    drafts.insert(0, entry);
    assert(drafts_view(drafts@) =~= seq![legacy_draft(content@, now)] + before);
    DraftIndex { drafts }
}

/// The listed drafts; none where no list was stored.
pub fn list_drafts(stored: Option<DraftIndex>, legacy: Option<&str>, now: u64) -> (r: Vec<DraftEntry>)
    ensures
        ({
            let before = match stored {
                Some(index) => index@,
                None => Seq::empty(),
            };
            drafts_view(r@) == migrated(
                before,
                match legacy {
                    Some(content) => Some(content@),
                    None => None,
                },
                now,
            )
        }),
{
    let index = match stored {
        Some(index) => index,
        None => {
            let index = DraftIndex { drafts: Vec::new() };
            assert(index@ =~= Seq::empty());
            index
        },
    };
    migrate_legacy_draft(index, legacy, now).drafts
}

// ---------------------------------------------------------------------------
// Documents and their media
// ---------------------------------------------------------------------------

/// What is known of where a document was published.
#[derive(Clone, Debug, PartialEq, Eq)]
pub struct DocumentMeta {
    pub notion_page_id: Option<String>,
    pub notion_url: Option<String>,
    pub typecho_post_id: Option<String>,
}

impl Default for DocumentMeta {
    fn default() -> (r: DocumentMeta)
        ensures
            r.notion_page_id is None && r.notion_url is None && r.typecho_post_id is None,
    {
        DocumentMeta { notion_page_id: None, notion_url: None, typecho_post_id: None }
    }
}

/// What is known of a document is what was stored about it; nothing where nothing was stored.
pub open spec fn is_known(stored: Option<DocumentMeta>, meta: DocumentMeta) -> bool {
    match stored {
        Some(found) => meta == found,
        None => meta.notion_page_id is None && meta.notion_url is None && meta.typecho_post_id is None,
    }
}

/// What was stored about a document; nothing is known of one without it.
pub fn load_document_meta(stored: Option<DocumentMeta>) -> (r: DocumentMeta)
    ensures
        is_known(stored, r),
{
    match stored {
        Some(meta) => meta,
        None => DocumentMeta { notion_page_id: None, notion_url: None, typecho_post_id: None },
    }
}

/// The name of the file beside a document, from the name of the document.
pub open spec fn sidecar_name(file_name: Seq<char>) -> Seq<char> {
    file_name + ".olw-meta.json"@
}

/// The name of the file beside a document that holds what is known of where it was published.
pub fn sidecar_meta_path(file_name: &str) -> (r: String)
    ensures
        r@ == sidecar_name(file_name@),
{
    concat2(file_name, ".olw-meta.json")
}

/// The name of the directory beside a document that holds its media.
pub open spec fn media_dir_name(stem: Option<Seq<char>>) -> Seq<char> {
    (match stem {
        Some(s) => s,
        None => "article"@,
    }) + ".assets"@
}

/// The name of the directory beside a document that holds its media.
pub fn media_dir_for_document(stem: Option<&str>) -> (r: String)
    ensures
        r@ == media_dir_name(
            match stem {
                Some(s) => Some(s@),
                None => None,
            },
        ),
{
    match stem {
        Some(s) => concat2(s, ".assets"),
        None => concat2("article", ".assets"),
    }
}

/// The character has no place in the name of a file.
pub open spec fn is_forbidden(c: char) -> bool {
    c == '<' || c == '>' || c == ':' || c == '"' || c == '/' || c == '\\' || c == '|' || c == '?'
        || c == '*' || is_control_char(c)
}

pub open spec fn clean_char(c: char) -> char {
    if is_forbidden(c) {
        '_'
    } else {
        c
    }
}

/// The text with underscores in place of characters that have no place in the name of a file.
pub open spec fn cleaned(s: Seq<char>) -> Seq<char> {
    s.map_values(|c: char| clean_char(c))
}

/// The text has nothing but characters for the name of a file.
pub open spec fn is_clean(s: Seq<char>) -> bool {
    forall|k: int| 0 <= k < s.len() ==> !is_forbidden(#[trigger] s[k])
}

/// A name for a media file, from the name that it came with.
pub open spec fn media_name(name: Option<Seq<char>>) -> Seq<char> {
    let wanted = match name {
        Some(s) => cleaned(s),
        None => "image.png"@,
    };
    if is_blank(wanted) {
        "image.png"@
    } else {
        wanted
    }
}

pub fn char_is_forbidden(c: char) -> (r: bool)
    ensures
        r == is_forbidden(c),
{
    c == '<' || c == '>' || c == ':' || c == '"' || c == '/' || c == '\\' || c == '|' || c == '?'
        || c == '*' || char_is_control(c)
}

/// The text with underscores in place of characters that have no place in the name of a file.
pub fn clean_name(s: &str) -> (r: String)
    ensures
        r@ == cleaned(s@),
{
    let cs = chars_of(s);
    let mut out = String::new();
    let mut i: usize = 0;
    while i < cs.len()
        invariant
            i <= cs.len(),
            out@ == cleaned(cs@.take(i as int)),
        decreases cs.len() - i,
    {
        if char_is_forbidden(cs[i]) {
            out.push('_');
        } else {
            out.push(cs[i]);
        }
        assert(out@ =~= cleaned(cs@.take(i + 1)));
        i = i + 1;
    }
    assert(cs@.take(i as int) =~= cs@);
    out
}

/// The text can be the name of a file: it is not empty, and not one of the two names that stand for
/// a directory.
pub open spec fn is_file_name(name: Seq<char>) -> bool {
    name.len() > 0 && name != "."@ && name != ".."@
}

/// The last name among the first `n` parts of a path. Empty parts, and parts that stand for the
/// directory itself, are left aside; there is no name where the parent directory comes last.
pub open spec fn name_among(parts: Seq<Seq<char>>, n: int) -> Option<Seq<char>>
    decreases n,
{
    if n <= 0 {
        None
    } else if parts[n - 1].len() == 0 || parts[n - 1] == "."@ {
        name_among(parts, n - 1)
    } else if parts[n - 1] == ".."@ {
        None
    } else {
        Some(parts[n - 1])
    }
}

/// The last name of a path whose parts stand between separators.
pub open spec fn name_between(path: Seq<char>, separator: char) -> Option<Seq<char>> {
    name_among(fields(path, separator), fields(path, separator).len() as int)
}

/// The last name of a path with slashes.
pub open spec fn path_name(path: Seq<char>) -> Option<Seq<char>> {
    name_between(path, '/')
}

/// The path with a slash in place of every backslash.
pub open spec fn unified(path: Seq<char>) -> Seq<char> {
    path.map_values(|c: char|
        if c == '\\' {
            '/'
        } else {
            c
        })
}

/// The path starts as the name of a drive.
pub open spec fn starts_as_drive(path: Seq<char>) -> bool {
    path.len() >= 2 && path[1] == ':'
}

/// The path starts as the name of a share, or of a device.
pub open spec fn starts_as_share(path: Seq<char>) -> bool {
    path.len() >= 2 && unified(path)[0] == '/' && unified(path)[1] == '/'
}

/// The text is a path that has the same parts on every system, those between its slashes: it has no
/// backslash, and starts neither as the name of a drive nor as that of a share.
pub open spec fn is_plain_path(path: Seq<char>) -> bool {
    &&& !starts_as_share(path)
    &&& !starts_as_drive(path)
    &&& forall|k: int| 0 <= k < path.len() ==> path[k] != '\\'
}

/// This is the last name of the path on one of the systems. Where only slashes separate the parts of
/// a path it is the last part between slashes. Where backslashes do so too it is the last part between
/// either; the name of a drive is then no part of the path, the name of a share may be all of it, and
/// behind the start of a share or device the backslashes may be the only separators.
pub open spec fn is_last_name(path: Seq<char>, name: Option<Seq<char>>) -> bool {
    ||| name == path_name(path)
    ||| name == path_name(unified(path))
    ||| starts_as_drive(path) && name == path_name(unified(path.skip(2)))
    ||| starts_as_share(path) && (name is None || name == name_between(path, '\\'))
}

/// `std::path::Path::file_name`: the last name of a path, slashes and single full stops at the end
/// left aside; there is none where the last part is two full stops, or where no part is left. What
/// separates the parts of a path, and whether the name of a drive or a share comes before them,
/// depends on the system; the name is that of one of the systems.
#[verifier::external_body]
pub(crate) fn last_name(path: &str) -> (r: Option<String>)
    ensures
        is_last_name(path@, opt_text(r)),
{
    match std::path::Path::new(path).file_name() {
        Some(name) => name.to_str().map(str::to_owned),
        None => None,
    }
}

/// A name for a media file, from the last name of the path that it came with.
pub fn sanitize_name(name: Option<String>) -> (r: String)
    ensures
        r@ == media_name(opt_text(name)),
{
    let wanted = match name {
        Some(s) => clean_name(&s),
        None => "image.png".to_owned(),
    };
    if blank(&wanted) {
        "image.png".to_owned()
    } else {
        wanted
    }
}

/// A name for a media file, from the path that it came with. The name is made from the last name of
/// the path; made again, from itself, it stays as it is.
pub fn sanitize_file_name(file_name: &str) -> (r: String)
    ensures
        exists|name: Option<Seq<char>>|
            is_last_name(file_name@, name) && r@ == #[trigger] media_name(name),
        is_plain_path(file_name@) ==> r@ == media_name(path_name(file_name@)),
        !is_blank(r@),
        is_clean(r@),
        is_plain_path(r@),
        media_name(path_name(r@)) == r@,
{
    let name = last_name(file_name);
    let ghost found = opt_text(name);
    let r = sanitize_name(name);
    assert(r@ == media_name(found));
    proof {
        law_last_name(file_name@, found);
        law_media_name(found);
        law_media_name_as_path(found);
    }
    r
}

/// The last full stop of a name that is not its first character.
pub open spec fn last_dot(name: Seq<char>, to: int) -> Option<int>
    decreases to,
{
    if to <= 1 {
        None
    } else if name[to - 1] == '.' {
        Some(to - 1)
    } else {
        last_dot(name, to - 1)
    }
}

/// A name without its extension, and the extension.
pub open spec fn name_parts(name: Seq<char>) -> (Seq<char>, Option<Seq<char>>) {
    match last_dot(name, name.len() as int) {
        Some(i) => (name.take(i), Some(name.skip(i + 1))),
        None => (name, None),
    }
}

/// A name with a number before its extension.
pub open spec fn numbered_name(name: Seq<char>, number: u64) -> Seq<char> {
    let (stem, extension) = name_parts(name);
    stem + "-"@ + decimal(number as nat) + "."@ + match extension {
        Some(s) => s,
        None => "png"@,
    }
}

/// A name without its extension, and the extension.
pub fn split_name(name: &str) -> (r: (String, Option<String>))
    ensures
        (r.0@, opt_text(r.1)) == name_parts(name@),
{
    let cs = chars_of(name);
    let mut i: usize = cs.len();
    while i > 1
        invariant
            i <= cs.len(),
            last_dot(cs@, cs@.len() as int) == last_dot(cs@, i as int),
            cs@ == name@,
        decreases i,
    {
        if cs[i - 1] == '.' {
            let stem = slice_of(&cs, 0, i - 1);
            let extension = slice_of(&cs, i, cs.len());
            assert(stem@ =~= name@.take(i - 1));
            assert(extension@ =~= name@.skip(i as int));
            return (stem, Some(extension));
        }
        i = i - 1;
    }
    (name.to_owned(), None)
}

/// A name with a number before its extension; a name without one gets that of an image.
pub fn number_name(name: &str, number: u64) -> (r: String)
    ensures
        r@ == numbered_name(name@, number),
{
    let (stem, extension) = split_name(name);
    let mut out = concat3(&stem, "-", &to_decimal(number));
    push_text(&mut out, ".");
    match extension {
        Some(s) => push_text(&mut out, &s),
        None => push_text(&mut out, "png"),
    }
    out
}

/// A name to try for a media file.
pub open spec fn media_candidate_name(name: Seq<char>, attempt: u64) -> Seq<char> {
    if attempt <= 1 {
        name
    } else {
        numbered_name(name, attempt)
    }
}

/// The names to try for a media file, one after the other: the name itself, and the name with a
/// number from two on.
pub fn media_candidate(name: &str, attempt: u64) -> (r: String)
    ensures
        r@ == media_candidate_name(name@, attempt),
{
    if attempt <= 1 {
        name.to_owned()
    } else {
        number_name(name, attempt)
    }
}

/// How the search for a free name of a media file goes on.
#[derive(Clone, Copy, Debug, PartialEq, Eq, Structural)]
pub enum MediaSearch {
    /// The name is free.
    Found,
    /// The name of this attempt is to be tried.
    Try(u64),
    /// The name gets a number that nothing else has, and is not tried.
    LastResort,
}

/// What follows an attempt to find a free name, by whether its name is taken.
pub open spec fn search_after(attempt: u64, taken: bool) -> MediaSearch {
    if !taken {
        MediaSearch::Found
    } else if attempt < 999 {
        MediaSearch::Try((attempt + 1) as u64)
    } else {
        MediaSearch::LastResort
    }
}

/// What follows an attempt to find a free name, by whether its name is taken: the next attempt, and
/// after the 999th the last resort.
pub fn media_search(attempt: u64, taken: bool) -> (r: MediaSearch)
    ensures
        r == search_after(attempt, taken),
{
    if !taken {
        MediaSearch::Found
    } else if attempt < 999 {
        MediaSearch::Try(attempt + 1)
    } else {
        MediaSearch::LastResort
    }
}

/// A path with slashes.
pub open spec fn with_slashes(path: Seq<char>) -> Seq<char> {
    replace_all(path, "\\"@, "/"@)
}

/// The address of a media file.
pub open spec fn media_address(relative: Option<Seq<char>>, media_path: Seq<char>) -> Seq<char> {
    match relative {
        Some(path) => with_slashes(path),
        None => "file:///"@ + with_slashes(media_path),
    }
}

/// The address of a media file: its path from the directory of the document where it lies there, and
/// the address of the file where not.
pub fn relative_media_url(relative: Option<&str>, media_path: &str) -> (r: String)
    ensures
        r@ == media_address(
            match relative {
                Some(path) => Some(path@),
                None => None,
            },
            media_path@,
        ),
{
    proof {
        reveal_strlit("\\");
    }
    match relative {
        Some(path) => replace(path, "\\", "/"),
        None => concat2("file:///", &replace(media_path, "\\", "/")),
    }
}

/// The text with the path of a media file replaced, however it is written.
pub open spec fn with_media_moved(markdown: Seq<char>, source: Seq<char>, to: Seq<char>) -> Seq<char> {
    let from = with_slashes(source);
    replace_all(
        replace_all(replace_all(markdown, from, to), "file:///"@ + from, to),
        replace_all(source, "/"@, "\\"@),
        to,
    )
}

proof fn lemma_replace_keeps_length(s: Seq<char>, a: char, b: char)
    ensures
        replace_all(s, seq![a], seq![b]).len() == s.len(),
    decreases s.len(),
{
    if s.len() > 0 {
        lemma_replace_keeps_length(s.skip(1), a, b);
    }
}

/// The text with the path of a media file replaced, however it is written.
pub fn move_media(markdown: &str, source: &str, to: &str) -> (r: String)
    requires
        source@.len() > 0,
    ensures
        r@ == with_media_moved(markdown@, source@, to@),
{
    proof {
        reveal_strlit("\\");
        reveal_strlit("/");
        assert("\\"@ =~= seq!['\\']);
        assert("/"@ =~= seq!['/']);
        lemma_replace_keeps_length(source@, '\\', '/');
        lemma_replace_keeps_length(source@, '/', '\\');
    }
    let from = replace(source, "\\", "/");
    let url = concat2("file:///", &from);
    let other = replace(source, "/", "\\");
    let next = replace(markdown, &from, to);
    let next = replace(&next, &url, to);
    replace(&next, &other, to)
}

/// The text with the paths of the first media files replaced, each by its new address.
pub open spec fn with_all_moved(
    markdown: Seq<char>,
    sources: Seq<Seq<char>>,
    targets: Seq<Seq<char>>,
) -> Seq<char>
    decreases sources.len(),
{
    if sources.len() == 0 {
        markdown
    } else {
        with_media_moved(
            with_all_moved(markdown, sources.drop_last(), targets),
            sources.last(),
            targets[sources.len() - 1],
        )
    }
}

/// The text of a document whose media files were moved: each path is replaced by the new address.
pub fn relocate_pending_media(markdown: &str, sources: &Vec<String>, targets: &Vec<String>) -> (r:
    String)
    requires
        sources@.len() <= targets@.len(),
        forall|k: int| 0 <= k < sources@.len() ==> (#[trigger] sources@[k])@.len() > 0,
    ensures
        r@ == with_all_moved(markdown@, strs(sources@), strs(targets@)),
{
    let ghost from = strs(sources@);
    let ghost to = strs(targets@);
    let mut out = markdown.to_owned();
    let mut i: usize = 0;
    while i < sources.len()
        invariant
            i <= sources.len() <= targets.len(),
            from == strs(sources@),
            to == strs(targets@),
            forall|k: int| 0 <= k < sources@.len() ==> (#[trigger] sources@[k])@.len() > 0,
            out@ == with_all_moved(markdown@, from.take(i as int), to),
        decreases sources.len() - i,
    {
        assert(from.take(i + 1).drop_last() =~= from.take(i as int));
        assert(from.take(i + 1).last() == sources@[i as int]@);
        assert(to[i as int] == targets@[i as int]@);
        assert(sources@[i as int]@.len() > 0);
        out = move_media(&out, &sources[i], &targets[i]);
        i = i + 1;
    }
    assert(from.take(i as int) =~= from);
    out
}

// ---------------------------------------------------------------------------
// The directory to save in
// ---------------------------------------------------------------------------

/// A directory to offer for a new file.
#[derive(Clone, Copy, Debug, PartialEq, Eq, Structural)]
pub enum SaveDirectory {
    /// The directory that was used last.
    Last,
    /// The documents below the profile of the user.
    ProfileDocuments,
    /// The documents below the home of the user.
    HomeDocuments,
    /// The directory that the program runs in.
    Current,
}

/// The directory to offer for a new file, given which of those in question exist.
pub open spec fn directory_to_offer(
    platform: Platform,
    last: bool,
    profile_documents: bool,
    home_documents: bool,
) -> SaveDirectory {
    if last {
        SaveDirectory::Last
    } else if platform == Platform::Windows && profile_documents {
        SaveDirectory::ProfileDocuments
    } else if platform == Platform::MacOs && home_documents {
        SaveDirectory::HomeDocuments
    } else {
        SaveDirectory::Current
    }
}

/// The directory to offer for a new file, given which of those in question exist.
pub fn choose_save_directory(
    platform: Platform,
    last_exists: bool,
    profile_documents_exist: bool,
    home_documents_exist: bool,
) -> (r: SaveDirectory)
    ensures
        r == directory_to_offer(
            platform,
            last_exists,
            profile_documents_exist,
            home_documents_exist,
        ),
{
    if last_exists {
        SaveDirectory::Last
    } else if platform == Platform::Windows && profile_documents_exist {
        SaveDirectory::ProfileDocuments
    } else if platform == Platform::MacOs && home_documents_exist {
        SaveDirectory::HomeDocuments
    } else {
        SaveDirectory::Current
    }
}

/// The name of a temporary file beside a file.
pub open spec fn temp_name(file_name: Seq<char>, process: u32, counter: u64) -> Seq<char> {
    "."@ + file_name + "."@ + decimal(process as nat) + "."@ + decimal(counter as nat) + ".tmp"@
}

/// The name of a temporary file beside a file.
pub fn temp_file_name(file_name: &str, process: u32, counter: u64) -> (r: String)
    ensures
        r@ == temp_name(file_name@, process, counter),
{
    let mut out = concat3(".", file_name, ".");
    push_text(&mut out, &to_decimal(process as u64));
    push_text(&mut out, ".");
    push_text(&mut out, &to_decimal(counter));
    push_text(&mut out, ".tmp");
    out
}

} // verus!
