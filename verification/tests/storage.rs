use open_live_writer::atomic::{AtomicWrite, WriteStep};
use open_live_writer::storage::{
    autosave_path, choose_save_directory, clean_name, crash_log_path, delete_named_draft,
    draft_file, draft_path, drafts_dir, drafts_index_path, excerpt_of, list_drafts,
    load_document_meta, load_named_draft, load_recent_files, media_candidate,
    media_dir_for_document, media_search, migrate_legacy_draft, move_media, number_name, pending_media_dir,
    prefs_path, recent_path, relative_media_url, relocate_pending_media, remember_recent_file,
    sanitize_file_name, sanitize_name, save_draft, save_named_draft, sidecar_meta_path, split_name,
    temp_file_name, title_from_markdown, DataPath, DocumentMeta, DraftIndex, Environment, MediaSearch, PathRoot,
    Platform, RecentFiles, SaveDirectory, WorkspaceMode,
};

fn unix() -> Environment {
    Environment {
        platform: Platform::Other,
        has_app_data: false,
        has_home: true,
        has_xdg_data_home: false,
    }
}

fn shown(path: &DataPath) -> String {
    path.parts.join("/")
}

#[test]
fn keeps_drafts_in_an_application_data_directory() {
    let path = draft_path(&unix());
    assert_eq!(path.file_name(), Some("draft.md"));
    assert!(shown(&path).contains("OpenLiveWriter"));
    assert_eq!(crash_log_path(&unix()).file_name(), Some("crash.log"));
    assert_eq!(autosave_path(&unix()).file_name(), Some("autosave.md"));
}

#[test]
fn sanitizes_media_names_and_cycles_workspace_modes() {
    assert_eq!(sanitize_file_name("a<>.png"), "a__.png");
    assert_eq!(WorkspaceMode::Edit.cycle(), WorkspaceMode::Split);
    assert_eq!(WorkspaceMode::Preview.cycle(), WorkspaceMode::Edit);
    let first = media_candidate(&sanitize_file_name("note.txt"), 1);
    assert!(first.ends_with("note.txt"));
}

#[test]
fn every_system_has_its_place() {
    let windows = Environment {
        platform: Platform::Windows,
        has_app_data: true,
        has_home: true,
        has_xdg_data_home: true,
    };
    assert_eq!(prefs_path(&windows).root, PathRoot::AppData);
    assert_eq!(shown(&prefs_path(&windows)), "OpenLiveWriter/prefs.json");
    let mac = Environment { platform: Platform::MacOs, ..windows };
    assert_eq!(recent_path(&mac).root, PathRoot::Home);
    assert_eq!(
        shown(&recent_path(&mac)),
        "Library/Application Support/OpenLiveWriter/recent.json"
    );
    let xdg = Environment { platform: Platform::Other, ..windows };
    assert_eq!(drafts_dir(&xdg).root, PathRoot::XdgDataHome);
    assert_eq!(shown(&drafts_index_path(&xdg)), "OpenLiveWriter/drafts/index.json");
    assert_eq!(
        shown(&pending_media_dir(&unix())),
        ".local/share/OpenLiveWriter/pending-media"
    );
    let bare = Environment { has_home: false, ..unix() };
    assert_eq!(draft_file(&bare, "1-2").root, PathRoot::TempDir);
    assert_eq!(
        shown(&draft_file(&bare, "1-2")),
        ".local/share/OpenLiveWriter/drafts/1-2.md"
    );
}

#[test]
fn offers_a_directory_to_save_in() {
    assert_eq!(
        choose_save_directory(Platform::Windows, true, true, true),
        SaveDirectory::Last
    );
    assert_eq!(
        choose_save_directory(Platform::Windows, false, true, true),
        SaveDirectory::ProfileDocuments
    );
    assert_eq!(
        choose_save_directory(Platform::MacOs, false, true, true),
        SaveDirectory::HomeDocuments
    );
    assert_eq!(
        choose_save_directory(Platform::Other, false, true, true),
        SaveDirectory::Current
    );
}

#[test]
fn modes_have_names() {
    assert_eq!(WorkspaceMode::default(), WorkspaceMode::Split);
    assert_eq!(WorkspaceMode::Edit.label(), "编辑");
    assert_eq!(WorkspaceMode::Split.label(), "双栏");
    assert_eq!(WorkspaceMode::Preview.label(), "预览");
}

#[test]
fn remembers_the_latest_files_once() {
    let paths: Vec<u32> = (0..12).collect();
    let differs: Vec<bool> = paths.iter().map(|path| *path != 5).collect();
    let next = remember_recent_file(paths, &differs, 5);
    assert_eq!(next, vec![5, 0, 1, 2, 3, 4, 6, 7, 8, 9, 10, 11]);
    let differs = vec![true; 12];
    let next = remember_recent_file(next, &differs, 99);
    assert_eq!(next.len(), 12);
    assert_eq!(next[0], 99);
    assert_eq!(next[11], 10);
    let stored = RecentFiles { paths: vec![1, 2, 3] };
    assert_eq!(load_recent_files(Some(stored), &vec![true, false, true]), vec![1, 3]);
    assert_eq!(load_recent_files::<u32>(None, &vec![]), Vec::<u32>::new());
}

#[test]
fn lists_drafts() {
    let index = DraftIndex { drafts: Vec::new() };
    let (index, first) = save_draft(&index, "# A\ntext", 10, 0, 11);
    assert_eq!(first.id, "10-0");
    assert_eq!(first.title, "A");
    assert_eq!(first.updated_at, 11);
    assert_eq!(first.excerpt, "# A text");
    let (index, second) = save_named_draft(&index, " B ", "x", 10, 1, 12);
    assert_eq!(second.title, "B");
    assert_eq!(index.drafts.len(), 2);
    assert_eq!(index.drafts[0].id, "10-1");
    let (index, _) = save_named_draft(&index, "C", "y", 10, 0, 13);
    assert_eq!(index.drafts.len(), 2);
    assert_eq!(index.drafts[0].title, "C");
    assert_eq!(load_named_draft(&index, "10-1").unwrap().title, "B");
    assert!(load_named_draft(&index, "9-9").is_none());
    let index = delete_named_draft(&index, "10-1");
    assert!(load_named_draft(&index, "10-1").is_none());
    let index = migrate_legacy_draft(index, Some("old"), 20);
    assert_eq!(index.drafts[0].id, "legacy");
    let index = migrate_legacy_draft(index, Some("old"), 21);
    assert_eq!(index.drafts.len(), 2);
    assert_eq!(list_drafts(Some(index), None, 0).len(), 2);
    assert_eq!(list_drafts(None, None, 0).len(), 0);
    let mut index = DraftIndex { drafts: Vec::new() };
    for counter in 0..45 {
        index = save_draft(&index, "x", 1, counter, 1).0;
    }
    assert_eq!(index.drafts.len(), 40);
    assert_eq!(index.drafts[0].id, "1-44");
}

#[test]
fn titles_and_excerpts_of_drafts() {
    assert_eq!(title_from_markdown("a\r\n #  # B \r\n"), "# B");
    assert_eq!(title_from_markdown("#\n\n first \n"), "#");
    assert_eq!(title_from_markdown("\n \n"), "未命名文章");
    assert_eq!(title_from_markdown(&"字".repeat(120)), "字".repeat(100));
    assert_eq!(excerpt_of("\r\n a\r\nb "), "a b");
    assert_eq!(excerpt_of(&"x".repeat(100)).len(), 80);
}

#[test]
fn names_of_media_files() {
    assert_eq!(sanitize_file_name("dir/a:b?.png"), "a_b_.png");
    assert_eq!(sanitize_file_name(".."), "image.png");
    assert_eq!(sanitize_file_name("   "), "image.png");
    assert_eq!(sanitize_file_name(""), "image.png");
    assert_eq!(sanitize_file_name("/"), "image.png");
    assert_eq!(sanitize_file_name("a/.."), "image.png");
    assert_eq!(sanitize_file_name("./"), "image.png");
    assert_eq!(sanitize_file_name("d/a.png/"), "a.png");
    assert_eq!(sanitize_file_name("d/a.png//"), "a.png");
    assert_eq!(sanitize_file_name("d/a.png/."), "a.png");
    assert_eq!(sanitize_file_name("../a.png"), "a.png");
    assert_eq!(sanitize_file_name("d/..."), "...");
    assert_eq!(sanitize_file_name("ab:c|d"), "ab_c_d");
    assert!(["a_.png", "d_a_.png"].contains(&sanitize_file_name("d\\a*.png").as_str()));
    assert!(["a.png", "C_a.png"].contains(&sanitize_file_name("C:a.png").as_str()));
    assert!(["a.png", "C__d_a.png"].contains(&sanitize_file_name("C:\\d\\a.png").as_str()));
    assert!(["image.png", "__h_s"].contains(&sanitize_file_name("\\\\h\\s").as_str()));
    assert_eq!(sanitize_name(None), "image.png");
    assert_eq!(clean_name("a\u{7}|b"), "a__b");
    assert_eq!(split_name("a.tar.gz"), ("a.tar".to_owned(), Some("gz".to_owned())));
    assert_eq!(split_name(".hidden"), (".hidden".to_owned(), None));
    assert_eq!(split_name("a."), ("a".to_owned(), Some(String::new())));
    assert_eq!(number_name("a.jpg", 2), "a-2.jpg");
    assert_eq!(number_name("a", 7), "a-7.png");
    assert_eq!(media_candidate("a.jpg", 1), "a.jpg");
    assert_eq!(media_candidate("a.jpg", 999), "a-999.jpg");
    assert_eq!(temp_file_name("a.md", 5, 6), ".a.md.5.6.tmp");
    assert_eq!(sidecar_meta_path("a.md"), "a.md.olw-meta.json");
    assert_eq!(media_dir_for_document(Some("a")), "a.assets");
    assert_eq!(media_dir_for_document(None), "article.assets");
    assert_eq!(load_document_meta(None), DocumentMeta::default());
}

#[test]
fn a_free_name_is_searched_for_999_times() {
    assert_eq!(media_search(1, false), MediaSearch::Found);
    assert_eq!(media_search(1, true), MediaSearch::Try(2));
    assert_eq!(media_search(998, true), MediaSearch::Try(999));
    assert_eq!(media_search(999, false), MediaSearch::Found);
    assert_eq!(media_search(999, true), MediaSearch::LastResort);
    assert_eq!(media_search(u64::MAX, true), MediaSearch::LastResort);
    let mut attempt = 1;
    let mut tried = vec![media_candidate("a.png", attempt)];
    while let MediaSearch::Try(next) = media_search(attempt, true) {
        attempt = next;
        tried.push(media_candidate("a.png", attempt));
    }
    assert_eq!(tried.len(), 999);
    assert_eq!(tried[1], "a-2.png");
}

#[test]
fn what_was_stored_is_read_again() {
    let differs: Vec<bool> = vec![true, false, true];
    let next = remember_recent_file(vec![1, 2, 3], &differs, 2);
    assert_eq!(next, vec![2, 1, 3]);
    let stored = RecentFiles { paths: next };
    assert_eq!(load_recent_files(Some(stored), &vec![true, false, true]), vec![2, 3]);

    let index = DraftIndex { drafts: Vec::new() };
    let (index, entry) = save_named_draft(&index, " \t", "# A\n\nb", 1, 2, 3);
    assert_eq!(entry.title, title_from_markdown("# A\n\nb"));
    let index = migrate_legacy_draft(index, Some("# A\n\nb"), 4);
    assert_eq!(index.drafts[0].id, "legacy");
    assert_eq!(load_named_draft(&index, &entry.id), Some(entry));
    assert_ne!(shown(&draft_file(&unix(), "1-2")), shown(&draft_file(&unix(), "legacy")));

    let meta = DocumentMeta { notion_url: Some("u".into()), ..DocumentMeta::default() };
    assert_eq!(load_document_meta(Some(meta.clone())), meta);
    assert_ne!(sidecar_meta_path("a.md"), sidecar_meta_path("b.md"));
}

#[test]
fn paths_of_media_files_are_replaced() {
    assert_eq!(relative_media_url(Some("a\\b.png"), "x"), "a/b.png");
    assert_eq!(relative_media_url(None, "C:\\b.png"), "file:///C:/b.png");
    assert_eq!(
        move_media("![](C:/p/a.png) C:\\p\\a.png", "C:\\p\\a.png", "d/a.png"),
        "![](d/a.png) d/a.png"
    );
    assert_eq!(
        relocate_pending_media(
            "![](/p/a.png) ![](/p/b.png)",
            &vec!["/p/a.png".to_owned(), "/p/b.png".to_owned()],
            &vec!["d/a.png".to_owned(), "d/b.png".to_owned()],
        ),
        "![](d/a.png) ![](d/b.png)"
    );
}

fn steps(needs_parent: bool, answers: &[bool]) -> (Vec<WriteStep>, Option<WriteStep>) {
    let mut write = AtomicWrite::start(needs_parent);
    let mut seen = vec![write.step];
    for ok in answers {
        write.advance(*ok);
        seen.push(write.step);
    }
    (seen, write.cause)
}

#[test]
fn a_write_that_succeeds_replaces_the_file() {
    let (seen, cause) = steps(true, &[true, true, true]);
    assert_eq!(
        seen,
        vec![
            WriteStep::CreateParent,
            WriteStep::WriteTemp,
            WriteStep::Replace,
            WriteStep::Done
        ]
    );
    assert_eq!(cause, None);
}

#[test]
fn a_write_that_fails_restores_the_file() {
    let (seen, cause) = steps(false, &[true, false, true, true, true, false, false, true, true, true]);
    assert_eq!(
        seen,
        vec![
            WriteStep::WriteTemp,
            WriteStep::Replace,
            WriteStep::LookForTarget,
            WriteStep::BackUp,
            WriteStep::RemoveTarget,
            WriteStep::ReplaceRemoved,
            WriteStep::LookForRest,
            WriteStep::RestoreByRename,
            WriteStep::RemoveTemp,
            WriteStep::RemoveBackup,
            WriteStep::Failed
        ]
    );
    assert_eq!(cause, Some(WriteStep::ReplaceRemoved));
    let (seen, _) = steps(
        false,
        &[true, false, true, true, true, false, false, false, true, true, true],
    );
    assert_eq!(
        seen[7..],
        [
            WriteStep::RestoreByRename,
            WriteStep::RestoreByCopy,
            WriteStep::RemoveTemp,
            WriteStep::RemoveBackup,
            WriteStep::Failed
        ]
    );
    let (seen, cause) = steps(false, &[true, false, false, true]);
    assert_eq!(seen.last(), Some(&WriteStep::Failed));
    assert_eq!(cause, Some(WriteStep::Replace));
    let (seen, cause) = steps(false, &[true, false, true, true, true, true, true]);
    assert_eq!(seen.last(), Some(&WriteStep::Done));
    assert_eq!(cause, None);
}

#[test]
fn a_backup_that_cannot_be_restored_is_kept() {
    let (seen, cause) = steps(
        false,
        &[true, false, true, true, true, false, false, false, false, true],
    );
    assert_eq!(
        seen,
        vec![
            WriteStep::WriteTemp,
            WriteStep::Replace,
            WriteStep::LookForTarget,
            WriteStep::BackUp,
            WriteStep::RemoveTarget,
            WriteStep::ReplaceRemoved,
            WriteStep::LookForRest,
            WriteStep::RestoreByRename,
            WriteStep::RestoreByCopy,
            WriteStep::RemoveTemp,
            WriteStep::Failed
        ]
    );
    assert_eq!(cause, Some(WriteStep::ReplaceRemoved));
}
