use safe_api::files::{
    files_map_complete, is_not_hidden, processed_success_count, files_map_create, gen_file_name, gen_new_file_item, gen_normalised_paths,
    normalise_path_separator, FileExtension, FilesMap, FilesMapSync, LocalFileInfo,
    ProcessedFiles, SyncAction, FILES_MAP_PREDICATE_LINK, FILES_MAP_PREDICATE_SIZE,
    FILES_MAP_PREDICATE_TYPE, FILE_ADDED_SIGN,
};

fn processed(entries: &[(&str, &str, &str)]) -> ProcessedFiles {
    entries
        .iter()
        .map(|(k, s, l)| (k.to_string(), (s.to_string(), l.to_string())))
        .collect()
}

fn field<'a>(item: &'a [(String, String)], key: &str) -> &'a str {
    item.iter().rev().find(|(k, _)| k == key).map(|(_, v)| v.as_str()).unwrap()
}

fn get<'a>(map: &'a FilesMap, name: &str) -> Option<&'a Vec<(String, String)>> {
    map.iter().rev().find(|(k, _)| k == name).map(|(_, v)| v)
}

#[test]
fn separators_are_normalised() {
    assert_eq!(normalise_path_separator("a\\b\\c"), "a/b/c");
    assert_eq!(normalise_path_separator("a/b"), "a/b");
}

#[test]
fn normalised_paths() {
    let content = processed(&[
        ("./tests/testfolder/test.md", "+", "safe://top_xorurl"),
        ("./tests/testfolder/subfolder/subexists.md", "+", "safe://second_xorurl"),
    ]);
    let (base, prefix) = gen_normalised_paths(&content, "".to_string());
    assert_eq!(base, "/");
    assert_eq!(prefix, "./tests/testfolder");
    let single = processed(&[("./tests/testfolder/test.md", "+", "l")]);
    let (base, prefix) = gen_normalised_paths(&single, "myroot\\folder".to_string());
    assert_eq!(base, "/myroot/folder");
    assert_eq!(prefix, "/");
}

#[test]
fn file_names() {
    assert_eq!(gen_file_name("./tests/testfolder/test.md", "./tests/testfolder", "/"), "/test.md");
    assert_eq!(
        gen_file_name("./tests/testfolder/subfolder/subexists.md", "./tests/testfolder", "/"),
        "/subfolder/subexists.md"
    );
    assert_eq!(
        gen_file_name("./tests/testfolder/test.md", "./tests/testfolder", "/myroot/folder"),
        "/myroot/folder/test.md"
    );
}

fn info(size: u64, ext: Option<&str>) -> Result<LocalFileInfo, String> {
    Ok(LocalFileInfo {
        size,
        extension: match ext {
            Some(e) => FileExtension::Text(e.to_string()),
            None => FileExtension::Missing,
        },
    })
}

#[test]
fn files_map_create_names_and_items() {
    let content = processed(&[
        ("./tests/testfolder/test.md", "+", "safe://top_xorurl"),
        ("./tests/testfolder/subfolder/subexists.md", "+", "safe://second_xorurl"),
        ("./tests/testfolder/broken", "E", "<error>"),
    ]);
    let infos = vec![info(12, Some("md")), info(7, Some("md")), Err("unused".to_string())];
    let map = files_map_create(&content, "".to_string(), &infos, "NOW").unwrap();
    assert_eq!(map.len(), 2);
    let item = get(&map, "/test.md").unwrap();
    assert_eq!(field(item, "link"), "safe://top_xorurl");
    assert_eq!(field(item, "type"), "md");
    assert_eq!(field(item, "size"), "12");
    assert_eq!(field(item, "modified"), "NOW");
    assert_eq!(field(item, "created"), "NOW");
    let item = get(&map, "/subfolder/subexists.md").unwrap();
    assert_eq!(field(item, "link"), "safe://second_xorurl");
}

#[test]
fn test_files_map_create() {
    let mut processed_files = ProcessedFiles::new();
    processed_files.push((
        "./tests/testfolder/test.md".to_string(),
        (FILE_ADDED_SIGN.to_string(), "safe://top_xorurl".to_string()),
    ));
    processed_files.push((
        "./tests/testfolder/subfolder/subexists.md".to_string(),
        (FILE_ADDED_SIGN.to_string(), "safe://second_xorurl".to_string()),
    ));
    // What the file system reports of the two files: their sizes and extensions.
    let infos = vec![info(13, Some("md")), info(8, Some("md"))];
    let files_map = files_map_create(&processed_files, "".to_string(), &infos, "NOW").unwrap();
    assert_eq!(files_map.len(), 2);
    let file_item1 = get(&files_map, "/test.md").unwrap();
    assert_eq!(field(file_item1, FILES_MAP_PREDICATE_LINK), "safe://top_xorurl");
    assert_eq!(field(file_item1, FILES_MAP_PREDICATE_TYPE), "md");
    assert_eq!(field(file_item1, FILES_MAP_PREDICATE_SIZE), "13");
    let file_item2 = get(&files_map, "/subfolder/subexists.md").unwrap();
    assert_eq!(field(file_item2, FILES_MAP_PREDICATE_LINK), "safe://second_xorurl");
    assert_eq!(field(file_item2, FILES_MAP_PREDICATE_TYPE), "md");
    assert_eq!(field(file_item2, FILES_MAP_PREDICATE_SIZE), "8");
}

#[test]
fn files_map_create_errors() {
    let content = processed(&[("./a.txt", "+", "l")]);
    let err = files_map_create(&content, "".to_string(), &vec![Err("NotFound".to_string())], "t");
    assert_eq!(
        err,
        Err("Couldn't obtain metadata information for local file: NotFound".to_string())
    );
    let bad_ext = vec![Ok(LocalFileInfo { size: 1, extension: FileExtension::NotUnicode })];
    assert_eq!(files_map_create(&content, "".to_string(), &bad_ext, "t"), Err("unknown".to_string()));
    let no_ext = vec![info(3, None)];
    let map = files_map_create(&content, "".to_string(), &no_ext, "t").unwrap();
    assert_eq!(field(&map[0].1, "type"), "unknown");
}

#[test]
fn new_file_item_keeps_creation_time() {
    let item = gen_new_file_item("safe://x", "md", "5", "NOW", Some("BEFORE"));
    assert_eq!(field(&item, "created"), "BEFORE");
    assert_eq!(field(&item, "modified"), "NOW");
    let item = gen_new_file_item("safe://x", "md", "5", "NOW", None);
    assert_eq!(field(&item, "created"), "NOW");
}

fn existing_map() -> FilesMap {
    vec![
        ("/test.md".to_string(), gen_new_file_item("safe://old1", "md", "12", "T0", None)),
        ("/another.md".to_string(), gen_new_file_item("safe://old2", "md", "6", "T0", None)),
        ("/gone.md".to_string(), gen_new_file_item("safe://old3", "md", "1", "T0", None)),
    ]
}

#[test]
fn files_map_sync_keeps_updates_and_adds() {
    let content = processed(&[
        ("./tests/testfolder/another.md", "+", ""),
        ("./tests/testfolder/new.md", "+", ""),
        ("./tests/testfolder/test.md", "+", ""),
    ]);
    let mut sync = FilesMapSync::start(existing_map(), &content, "".to_string(), false);
    // unchanged file
    let a = sync.step("./tests/testfolder/another.md", info(6, Some("md"))).unwrap();
    assert!(matches!(a, SyncAction::Keep));
    // new file
    let a = sync.step("./tests/testfolder/new.md", info(3, Some("md"))).unwrap();
    match &a {
        SyncAction::Upload { name, created, .. } => {
            assert_eq!(name, "/new.md");
            assert!(created.is_none());
        }
        _ => panic!("expected an upload"),
    }
    sync.record_upload("./tests/testfolder/new.md", &a, Ok("safe://new".to_string()), "T1");
    // changed file
    let a = sync.step("./tests/testfolder/test.md", info(13, Some("md"))).unwrap();
    match &a {
        SyncAction::Upload { name, created, .. } => {
            assert_eq!(name, "/test.md");
            assert_eq!(created.as_deref(), Some("T0"));
        }
        _ => panic!("expected an upload"),
    }
    sync.record_upload("./tests/testfolder/test.md", &a, Err("no network".to_string()), "T1");
    let (processed_files, map, count) = sync.finish();
    assert_eq!(count, 1);
    assert_eq!(field(get(&map, "/new.md").unwrap(), "link"), "safe://new");
    assert_eq!(field(get(&map, "/another.md").unwrap(), "link"), "safe://old2");
    assert_eq!(field(get(&map, "/gone.md").unwrap(), "link"), "safe://old3");
    assert!(get(&map, "/test.md").is_none());
    let entry = |k: &str| processed_files.iter().rev().find(|(p, _)| p == k).map(|(_, v)| v.clone());
    assert_eq!(entry("./tests/testfolder/new.md"), Some(("+".to_string(), "safe://new".to_string())));
    assert_eq!(
        entry("./tests/testfolder/test.md"),
        Some(("E".to_string(), "<no network>".to_string()))
    );
}

#[test]
fn files_map_sync_with_delete() {
    let content = processed(&[
        ("./tests/testfolder/another.md", "+", ""),
        ("./tests/testfolder/test.md", "+", ""),
    ]);
    let mut sync = FilesMapSync::start(existing_map(), &content, "".to_string(), true);
    assert!(matches!(sync.step("./tests/testfolder/another.md", info(6, Some("md"))).unwrap(), SyncAction::Keep));
    let a = sync.step("./tests/testfolder/test.md", info(99, Some("md"))).unwrap();
    sync.record_upload("./tests/testfolder/test.md", &a, Ok("safe://v2".to_string()), "T2");
    let (processed_files, map, count) = sync.finish();
    assert_eq!(count, 1);
    assert!(get(&map, "/gone.md").is_none());
    assert_eq!(field(get(&map, "/test.md").unwrap(), "created"), "T0");
    assert_eq!(field(get(&map, "/test.md").unwrap(), "modified"), "T2");
    let entry = |k: &str| processed_files.iter().rev().find(|(p, _)| p == k).map(|(_, v)| v.clone());
    assert_eq!(entry("/gone.md"), Some(("-".to_string(), "safe://old3".to_string())));
    assert_eq!(entry("./tests/testfolder/test.md"), Some(("*".to_string(), "safe://v2".to_string())));
}

#[test]
fn files_map_sync_metadata_error() {
    let content = processed(&[("./x.md", "+", "")]);
    let mut sync = FilesMapSync::start(existing_map(), &content, "".to_string(), false);
    match sync.step("./x.md", Err("Os { code: 2 }".to_string())) {
        Err(m) => assert_eq!(
            m,
            "Couldn't obtain metadata information for local file ('./x.md'): Os { code: 2 }"
        ),
        Ok(_) => panic!("expected an error"),
    }
}

#[test]
fn hidden_entries_and_success_counts() {
    assert!(is_not_hidden(Some(".git"), 0));
    assert!(!is_not_hidden(Some(".git"), 1));
    assert!(is_not_hidden(Some("src"), 3));
    assert!(!is_not_hidden(None, 0));
    let content = processed(&[("a", "+", "l1"), ("b", "E", "<err>"), ("c", "*", "l3")]);
    assert_eq!(processed_success_count(&content), 2);
    assert_eq!(processed_success_count(&ProcessedFiles::new()), 0);
}

#[test]
fn files_map_completeness() {
    assert!(files_map_complete(&existing_map()));
    assert!(files_map_complete(&FilesMap::new()));
    let mut map = existing_map();
    map.push(("/partial.md".to_string(), vec![("link".to_string(), "safe://x".to_string())]));
    assert!(!files_map_complete(&map));
}
