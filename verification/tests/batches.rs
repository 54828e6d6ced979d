use fs_text_search_mcp::file::file_filter::ExtensionFileFilter;
use fs_text_search_mcp::search::file::{File, FileFilter, FileLoader, FileOperation, LoadError};
use fs_text_search_mcp::search::index_operation::{
    apply_operation, check_entries, index_entries, initialize_index, load, load_request,
    process_operations,
    receive_timeout, subscribe_operations, LoadRequest, Loaded, Received,
    MAX_BULK_OPERATION_SIZE, WAIT_MILLIS_FOR_NEXT_UPDATE_TO_BULK,
};
use fs_text_search_mcp::search::text_index::{IndexError, TextIndex};
use std::cell::RefCell;
use std::collections::HashMap;

/// A loader over a table of files; a path that the table lacks fails to load.
struct TableLoader {
    files: RefCell<HashMap<String, String>>,
    directory: Vec<Result<File, LoadError>>,
    asked: RefCell<Vec<String>>,
}

impl TableLoader {
    fn new(files: &[(&str, &str)]) -> Self {
        let table = files.iter().map(|(p, c)| (p.to_string(), c.to_string())).collect();
        TableLoader {
            files: RefCell::new(table),
            directory: Vec::new(),
            asked: RefCell::new(Vec::new()),
        }
    }

    fn with_directory(mut self, directory: Vec<Result<File, LoadError>>) -> Self {
        self.directory = directory;
        self
    }

    fn write(&self, path: &str, content: &str) {
        self.files.borrow_mut().insert(path.to_string(), content.to_string());
    }
}

fn read_failed(cause: &str) -> LoadError {
    LoadError::ReadFailed { attempts: 4, cause: cause.to_string() }
}

impl FileLoader for TableLoader {
    fn load_directory(&self, _path: &str) -> Vec<Result<File, LoadError>> {
        self.directory.clone()
    }

    fn load_file(&self, path: &str) -> Result<File, LoadError> {
        self.asked.borrow_mut().push(path.to_string());
        match self.files.borrow().get(path) {
            Some(content) => Ok(File::new(path.to_string(), content.clone())),
            None => Err(read_failed("no such file")),
        }
    }
}

fn text_filter() -> ExtensionFileFilter {
    ExtensionFileFilter::new(vec!["txt".to_string(), "md".to_string()])
}

fn created(path: &str) -> FileOperation {
    FileOperation::FileCreated(path.to_string())
}

fn modified(path: &str) -> FileOperation {
    FileOperation::FileModified(path.to_string())
}

fn renamed(old_path: &str, new_path: &str) -> FileOperation {
    FileOperation::FileRenamed { old_path: old_path.to_string(), new_path: new_path.to_string() }
}

fn hits(index: &TextIndex, keyword: &str) -> Vec<String> {
    let mut records = index.search(keyword).unwrap();
    records.sort();
    records
}

fn record(path: &str) -> String {
    format!("{{\"file_path\":[\"{}\"]}}", path)
}

#[test]
fn the_first_scan_indexes_what_the_filter_accepts() {
    let mut index = TextIndex::new().unwrap();
    let loader = TableLoader::new(&[]).with_directory(vec![
        Ok(File::new("a.txt".to_string(), "hello world".to_string())),
        Ok(File::new("b.md".to_string(), "goodbye".to_string())),
        Ok(File::new("c.log".to_string(), "ignored".to_string())),
    ]);
    initialize_index(&mut index, ".", &text_filter(), &loader).unwrap();
    assert_eq!(index.get_pending_operations(), 0);
    assert_eq!(hits(&index, "hello"), vec![record("a.txt")]);
    assert_eq!(hits(&index, "goodbye"), vec![record("b.md")]);
    assert_eq!(hits(&index, "ignored").len(), 0);
}

#[test]
fn the_first_scan_leaves_out_what_did_not_load() {
    let mut index = TextIndex::new().unwrap();
    let loader = TableLoader::new(&[]).with_directory(vec![
        Ok(File::new("a.txt".to_string(), "word".to_string())),
        Err(read_failed("busy")),
        Ok(File::new("b.txt".to_string(), "word".to_string())),
    ]);
    initialize_index(&mut index, ".", &text_filter(), &loader).unwrap();
    assert_eq!(hits(&index, "word"), vec![record("a.txt"), record("b.txt")]);
}

#[test]
fn the_first_scan_stops_at_a_path_that_does_not_fit() {
    let mut index = TextIndex::new().unwrap();
    let long = format!("{}.txt", "p".repeat(70000));
    let loader = TableLoader::new(&[]).with_directory(vec![
        Ok(File::new("a.txt".to_string(), "word".to_string())),
        Ok(File::new(long, "word".to_string())),
    ]);
    let result = initialize_index(&mut index, ".", &text_filter(), &loader);
    assert!(matches!(result, Err(IndexError::PathTooLong)));
    assert_eq!(hits(&index, "word").len(), 0);
}

#[test]
fn create_then_modify_in_one_batch() {
    let mut index = TextIndex::new().unwrap();
    let loader = TableLoader::new(&[("x.txt", "alpha")]);
    let filter = text_filter();
    let mut batch: Vec<FileOperation> = Vec::new();
    assert!(subscribe_operations(&mut batch, Received::Operation(created("x.txt"))).flush.is_none());
    assert!(subscribe_operations(&mut batch, Received::Operation(modified("x.txt"))).flush.is_none());
    let flush = subscribe_operations(&mut batch, Received::TimedOut).flush.unwrap();
    assert_eq!(flush.len(), 2);

    let request = load_request(&filter, &flush[0]);
    let loaded = load(&loader, &request);
    apply_operation(&mut index, &filter, &flush[0], &loaded).unwrap();
    loader.write("x.txt", "beta");
    let request = load_request(&filter, &flush[1]);
    let loaded = load(&loader, &request);
    apply_operation(&mut index, &filter, &flush[1], &loaded).unwrap();
    assert_eq!(hits(&index, "alpha").len(), 0);
    assert_eq!(hits(&index, "beta").len(), 0);
    index.commit().unwrap();

    assert_eq!(hits(&index, "alpha").len(), 0);
    assert_eq!(hits(&index, "beta"), vec![record("x.txt")]);
}

#[test]
fn ten_operations_make_one_batch() {
    let mut index = TextIndex::new().unwrap();
    let filter = text_filter();
    let loader = TableLoader::new(&[]);
    let mut batch: Vec<FileOperation> = Vec::new();
    let mut flushes: Vec<Vec<FileOperation>> = Vec::new();
    for i in 0..10 {
        let path = format!("file{}.txt", i);
        loader.write(&path, "coalesced");
        let step = subscribe_operations(&mut batch, Received::Operation(created(&path)));
        assert!(!step.stop);
        if let Some(flush) = step.flush {
            flushes.push(flush);
        }
    }
    assert_eq!(flushes.len(), 1);
    assert_eq!(flushes[0].len(), MAX_BULK_OPERATION_SIZE);
    assert!(batch.is_empty());
    assert_eq!(receive_timeout(&batch), None);
    let step = subscribe_operations(&mut batch, Received::TimedOut);
    assert!(step.flush.is_none());

    let failures = process_operations(&mut index, &filter, &loader, &flushes[0]).unwrap();
    assert!(failures.is_empty());
    assert_eq!(index.get_pending_operations(), 0);
    assert_eq!(index.search("coalesced").unwrap().len(), 10);
}

#[test]
fn nine_operations_wait_for_the_tenth() {
    let mut batch: Vec<FileOperation> = Vec::new();
    for i in 0..9 {
        let step = subscribe_operations(&mut batch, Received::Operation(created(&format!("{}.txt", i))));
        assert!(step.flush.is_none());
        assert_eq!(receive_timeout(&batch), Some(500));
    }
    assert_eq!(WAIT_MILLIS_FOR_NEXT_UPDATE_TO_BULK, 500);
    assert_eq!(batch.len(), 9);
    let step = subscribe_operations(&mut batch, Received::Operation(created("9.txt")));
    let flush = step.flush.unwrap();
    assert_eq!(flush.len(), 10);
    assert!(matches!(&flush[0], FileOperation::FileCreated(p) if p == "0.txt"));
    assert!(matches!(&flush[9], FileOperation::FileCreated(p) if p == "9.txt"));
    assert!(batch.is_empty());
}

#[test]
fn a_closed_queue_flushes_what_is_left_and_stops() {
    let mut batch: Vec<FileOperation> = Vec::new();
    subscribe_operations(&mut batch, Received::Operation(created("a.txt")));
    subscribe_operations(&mut batch, Received::Operation(created("b.txt")));
    let step = subscribe_operations(&mut batch, Received::Disconnected);
    assert!(step.stop);
    let flush = step.flush.unwrap();
    assert_eq!(flush.len(), 2);
    assert!(matches!(&flush[0], FileOperation::FileCreated(p) if p == "a.txt"));
    assert!(matches!(&flush[1], FileOperation::FileCreated(p) if p == "b.txt"));
    assert!(batch.is_empty());

    let step = subscribe_operations(&mut batch, Received::Disconnected);
    assert!(step.stop);
    assert!(step.flush.is_none());
}

#[test]
fn every_operation_before_the_close_reaches_the_directory() {
    let directory = tempfile::tempdir().unwrap();
    let path = directory.path().to_str().unwrap().to_string();
    let filter = text_filter();
    let loader = TableLoader::new(&[]);
    {
        let mut index = TextIndex::new_with_directory(&path).unwrap();
        let mut batch: Vec<FileOperation> = Vec::new();
        let mut receives: Vec<Received> = Vec::new();
        for i in 0..23 {
            let name = format!("shut{}.txt", i);
            loader.write(&name, "shutdown");
            receives.push(Received::Operation(created(&name)));
        }
        receives.push(Received::Disconnected);
        let mut stopped = false;
        for received in receives {
            let step = subscribe_operations(&mut batch, received);
            if let Some(flush) = step.flush {
                process_operations(&mut index, &filter, &loader, &flush).unwrap();
            }
            stopped = step.stop;
        }
        assert!(stopped);
        assert!(batch.is_empty());
        index.commit().unwrap();
    }
    let index = TextIndex::new_with_directory(&path).unwrap();
    let mut all = 0;
    for i in 0..23 {
        all += index.search(&format!("shutdown AND file_path:\"shut{}.txt\"", i)).unwrap().len();
    }
    assert_eq!(all, 23);
}

#[test]
fn deleting_a_file_that_was_never_indexed_changes_nothing() {
    let mut index = TextIndex::new().unwrap();
    let filter = text_filter();
    let loader = TableLoader::new(&[("a.txt", "word")]);
    process_operations(&mut index, &filter, &loader, &vec![created("a.txt")]).unwrap();
    let failures = process_operations(
        &mut index,
        &filter,
        &loader,
        &vec![FileOperation::FileDeleted("foo.log".to_string())],
    )
    .unwrap();
    assert!(failures.is_empty());
    assert_eq!(hits(&index, "word"), vec![record("a.txt")]);
}

#[test]
fn a_file_that_does_not_load_is_skipped_and_the_batch_goes_on() {
    let mut index = TextIndex::new().unwrap();
    let filter = text_filter();
    let loader = TableLoader::new(&[("a.txt", "word"), ("c.txt", "word")]);
    let operations = vec![created("a.txt"), created("b.txt"), modified("gone.txt"), created("c.txt")];
    let failures = process_operations(&mut index, &filter, &loader, &operations).unwrap();
    assert_eq!(failures.len(), 2);
    assert_eq!(failures[0].message(), "Failed to read file after 4 attempts: no such file");
    assert_eq!(hits(&index, "word"), vec![record("a.txt"), record("c.txt")]);
}

#[test]
fn a_rename_whose_new_file_does_not_load_keeps_the_old_document() {
    let mut index = TextIndex::new().unwrap();
    let filter = text_filter();
    let loader = TableLoader::new(&[("old.txt", "word")]);
    process_operations(&mut index, &filter, &loader, &vec![created("old.txt")]).unwrap();
    let failures =
        process_operations(&mut index, &filter, &loader, &vec![renamed("old.txt", "new.txt")])
            .unwrap();
    assert_eq!(failures.len(), 1);
    assert_eq!(hits(&index, "word"), vec![record("old.txt")]);
}

#[test]
fn an_error_of_the_index_ends_the_batch_without_a_commit() {
    let mut index = TextIndex::new().unwrap();
    let filter = text_filter();
    let long = format!("{}.txt", "p".repeat(70000));
    let loader = TableLoader::new(&[("a.txt", "word"), (&long, "word"), ("b.txt", "word")]);
    let operations = vec![created("a.txt"), created(&long), created("b.txt")];
    let result = process_operations(&mut index, &filter, &loader, &operations);
    assert!(matches!(result, Err(IndexError::PathTooLong)));
    assert_eq!(hits(&index, "word").len(), 0);
    assert_eq!(index.get_pending_operations(), 1);
    assert_eq!(*loader.asked.borrow(), vec!["a.txt".to_string(), long]);

    process_operations(&mut index, &filter, &loader, &vec![created("b.txt")]).unwrap();
    assert_eq!(hits(&index, "word"), vec![record("a.txt"), record("b.txt")]);
}

#[test]
fn the_filter_decides_what_a_creation_and_a_modification_load() {
    let filter = text_filter();
    assert!(matches!(load_request(&filter, &created("a.txt")), LoadRequest::File(p) if p == "a.txt"));
    assert!(matches!(load_request(&filter, &created("a.log")), LoadRequest::Nothing));
    assert!(matches!(load_request(&filter, &modified("b.md")), LoadRequest::File(p) if p == "b.md"));
    assert!(matches!(load_request(&filter, &modified("b")), LoadRequest::Nothing));
    assert!(matches!(
        load_request(&filter, &FileOperation::FileDeleted("a.txt".to_string())),
        LoadRequest::Nothing
    ));
    assert!(matches!(
        load_request(&filter, &FileOperation::DirectoryDeleted("dir.txt".to_string())),
        LoadRequest::Nothing
    ));
}

#[test]
fn a_rename_loads_the_new_path_and_a_directory_rename_the_new_directory() {
    let filter = text_filter();
    assert!(matches!(
        load_request(&filter, &renamed("a.log", "b.txt")),
        LoadRequest::File(p) if p == "b.txt"
    ));
    assert!(matches!(load_request(&filter, &renamed("a.txt", "b.log")), LoadRequest::Nothing));
    let moved = FileOperation::DirectoryRenamed {
        old_path: "/old".to_string(),
        new_path: "/new".to_string(),
    };
    assert!(matches!(load_request(&filter, &moved), LoadRequest::Directory(p) if p == "/new"));
}

#[test]
fn load_asks_the_loader_for_what_is_requested() {
    let loader = TableLoader::new(&[("a.txt", "alpha")]).with_directory(vec![Ok(File::new(
        "/new/x.txt".to_string(),
        "x".to_string(),
    ))]);
    assert!(matches!(load(&loader, &LoadRequest::Nothing), Loaded::Nothing));
    assert!(loader.asked.borrow().is_empty());
    match load(&loader, &LoadRequest::File("a.txt".to_string())) {
        Loaded::File(Ok(file)) => {
            assert_eq!(file.path, "a.txt");
            assert_eq!(file.content, "alpha");
        },
        _ => panic!("a file was asked for"),
    }
    assert!(matches!(load(&loader, &LoadRequest::File("b.txt".to_string())), Loaded::File(Err(_))));
    match load(&loader, &LoadRequest::Directory("/new".to_string())) {
        Loaded::Directory(entries) => assert_eq!(entries.len(), 1),
        _ => panic!("a directory was asked for"),
    }
}

fn index_with(paths: &[&str]) -> TextIndex {
    let mut index = TextIndex::new().unwrap();
    for path in paths {
        index.add_doc(&File::new(path.to_string(), "word".to_string())).unwrap();
    }
    index.commit().unwrap();
    index
}

fn loaded_file(path: &str) -> Loaded {
    Loaded::File(Ok(File::new(path.to_string(), "word".to_string())))
}

#[test]
fn a_rename_between_accepted_paths_moves_the_document() {
    let mut index = index_with(&["old.txt", "other.txt"]);
    let filter = text_filter();
    apply_operation(&mut index, &filter, &renamed("old.txt", "new.txt"), &loaded_file("new.txt"))
        .unwrap();
    assert_eq!(index.get_pending_operations(), 2);
    index.commit().unwrap();
    assert_eq!(hits(&index, "word"), vec![record("new.txt"), record("other.txt")]);
}

#[test]
fn a_rename_out_of_the_filter_deletes_the_document() {
    let mut index = index_with(&["old.txt", "other.txt"]);
    let filter = text_filter();
    apply_operation(&mut index, &filter, &renamed("old.txt", "old.bak"), &Loaded::Nothing).unwrap();
    assert_eq!(index.get_pending_operations(), 1);
    index.commit().unwrap();
    assert_eq!(hits(&index, "word"), vec![record("other.txt")]);
}

#[test]
fn a_rename_into_the_filter_adds_the_document() {
    let mut index = index_with(&["other.txt"]);
    let filter = text_filter();
    apply_operation(&mut index, &filter, &renamed("new.tmp", "new.txt"), &loaded_file("new.txt"))
        .unwrap();
    assert_eq!(index.get_pending_operations(), 1);
    index.commit().unwrap();
    assert_eq!(hits(&index, "word"), vec![record("new.txt"), record("other.txt")]);
}

#[test]
fn a_rename_outside_the_filter_does_nothing() {
    let mut index = index_with(&["other.txt"]);
    let filter = text_filter();
    apply_operation(&mut index, &filter, &renamed("a.tmp", "b.tmp"), &Loaded::Nothing).unwrap();
    assert_eq!(index.get_pending_operations(), 0);
    assert_eq!(hits(&index, "word"), vec![record("other.txt")]);
}

#[test]
fn a_creation_outside_the_filter_does_nothing_even_with_a_file() {
    let mut index = index_with(&[]);
    let filter = text_filter();
    apply_operation(&mut index, &filter, &created("a.log"), &loaded_file("a.log")).unwrap();
    apply_operation(&mut index, &filter, &modified("a.log"), &loaded_file("a.log")).unwrap();
    assert_eq!(index.get_pending_operations(), 0);
}

#[test]
fn an_operation_without_its_file_does_nothing() {
    let mut index = index_with(&["a.txt"]);
    let filter = text_filter();
    apply_operation(&mut index, &filter, &created("b.txt"), &Loaded::Nothing).unwrap();
    apply_operation(&mut index, &filter, &modified("a.txt"), &Loaded::File(Err(read_failed("x"))))
        .unwrap();
    apply_operation(&mut index, &filter, &renamed("a.txt", "c.txt"), &Loaded::Directory(vec![]))
        .unwrap();
    assert_eq!(index.get_pending_operations(), 0);
    assert_eq!(hits(&index, "word"), vec![record("a.txt")]);
}

#[test]
fn a_directory_rename_drops_the_old_paths_and_adds_the_accepted_new_ones() {
    let mut index = index_with(&["/indir/a.txt", "/indir/b.txt", "/else/c.txt"]);
    let filter = text_filter();
    let moved = FileOperation::DirectoryRenamed {
        old_path: "/indir".to_string(),
        new_path: "/renamed".to_string(),
    };
    let loaded = Loaded::Directory(vec![
        Ok(File::new("/renamed/a.txt".to_string(), "word".to_string())),
        Err(read_failed("busy")),
        Ok(File::new("/renamed/skip.log".to_string(), "word".to_string())),
        Ok(File::new("/renamed/b.txt".to_string(), "word".to_string())),
    ]);
    apply_operation(&mut index, &filter, &moved, &loaded).unwrap();
    assert_eq!(index.get_pending_operations(), 4);
    index.commit().unwrap();
    let found = hits(&index, "word");
    assert_eq!(found, vec![record("/else/c.txt"), record("/renamed/a.txt"), record("/renamed/b.txt")]);
    assert!(!found.iter().any(|r| r.contains("/indir/")));
}

#[test]
fn index_entries_adds_in_order_what_loaded_and_is_accepted() {
    let mut index = index_with(&[]);
    let filter = text_filter();
    let entries = vec![
        Ok(File::new("a.txt".to_string(), "word".to_string())),
        Ok(File::new("b.log".to_string(), "word".to_string())),
        Err(read_failed("busy")),
        Ok(File::new("c.md".to_string(), "word".to_string())),
    ];
    index_entries(&mut index, &filter, &entries).unwrap();
    assert_eq!(index.get_pending_operations(), 2);
    assert_eq!(hits(&index, "word").len(), 0);
    index.commit().unwrap();
    assert_eq!(hits(&index, "word"), vec![record("a.txt"), record("c.md")]);
}

#[test]
fn modifications_keep_one_document_for_each_path() {
    let mut index = TextIndex::new().unwrap();
    let filter = text_filter();
    let loader = TableLoader::new(&[("a.txt", "word"), ("b.txt", "word")]);
    let operations =
        vec![modified("a.txt"), modified("b.txt"), modified("a.txt"), renamed("b.txt", "b.txt")];
    process_operations(&mut index, &filter, &loader, &operations).unwrap();
    process_operations(&mut index, &filter, &loader, &operations).unwrap();
    assert_eq!(hits(&index, "word"), vec![record("a.txt"), record("b.txt")]);
}

#[test]
fn every_indexed_path_passes_the_filter() {
    let mut index = TextIndex::new().unwrap();
    let filter = text_filter();
    let loader = TableLoader::new(&[
        ("a.txt", "word"),
        ("b.log", "word"),
        ("c.md", "word"),
        ("d", "word"),
    ])
    .with_directory(vec![
        Ok(File::new("/new/e.txt".to_string(), "word".to_string())),
        Ok(File::new("/new/f.bin".to_string(), "word".to_string())),
    ]);
    let operations = vec![
        created("a.txt"),
        created("b.log"),
        modified("c.md"),
        modified("d"),
        renamed("a.txt", "a.log"),
        renamed("x.log", "c.md"),
        FileOperation::DirectoryRenamed { old_path: "/old".to_string(), new_path: "/new".to_string() },
    ];
    process_operations(&mut index, &filter, &loader, &operations).unwrap();
    let found = hits(&index, "word");
    assert_eq!(found, vec![record("/new/e.txt"), record("c.md"), record("c.md")]);
    for path in ["/new/e.txt", "c.md"] {
        assert!(filter.is_target(path));
    }
}

#[test]
fn a_deleted_directory_leaves_no_document_under_it() {
    let mut index = index_with(&["/d/a.txt", "/d/sub/b.txt", "/e/c.txt"]);
    let filter = text_filter();
    let loader = TableLoader::new(&[]);
    let operations = vec![FileOperation::DirectoryDeleted("/d".to_string())];
    process_operations(&mut index, &filter, &loader, &operations).unwrap();
    assert_eq!(hits(&index, "word"), vec![record("/e/c.txt")]);
}

#[test]
fn a_batch_applied_twice_leaves_the_same_documents() {
    let mut index = index_with(&["/d/a.txt", "gone.txt", "keep.txt"]);
    let filter = text_filter();
    let loader = TableLoader::new(&[("x.txt", "word"), ("y.txt", "word")]).with_directory(vec![
        Ok(File::new("/n/a.txt".to_string(), "word".to_string())),
    ]);
    let operations = vec![
        created("x.txt"),
        modified("y.txt"),
        FileOperation::FileDeleted("gone.txt".to_string()),
        renamed("x.txt", "y.txt"),
        FileOperation::DirectoryRenamed { old_path: "/d".to_string(), new_path: "/n".to_string() },
    ];
    process_operations(&mut index, &filter, &loader, &operations).unwrap();
    let mut once = hits(&index, "word");
    process_operations(&mut index, &filter, &loader, &operations).unwrap();
    let mut twice = hits(&index, "word");
    once.dedup();
    twice.dedup();
    assert_eq!(once, vec![record("/n/a.txt"), record("keep.txt"), record("y.txt")]);
    assert_eq!(once, twice);
}

#[test]
fn a_directory_renamed_onto_itself_keeps_one_document_for_each_file() {
    let mut index = index_with(&["/d/a.txt", "/d/b.txt"]);
    let filter = text_filter();
    let loader = TableLoader::new(&[]).with_directory(vec![
        Ok(File::new("/d/a.txt".to_string(), "word".to_string())),
        Ok(File::new("/d/b.txt".to_string(), "word".to_string())),
    ]);
    let operations = vec![FileOperation::DirectoryRenamed {
        old_path: "/d".to_string(),
        new_path: "/d".to_string(),
    }];
    process_operations(&mut index, &filter, &loader, &operations).unwrap();
    assert_eq!(hits(&index, "word"), vec![record("/d/a.txt"), record("/d/b.txt")]);
}

#[test]
fn a_directory_deleted_in_the_batch_that_created_its_file_takes_the_file_with_it() {
    let mut index = TextIndex::new().unwrap();
    let filter = text_filter();
    let loader = TableLoader::new(&[("/d/a.txt", "word"), ("/e/b.txt", "word")]);
    let operations = vec![
        created("/d/a.txt"),
        created("/e/b.txt"),
        FileOperation::DirectoryDeleted("/d".to_string()),
    ];
    process_operations(&mut index, &filter, &loader, &operations).unwrap();
    assert_eq!(hits(&index, "word"), vec![record("/e/b.txt")]);
    process_operations(&mut index, &filter, &loader, &operations).unwrap();
    let mut twice = hits(&index, "word");
    twice.dedup();
    assert_eq!(twice, vec![record("/e/b.txt")]);
}

#[test]
fn a_batch_that_the_filter_keeps_out_asks_nothing_of_the_index() {
    let mut index = index_with(&["a.txt"]);
    let filter = text_filter();
    let loader = TableLoader::new(&[("b.log", "word")]);
    let operations = vec![created("b.log"), modified("c"), renamed("d.tmp", "e.bak")];
    let failures = process_operations(&mut index, &filter, &loader, &operations).unwrap();
    assert!(failures.is_empty());
    assert!(loader.asked.borrow().is_empty());
    assert_eq!(index.get_pending_operations(), 0);
    assert_eq!(hits(&index, "word"), vec![record("a.txt")]);
    let failures = process_operations(&mut index, &filter, &loader, &Vec::new()).unwrap();
    assert!(failures.is_empty());
}

#[test]
fn entries_that_the_filter_keeps_out_ask_nothing_of_the_index() {
    let mut index = index_with(&[]);
    let filter = text_filter();
    let entries = vec![
        Ok(File::new("a.log".to_string(), "word".to_string())),
        Err(read_failed("busy")),
    ];
    index_entries(&mut index, &filter, &entries).unwrap();
    index_entries(&mut index, &filter, &Vec::new()).unwrap();
    assert_eq!(index.get_pending_operations(), 0);
}

#[test]
fn an_operation_that_brings_a_path_too_long_does_nothing_at_all() {
    let mut index = index_with(&["/d/a.txt", "old.txt"]);
    let filter = text_filter();
    let long = format!("/n/{}.txt", "p".repeat(70000));

    let rename = renamed("old.txt", &long);
    let result = apply_operation(&mut index, &filter, &rename, &loaded_file(&long));
    assert!(matches!(result, Err(IndexError::PathTooLong)));
    assert_eq!(index.get_pending_operations(), 0);

    let moved = FileOperation::DirectoryRenamed {
        old_path: "/d".to_string(),
        new_path: "/n".to_string(),
    };
    let loaded = Loaded::Directory(vec![
        Ok(File::new("/n/a.txt".to_string(), "word".to_string())),
        Ok(File::new(long.clone(), "word".to_string())),
    ]);
    let result = apply_operation(&mut index, &filter, &moved, &loaded);
    assert!(matches!(result, Err(IndexError::PathTooLong)));
    assert_eq!(index.get_pending_operations(), 0);

    let result = index_entries(&mut index, &filter, &vec![
        Ok(File::new("b.txt".to_string(), "word".to_string())),
        Ok(File::new(long.clone(), "word".to_string())),
    ]);
    assert!(matches!(result, Err(IndexError::PathTooLong)));
    assert_eq!(index.get_pending_operations(), 0);
    index.commit().unwrap();
    assert_eq!(hits(&index, "word"), vec![record("/d/a.txt"), record("old.txt")]);
}

#[test]
fn a_path_too_long_that_the_filter_rejects_is_no_obstacle() {
    let mut index = index_with(&[]);
    let filter = text_filter();
    let long = format!("{}.log", "p".repeat(70000));
    let entries = vec![
        Ok(File::new(long, "word".to_string())),
        Ok(File::new("a.txt".to_string(), "word".to_string())),
    ];
    assert!(check_entries(&filter, &entries));
    index_entries(&mut index, &filter, &entries).unwrap();
    index.commit().unwrap();
    assert_eq!(hits(&index, "word"), vec![record("a.txt")]);
    let long = format!("{}.txt", "p".repeat(70000));
    assert!(!check_entries(&filter, &vec![Ok(File::new(long, "word".to_string()))]));
    assert!(check_entries(&filter, &vec![Err(read_failed("x"))]));
    assert!(check_entries(&filter, &Vec::new()));
}

#[test]
fn a_path_fits_up_to_the_limit_of_the_engine() {
    assert!(TextIndex::fits(""));
    assert!(TextIndex::fits("a.txt"));
    assert!(TextIndex::fits(&"p".repeat(65530)));
    assert!(!TextIndex::fits(&"p".repeat(65531)));
}
