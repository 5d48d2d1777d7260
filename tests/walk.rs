use trotline::{
    classify_entries, search_file, tally, EntryKind, FileRead, JobOutcome, Matcher, SearchError,
    SearchTree, Tally,
};

fn ok_file() -> SearchTree {
    SearchTree::File(JobOutcome::Finished(Ok(true)))
}

fn counts(t: &SearchTree) -> (u32, u32) {
    let c = tally(t).expect("counts fit");
    (c.successes, c.failures)
}

#[test]
fn classify_splits_files_and_directories() {
    let kinds = vec![EntryKind::File, EntryKind::Directory, EntryKind::File, EntryKind::Directory];
    assert_eq!(classify_entries(&kinds), (vec![0, 2], vec![1, 3]));
}

#[test]
fn classify_empty_directory() {
    assert_eq!(classify_entries(&Vec::new()), (vec![], vec![]));
}

#[test]
fn flat_directory_without_matches_counts_every_file() {
    let m = Matcher::new("zzz", false).unwrap();
    let mut children = Vec::new();
    for text in ["a\n", "b\nc\n", ""] {
        let r = search_file(&m, "f", &FileRead::Read(text.as_bytes().to_vec()));
        assert!(r.records.is_empty());
        children.push(SearchTree::File(JobOutcome::Finished(r.outcome)));
    }
    assert_eq!(counts(&SearchTree::Dir(children)), (3, 0));
}

#[test]
fn nested_tree_counts_files_at_every_depth() {
    let deepest = SearchTree::Dir(vec![ok_file(), ok_file()]);
    let middle = SearchTree::Dir(vec![ok_file(), deepest, SearchTree::Dir(Vec::new())]);
    let root = SearchTree::Dir(vec![ok_file(), middle, ok_file()]);
    assert_eq!(counts(&root), (5, 0));
}

#[test]
fn empty_directory_counts_nothing() {
    assert_eq!(tally(&SearchTree::Dir(Vec::new())), Some(Tally { successes: 0, failures: 0 }));
}

#[test]
fn counts_repeat_and_ignore_order() {
    let bad = || SearchTree::File(JobOutcome::Finished(Err(SearchError::FileNotFound)));
    let one = SearchTree::Dir(vec![ok_file(), bad(), SearchTree::Dir(vec![ok_file()])]);
    let other = SearchTree::Dir(vec![SearchTree::Dir(vec![ok_file()]), ok_file(), bad()]);
    assert_eq!(tally(&one), tally(&one));
    assert_eq!(tally(&one), tally(&other));
    assert_eq!(counts(&one), (2, 1));
}

#[test]
fn undecodable_file_is_one_failure_beside_its_siblings() {
    let m = Matcher::new("x", false).unwrap();
    let good = search_file(&m, "g", &FileRead::Read(b"x\n".to_vec()));
    let broken = search_file(&m, "b", &FileRead::Read(vec![0xc3, 0x28, b'\n']));
    assert_eq!(broken.outcome, Err(SearchError::IncompatibleFormat));
    let dir = SearchTree::Dir(vec![
        SearchTree::File(JobOutcome::Finished(good.outcome)),
        SearchTree::File(JobOutcome::Finished(broken.outcome)),
        ok_file(),
    ]);
    assert_eq!(counts(&dir), (2, 1));
}

#[test]
fn crashed_search_counts_as_failure() {
    let dir = SearchTree::Dir(vec![ok_file(), SearchTree::File(JobOutcome::Crashed)]);
    assert_eq!(counts(&dir), (1, 1));
    assert!(!JobOutcome::Crashed.is_success());
    assert!(JobOutcome::Finished(Ok(true)).is_success());
}

#[test]
fn missing_file_counts_as_failure() {
    let m = Matcher::new("x", false).unwrap();
    let r = search_file(&m, "gone", &FileRead::OpenFailed);
    let dir = SearchTree::Dir(vec![SearchTree::File(JobOutcome::Finished(r.outcome))]);
    assert_eq!(counts(&dir), (0, 1));
}

fn scenario(nocase: bool) -> (Vec<String>, Tally) {
    let m = Matcher::new("hello", nocase).unwrap();
    let a = search_file(&m, "a.txt", &FileRead::Read(b"hello\nworld\n".to_vec()));
    let b = search_file(&m, "b.txt", &FileRead::Read(b"HELLO\n".to_vec()));
    let c = search_file(&m, "sub/c.txt", &FileRead::Read(b"no match here\n".to_vec()));
    let mut printed = Vec::new();
    for r in [&a, &b, &c] {
        printed.extend(r.records.iter().cloned());
    }
    let root = SearchTree::Dir(vec![
        SearchTree::File(JobOutcome::Finished(a.outcome)),
        SearchTree::File(JobOutcome::Finished(b.outcome)),
        SearchTree::Dir(vec![SearchTree::File(JobOutcome::Finished(c.outcome))]),
    ]);
    (printed, tally(&root).unwrap())
}

#[test]
fn scenario_case_sensitive() {
    let (printed, t) = scenario(false);
    assert_eq!(printed, vec!["a.txt:\thello"]);
    assert_eq!(t, Tally { successes: 3, failures: 0 });
}

#[test]
fn scenario_case_insensitive() {
    let (printed, t) = scenario(true);
    assert_eq!(printed, vec!["a.txt:\thello", "b.txt:\tHELLO"]);
    assert_eq!(t, Tally { successes: 3, failures: 0 });
}
