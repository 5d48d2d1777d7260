use trotline::{search_file, split_lines, ConfigError, FileRead, Matcher, SearchError};

fn matcher(pattern: &str, nocase: bool) -> Matcher {
    match Matcher::new(pattern, nocase) {
        Ok(m) => m,
        Err(e) => panic!("pattern {:?} did not compile: {:?}", pattern, e),
    }
}

fn read(text: &str) -> FileRead {
    FileRead::Read(text.as_bytes().to_vec())
}

fn lines(text: &[u8]) -> Vec<Vec<u8>> {
    split_lines(&text.to_vec())
}

#[test]
fn split_lines_on_newlines() {
    assert_eq!(lines(b"hello\nworld\n"), vec![b"hello".to_vec(), b"world".to_vec()]);
}

#[test]
fn split_lines_keeps_unterminated_last_line() {
    assert_eq!(lines(b"one\ntwo"), vec![b"one".to_vec(), b"two".to_vec()]);
}

#[test]
fn split_lines_strips_crlf() {
    assert_eq!(lines(b"a\r\nb\r\n"), vec![b"a".to_vec(), b"b".to_vec()]);
}

#[test]
fn split_lines_keeps_carriage_return_without_newline() {
    assert_eq!(lines(b"a\r"), vec![b"a\r".to_vec()]);
}

#[test]
fn split_lines_of_empty_input() {
    assert_eq!(lines(b""), Vec::<Vec<u8>>::new());
}

#[test]
fn split_lines_keeps_empty_lines() {
    assert_eq!(lines(b"\n\nx\n"), vec![b"".to_vec(), b"".to_vec(), b"x".to_vec()]);
}

#[test]
fn invalid_pattern_is_rejected() {
    assert!(matches!(Matcher::new("(unclosed", false), Err(ConfigError::InvalidPattern)));
    assert!(matches!(Matcher::new("[a-", true), Err(ConfigError::InvalidPattern)));
}

#[test]
fn every_matching_line_gives_one_record() {
    let m = matcher("foo", false);
    let r = search_file(&m, "dir/f.txt", &read("foo 1\nbar\nfoo 2\nfoofoo\n"));
    assert_eq!(
        r.records,
        vec!["dir/f.txt:\tfoo 1", "dir/f.txt:\tfoo 2", "dir/f.txt:\tfoofoo"]
    );
    assert_eq!(r.outcome, Ok(true));
}

#[test]
fn single_matching_line_gives_single_record() {
    let m = matcher("needle", false);
    let r = search_file(&m, "f", &read("hay\nneedle\nhay\n"));
    assert_eq!(r.records, vec!["f:\tneedle"]);
    assert_eq!(r.outcome, Ok(true));
}

#[test]
fn no_match_still_processed() {
    let m = matcher("zzz", false);
    let r = search_file(&m, "f", &read("abc\ndef\n"));
    assert!(r.records.is_empty());
    assert_eq!(r.outcome, Ok(true));
}

#[test]
fn case_insensitive_flag_matches_other_case() {
    let m = matcher("ABC", true);
    let r = search_file(&m, "f", &read("xx abc yy\n"));
    assert_eq!(r.records, vec!["f:\txx abc yy"]);
}

#[test]
fn case_sensitive_search_ignores_other_case() {
    let m = matcher("ABC", false);
    let r = search_file(&m, "f", &read("xx abc yy\n"));
    assert!(r.records.is_empty());
    assert_eq!(r.outcome, Ok(true));
}

#[test]
fn regular_expression_syntax_is_honoured() {
    let m = matcher("^h.llo$", false);
    let r = search_file(&m, "f", &read("hallo\nhello world\nhxllo\n"));
    assert_eq!(r.records, vec!["f:\thallo", "f:\thxllo"]);
}

#[test]
fn crlf_is_not_part_of_the_line() {
    let m = matcher("end$", false);
    let r = search_file(&m, "f", &read("the end\r\n"));
    assert_eq!(r.records, vec!["f:\tthe end"]);
}

#[test]
fn non_ascii_text_is_decoded() {
    let m = matcher("é", false);
    let r = search_file(&m, "f", &read("caf\u{e9}\ntea\n"));
    assert_eq!(r.records, vec!["f:\tcaf\u{e9}"]);
    assert_eq!(r.outcome, Ok(true));
}

#[test]
fn undecodable_line_fails_and_keeps_earlier_records() {
    let m = matcher("a", false);
    let mut bytes = b"a1\nb\n".to_vec();
    bytes.extend_from_slice(&[0xff, 0xfe, b'a', b'\n']);
    bytes.extend_from_slice(b"a2\n");
    let r = search_file(&m, "f", &FileRead::Read(bytes));
    assert_eq!(r.records, vec!["f:\ta1"]);
    assert_eq!(r.outcome, Err(SearchError::IncompatibleFormat));
}

#[test]
fn unopenable_file_fails_with_file_not_found() {
    let m = matcher("a", false);
    let r = search_file(&m, "f", &FileRead::OpenFailed);
    assert!(r.records.is_empty());
    assert_eq!(r.outcome, Err(SearchError::FileNotFound));
}

#[test]
fn unreadable_file_fails_with_incompatible_format() {
    let m = matcher("a", false);
    let r = search_file(&m, "f", &FileRead::ReadFailed);
    assert!(r.records.is_empty());
    assert_eq!(r.outcome, Err(SearchError::IncompatibleFormat));
}

#[test]
fn empty_file_is_processed() {
    let m = matcher("", false);
    let r = search_file(&m, "f", &read(""));
    assert!(r.records.is_empty());
    assert_eq!(r.outcome, Ok(true));
}
