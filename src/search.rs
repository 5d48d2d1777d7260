//! Searching the lines of one file.
use vstd::prelude::*;
use crate::matcher::{line_matches, regex_is_match, Matcher};
use crate::tally::{
    count_where, count_where_all, failure_pred, success_pred, JobOutcome, SearchError, SearchTree,
};
use crate::text::{decode_utf8, lines_of, split_lines, utf8_decode};

verus! {

/// What reading a file gave.
pub enum FileRead {
    /// The file could not be opened.
    OpenFailed,
    /// The file was opened, but reading it failed.
    ReadFailed,
    /// The whole content of the file.
    Read(Vec<u8>),
}

/// What searching one file gave: the output records of its matching lines,
/// in file order, and the outcome of the file.
pub struct FileSearch {
    pub records: Vec<String>,
    pub outcome: Result<bool, SearchError>,
}

/// The output record of a matching line: the file's path, a colon, a tab,
/// then the line.
pub open spec fn record_of(path: Seq<char>, line: Seq<char>) -> Seq<char> {
    path + seq![':', '\t'] + line
}

/// The records of the matching lines of `ls`, and whether every line of `ls`
/// decoded. Lines after the first one that does not decode are not searched.
pub open spec fn scan_search(pattern: Seq<char>, nocase: bool, path: Seq<char>, ls: Seq<Seq<u8>>) -> (
    Seq<Seq<char>>,
    bool,
)
    decreases ls.len(),
{
    if ls.len() == 0 {
        (seq![], true)
    } else {
        let prev = scan_search(pattern, nocase, path, ls.drop_last());
        if !prev.1 {
            prev
        } else {
            match utf8_decode(ls.last()) {
                None => (prev.0, false),
                Some(t) => if line_matches(pattern, nocase, t) {
                    (prev.0.push(record_of(path, t)), true)
                } else {
                    prev
                },
            }
        }
    }
}

/// The records and the outcome of searching the content `b` of the file at
/// `path`.
pub open spec fn search_bytes(m: (Seq<char>, bool), path: Seq<char>, b: Seq<u8>) -> (
    Seq<Seq<char>>,
    Result<bool, SearchError>,
) {
    let s = scan_search(m.0, m.1, path, lines_of(b));
    (s.0, if s.1 { Ok(true) } else { Err(SearchError::IncompatibleFormat) })
}

/// The records and the outcome of searching a file that was read as `read`.
pub open spec fn search_result(m: (Seq<char>, bool), path: Seq<char>, read: FileRead) -> (
    Seq<Seq<char>>,
    Result<bool, SearchError>,
) {
    match read {
        FileRead::OpenFailed => (seq![], Err(SearchError::FileNotFound)),
        FileRead::ReadFailed => (seq![], Err(SearchError::IncompatibleFormat)),
        FileRead::Read(b) => search_bytes(m, path, b@),
    }
}

/// The views of a sequence of strings.
pub open spec fn string_views(s: Seq<String>) -> Seq<Seq<char>> {
    s.map_values(|x: String| x@)
}

/// Searches the lines of a file that was read as `read`: each line that the
/// pattern matches gives one record, in file order. A file that could not be
/// opened fails with `FileNotFound`; one that could not be read, or holds a
/// line that is not UTF-8, fails with `IncompatibleFormat`, and keeps the
/// records of the lines before that one.
pub fn search_file(m: &Matcher, path: &str, read: &FileRead) -> (r: FileSearch)
    ensures
        (string_views(r.records@), r.outcome) == search_result(m@, path@, *read),
{
    match read {
        FileRead::OpenFailed => FileSearch { records: Vec::new(), outcome: Err(SearchError::FileNotFound) },
        FileRead::ReadFailed => FileSearch {
            records: Vec::new(),
            outcome: Err(SearchError::IncompatibleFormat),
        },
        FileRead::Read(bytes) => {
            let lines = split_lines(bytes);
            let ghost ls = lines_of(bytes@);
            let mut records: Vec<String> = Vec::new();
            let mut i: usize = 0;
            assert(ls.subrange(0, 0) =~= Seq::<Seq<u8>>::empty());
            while i < lines.len()
                invariant
                    0 <= i <= lines@.len(),
                    ls == lines_of(bytes@),
                    *read == FileRead::Read(*bytes),
                    crate::text::byte_views(lines@) == ls,
                    scan_search(m@.0, m@.1, path@, ls.subrange(0, i as int)) == (
                        string_views(records@),
                        true,
                    ),
                decreases lines.len() - i,
            {
                let ghost prefix = ls.subrange(0, i + 1);
                assert(prefix.drop_last() =~= ls.subrange(0, i as int));
                assert(prefix.last() == lines@[i as int]@);
                match decode_utf8(lines[i].as_slice()) {
                    None => {
                        let ghost rest = ls.subrange(i + 1, ls.len() as int);
                        proof {
                            assert(utf8_decode(prefix.last()) is None);
                            assert(!scan_search(m@.0, m@.1, path@, prefix).1);
                            lemma_scan_stops(m@.0, m@.1, path@, prefix, rest);
                            assert(prefix + rest =~= ls);
                        }
                        return FileSearch { records, outcome: Err(SearchError::IncompatibleFormat) };
                    },
                    Some(text) => {
                        if regex_is_match(m, text.as_str()) {
                            let ghost old_records = records@;
                            let sep = ":\t";
                            proof {
                                reveal_strlit(":\t");
                                assert(sep@ =~= seq![':', '\t']);
                            }
                            let mut rec = String::from_str(path);
                            rec.append(sep);
                            rec.append(text.as_str());
                            assert(rec@ =~= record_of(path@, text@));
                            records.push(rec);
                            assert(string_views(records@) =~= string_views(old_records).push(
                                record_of(path@, text@),
                            ));
                        }
                    },
                }
                i = i + 1;
            }
            assert(ls.subrange(0, i as int) =~= ls);
            FileSearch { records, outcome: Ok(true) }
        },
    }
}

/// Once a line fails to decode, the lines after it change nothing.
proof fn lemma_scan_stops(
    pattern: Seq<char>,
    nocase: bool,
    path: Seq<char>,
    ls: Seq<Seq<u8>>,
    rest: Seq<Seq<u8>>,
)
    requires
        !scan_search(pattern, nocase, path, ls).1,
    ensures
        scan_search(pattern, nocase, path, ls + rest) == scan_search(pattern, nocase, path, ls),
    decreases rest.len(),
{
    if rest.len() > 0 {
        let r0 = rest.drop_last();
        assert((ls + rest).drop_last() =~= ls + r0);
        lemma_scan_stops(pattern, nocase, path, ls, r0);
    } else {
        assert(ls + rest =~= ls);
    }
}

/// Whether every line of `b` decodes as UTF-8.
pub open spec fn all_lines_decode(b: Seq<u8>) -> bool {
    forall|j: int| 0 <= j < lines_of(b).len() ==> (#[trigger] utf8_decode(lines_of(b)[j])) is Some
}

/// The scan of a sequence of lines reaches its end exactly when every line
/// decodes.
proof fn lemma_scan_completes(pattern: Seq<char>, nocase: bool, path: Seq<char>, ls: Seq<Seq<u8>>)
    ensures
        scan_search(pattern, nocase, path, ls).1 <==> forall|j: int|
            0 <= j < ls.len() ==> (#[trigger] utf8_decode(ls[j])) is Some,
    decreases ls.len(),
{
    if ls.len() > 0 {
        let init = ls.drop_last();
        lemma_scan_completes(pattern, nocase, path, init);
        if scan_search(pattern, nocase, path, ls).1 {
            assert forall|j: int| 0 <= j < ls.len() implies (#[trigger] utf8_decode(ls[j])) is Some by {
                if j < init.len() {
                    assert(init[j] == ls[j]);
                }
            }
        } else {
            if forall|j: int| 0 <= j < ls.len() ==> (#[trigger] utf8_decode(ls[j])) is Some {
                assert forall|j: int| 0 <= j < init.len() implies (#[trigger] utf8_decode(init[j])) is Some by {
                    assert(init[j] == ls[j]);
                }
                assert(utf8_decode(ls[ls.len() - 1]) is Some);
            }
        }
    }
}

/// A file whose lines all decode is searched to its end and succeeds,
/// whether or not any line matched; a file with a line that does not decode
/// fails with `IncompatibleFormat`.
pub proof fn lemma_outcome_follows_decoding(m: (Seq<char>, bool), path: Seq<char>, b: Seq<u8>)
    ensures
        all_lines_decode(b) ==> search_bytes(m, path, b).1 == Ok::<bool, SearchError>(true),
        !all_lines_decode(b) ==> search_bytes(m, path, b).1 == Err::<bool, SearchError>(
            SearchError::IncompatibleFormat,
        ),
{
    lemma_scan_completes(m.0, m.1, path, lines_of(b));
}

/// Whether `t` is a file whose search succeeded.
pub open spec fn is_successful_file(t: SearchTree) -> bool {
    t matches SearchTree::File(o) && o.succeeded()
}

/// Files that are all leaves and all succeeded count one success each.
proof fn lemma_successful_leaves(s: Seq<SearchTree>)
    requires
        forall|i: int| 0 <= i < s.len() ==> is_successful_file(#[trigger] s[i]),
    ensures
        count_where_all(s, success_pred()) == s.len(),
        count_where_all(s, failure_pred()) == 0,
    decreases s.len(),
{
    if s.len() > 0 {
        let init = s.subrange(0, s.len() - 1);
        assert forall|i: int| 0 <= i < init.len() implies is_successful_file(#[trigger] init[i]) by {
            assert(init[i] == s[i]);
        }
        lemma_successful_leaves(init);
        assert(is_successful_file(s[s.len() - 1]));
        if let SearchTree::File(o) = s[s.len() - 1] {
            assert(count_where(s[s.len() - 1], success_pred()) == 1);
            assert(count_where(s[s.len() - 1], failure_pred()) == 0);
        }
    }
}

/// A directory that holds only files, each of whose lines decode, counts
/// every file as a success and none as a failure, whatever the pattern
/// matched in them.
pub proof fn lemma_decodable_files_all_succeed(
    m: (Seq<char>, bool),
    paths: Seq<Seq<char>>,
    contents: Seq<Seq<u8>>,
    s: Seq<SearchTree>,
)
    requires
        s.len() == contents.len(),
        paths.len() == contents.len(),
        forall|i: int|
            0 <= i < s.len() ==> #[trigger] s[i] == SearchTree::File(
                JobOutcome::Finished(search_bytes(m, paths[i], contents[i]).1),
            ),
        forall|i: int| 0 <= i < contents.len() ==> all_lines_decode(#[trigger] contents[i]),
    ensures
        count_where_all(s, success_pred()) == s.len(),
        count_where_all(s, failure_pred()) == 0,
{
    assert forall|i: int| 0 <= i < s.len() implies is_successful_file(#[trigger] s[i]) by {
        lemma_outcome_follows_decoding(m, paths[i], contents[i]);
        assert(all_lines_decode(contents[i]));
    }
    lemma_successful_leaves(s);
}

} // verus!
