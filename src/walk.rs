//! Sorting the entries of one directory into file searches and subdirectories.
use vstd::prelude::*;

verus! {

/// What a directory entry is, as far as the walk is concerned.
#[derive(Clone, Copy, Debug, PartialEq, Eq, Structural)]
pub enum EntryKind {
    /// Anything that is not a directory: it is searched as a file.
    File,
    /// A directory: it is walked in turn.
    Directory,
}

/// Whether the indices in `s` are strictly increasing.
pub open spec fn strictly_increasing(s: Seq<usize>) -> bool {
    forall|a: int, b: int| 0 <= a < b < s.len() ==> s[a] < s[b]
}

/// Sorts the entries of a directory, given by their kinds in the order of
/// listing, into the indices of the files to search and the indices of the
/// subdirectories to walk. Each entry lands in exactly one of the two lists,
/// and each list keeps the order of listing.
pub fn classify_entries(kinds: &Vec<EntryKind>) -> (r: (Vec<usize>, Vec<usize>))
    ensures
        forall|i: int|
            0 <= i < kinds@.len() ==> (r.0@.contains(i as usize) <==> kinds@[i]
                == EntryKind::File),
        forall|i: int|
            0 <= i < kinds@.len() ==> (r.1@.contains(i as usize) <==> kinds@[i]
                == EntryKind::Directory),
        forall|j: int| 0 <= j < r.0@.len() ==> r.0@[j] < kinds@.len(),
        forall|j: int| 0 <= j < r.1@.len() ==> r.1@[j] < kinds@.len(),
        strictly_increasing(r.0@),
        strictly_increasing(r.1@),
        r.0@.len() + r.1@.len() == kinds@.len(),
{
    let mut files: Vec<usize> = Vec::new();
    let mut dirs: Vec<usize> = Vec::new();
    let mut i: usize = 0;
    while i < kinds.len()
        invariant
            0 <= i <= kinds@.len(),
            forall|j: int|
                0 <= j < i ==> (files@.contains(j as usize) <==> kinds@[j] == EntryKind::File),
            forall|j: int|
                0 <= j < i ==> (dirs@.contains(j as usize) <==> kinds@[j]
                    == EntryKind::Directory),
            forall|j: int| 0 <= j < files@.len() ==> files@[j] < i,
            forall|j: int| 0 <= j < dirs@.len() ==> dirs@[j] < i,
            strictly_increasing(files@),
            strictly_increasing(dirs@),
            files@.len() + dirs@.len() == i,
        decreases kinds.len() - i,
    {
        let ghost old_files = files@;
        let ghost old_dirs = dirs@;
        match kinds[i] {
            EntryKind::File => {
                files.push(i);
                assert(files@[old_files.len() as int] == i);
            },
            EntryKind::Directory => {
                dirs.push(i);
                assert(dirs@[old_dirs.len() as int] == i);
            },
        }
        assert forall|j: int| 0 <= j <= i implies (files@.contains(j as usize) <==> kinds@[j]
            == EntryKind::File) by {
            if j < i {
                if old_files.contains(j as usize) {
                    let w = choose|w: int| 0 <= w < old_files.len() && old_files[w] == j as usize;
                    assert(files@[w] == j as usize);
                }
            }
        }
        assert forall|j: int| 0 <= j <= i implies (dirs@.contains(j as usize) <==> kinds@[j]
            == EntryKind::Directory) by {
            if j < i {
                if old_dirs.contains(j as usize) {
                    let w = choose|w: int| 0 <= w < old_dirs.len() && old_dirs[w] == j as usize;
                    assert(dirs@[w] == j as usize);
                }
            }
        }
        i = i + 1;
    }
    (files, dirs)
}

} // verus!
