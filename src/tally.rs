//! Outcomes of file searches, and their sum over a directory tree.
use vstd::prelude::*;

verus! {

broadcast use vstd::std_specs::vec::group_vec_axioms;

/// Why the search of one file failed.
#[derive(Clone, Copy, Debug, PartialEq, Eq, Structural)]
pub enum SearchError {
    /// The file could not be opened.
    FileNotFound,
    /// A line of the file could not be read as UTF-8 text.
    IncompatibleFormat,
}

/// How the unit of work that searched one file ended.
#[derive(Clone, Copy, Debug, PartialEq, Eq)]
pub enum JobOutcome {
    /// The search ran to its end and returned this result.
    Finished(Result<bool, SearchError>),
    /// The unit of work terminated abnormally.
    Crashed,
}

impl JobOutcome {
    /// A file counts as a success when its search finished and returned `Ok`;
    /// a typed error and an abnormal termination both count as failures.
    pub open spec fn succeeded(self) -> bool {
        self matches JobOutcome::Finished(Ok(_))
    }

    pub fn is_success(&self) -> (r: bool)
        ensures
            r == self.succeeded(),
    {
        match self {
            JobOutcome::Finished(Ok(_)) => true,
            _ => false,
        }
    }
}

/// The outcomes of a directory tree: a leaf per file, a node per directory.
pub enum SearchTree {
    File(JobOutcome),
    Dir(Vec<SearchTree>),
}

/// Successes and failures counted over a tree.
#[derive(Clone, Copy, Debug, PartialEq, Eq, Structural)]
pub struct Tally {
    pub successes: u32,
    pub failures: u32,
}

/// The number of files in `t` whose outcome satisfies `p`.
pub open spec fn count_where(t: SearchTree, p: spec_fn(JobOutcome) -> bool) -> nat
    decreases t,
{
    match t {
        SearchTree::File(o) => if p(o) { 1 } else { 0 },
        SearchTree::Dir(children) => count_where_all(children@, p),
    }
}

/// The number of files in the trees of `s` whose outcome satisfies `p`.
pub open spec fn count_where_all(s: Seq<SearchTree>, p: spec_fn(JobOutcome) -> bool) -> nat
    decreases s,
{
    if s.len() == 0 {
        0
    } else {
        count_where_all(s.subrange(0, s.len() - 1), p) + count_where(s[s.len() - 1], p)
    }
}

/// Whether every file in `t` has an outcome that satisfies `p`.
pub open spec fn all_where(t: SearchTree, p: spec_fn(JobOutcome) -> bool) -> bool
    decreases t,
{
    match t {
        SearchTree::File(o) => p(o),
        SearchTree::Dir(children) => all_where_all(children@, p),
    }
}

/// Whether every file in the trees of `s` has an outcome that satisfies `p`.
pub open spec fn all_where_all(s: Seq<SearchTree>, p: spec_fn(JobOutcome) -> bool) -> bool
    decreases s,
{
    if s.len() == 0 {
        true
    } else {
        all_where_all(s.subrange(0, s.len() - 1), p) && all_where(s[s.len() - 1], p)
    }
}

/// Selects the files whose search succeeded.
pub open spec fn success_pred() -> spec_fn(JobOutcome) -> bool {
    |o: JobOutcome| o.succeeded()
}

/// Selects the files whose search failed.
pub open spec fn failure_pred() -> spec_fn(JobOutcome) -> bool {
    |o: JobOutcome| !o.succeeded()
}

/// Selects every file.
pub open spec fn file_pred() -> spec_fn(JobOutcome) -> bool {
    |o: JobOutcome| true
}

/// The number of files of `t` whose search succeeded.
pub open spec fn successes_in(t: SearchTree) -> nat {
    count_where(t, success_pred())
}

/// The number of files of `t` whose search failed.
pub open spec fn failures_in(t: SearchTree) -> nat {
    count_where(t, failure_pred())
}

/// The number of files in `t`.
pub open spec fn files_in(t: SearchTree) -> nat {
    count_where(t, file_pred())
}

/// Splitting off the last tree of a prefix.
proof fn lemma_count_prefix_step(s: Seq<SearchTree>, i: int, p: spec_fn(JobOutcome) -> bool)
    requires
        0 <= i < s.len(),
    ensures
        count_where_all(s.subrange(0, i + 1), p) == count_where_all(s.subrange(0, i), p)
            + count_where(s[i], p),
{
    assert(s.subrange(0, i + 1).subrange(0, i) =~= s.subrange(0, i));
}

/// A prefix holds no more matching files than the whole sequence.
proof fn lemma_count_prefix_le(s: Seq<SearchTree>, i: int, p: spec_fn(JobOutcome) -> bool)
    requires
        0 <= i <= s.len(),
    ensures
        count_where_all(s.subrange(0, i), p) <= count_where_all(s, p),
    decreases s.len(),
{
    if i == s.len() {
        assert(s.subrange(0, i) =~= s);
    } else {
        let init = s.subrange(0, s.len() - 1);
        assert(init.subrange(0, i) =~= s.subrange(0, i));
        lemma_count_prefix_le(init, i, p);
    }
}

/// Adds two counts, or returns `None` where the sum does not fit.
fn add_counts(a: Tally, b: Tally) -> (r: Option<Tally>)
    ensures
        match r {
            Some(c) => c.successes == a.successes + b.successes && c.failures == a.failures
                + b.failures,
            None => a.successes + b.successes > u32::MAX || a.failures + b.failures > u32::MAX,
        },
{
    match (a.successes.checked_add(b.successes), a.failures.checked_add(b.failures)) {
        (Some(successes), Some(failures)) => Some(Tally { successes, failures }),
        _ => None,
    }
}

/// Sums the outcomes of a directory tree: one success for each file whose
/// search finished with `Ok`, one failure for each other file. Returns `None`
/// exactly when one of the two counts does not fit in a `u32`.
pub fn tally(t: &SearchTree) -> (r: Option<Tally>)
    ensures
        match r {
            Some(c) => c.successes == successes_in(*t) && c.failures == failures_in(*t),
            None => successes_in(*t) > u32::MAX || failures_in(*t) > u32::MAX,
        },
    decreases t,
{
    match t {
        SearchTree::File(o) => {
            if o.is_success() {
                Some(Tally { successes: 1, failures: 0 })
            } else {
                Some(Tally { successes: 0, failures: 1 })
            }
        },
        SearchTree::Dir(children) => {
            let mut acc = Tally { successes: 0, failures: 0 };
            let mut i: usize = 0;
            assert(children@.subrange(0, 0) =~= Seq::<SearchTree>::empty());
            while i < children.len()
                invariant
                    0 <= i <= children@.len(),
                    *t == SearchTree::Dir(*children),
                    successes_in(*t) == count_where_all(children@, success_pred()),
                    failures_in(*t) == count_where_all(children@, failure_pred()),
                    acc.successes == count_where_all(children@.subrange(0, i as int), success_pred()),
                    acc.failures == count_where_all(children@.subrange(0, i as int), failure_pred()),
                decreases children.len() - i,
            {
                proof {
                    lemma_count_prefix_step(children@, i as int, success_pred());
                    lemma_count_prefix_step(children@, i as int, failure_pred());
                    lemma_count_prefix_le(children@, i + 1, success_pred());
                    lemma_count_prefix_le(children@, i + 1, failure_pred());
                }
                proof {
                    assert(decreases_to!(*children => children@[i as int]));
                }
                let sub = tally(&children[i]);
                match sub {
                    None => {
                        return None;
                    },
                    Some(c) => {
                        match add_counts(acc, c) {
                            None => {
                                return None;
                            },
                            Some(sum) => {
                                acc = sum;
                            },
                        }
                    },
                }
                i = i + 1;
            }
            assert(children@.subrange(0, i as int) =~= children@);
            Some(acc)
        },
    }
}

/// Counting over a concatenation adds the counts of the two parts.
proof fn lemma_count_concat(a: Seq<SearchTree>, b: Seq<SearchTree>, p: spec_fn(JobOutcome) -> bool)
    ensures
        count_where_all(a + b, p) == count_where_all(a, p) + count_where_all(b, p),
    decreases b.len(),
{
    if b.len() == 0 {
        assert(a + b =~= a);
    } else {
        let ab = a + b;
        let b0 = b.subrange(0, b.len() - 1);
        assert(ab.subrange(0, ab.len() - 1) =~= a + b0);
        lemma_count_concat(a, b0, p);
    }
}

/// Removing one tree from a sequence takes away exactly its count.
proof fn lemma_count_remove(s: Seq<SearchTree>, j: int, p: spec_fn(JobOutcome) -> bool)
    requires
        0 <= j < s.len(),
    ensures
        count_where_all(s, p) == count_where_all(s.remove(j), p) + count_where(s[j], p),
{
    let front = s.subrange(0, j);
    let back = s.subrange(j + 1, s.len() as int);
    let one = seq![s[j]];
    assert(s =~= (front + one) + back);
    assert(s.remove(j) =~= front + back);
    assert(one.subrange(0, 0) =~= Seq::<SearchTree>::empty());
    assert(count_where_all(one.subrange(0, 0), p) == 0);
    assert(count_where_all(one, p) == count_where(s[j], p));
    lemma_count_concat(front + one, back, p);
    lemma_count_concat(front, one, p);
    lemma_count_concat(front, back, p);
}

/// Two sequences that hold the same trees, in any order, hold the same counts.
proof fn lemma_count_permutation(a: Seq<SearchTree>, b: Seq<SearchTree>, p: spec_fn(JobOutcome) -> bool)
    requires
        a.to_multiset() == b.to_multiset(),
    ensures
        count_where_all(a, p) == count_where_all(b, p),
    decreases a.len(),
{
    broadcast use vstd::seq_lib::group_to_multiset_ensures;

    if a.len() == 0 {
        assert(b.to_multiset().len() == 0);
    } else {
        let x = a[a.len() - 1];
        let a0 = a.subrange(0, a.len() - 1);
        assert(a =~= a0.push(x));
        assert(a.contains(x));
        assert(b.to_multiset().count(x) > 0);
        assert(b.contains(x));
        let j = choose|j: int| 0 <= j < b.len() && b[j] == x;
        assert(b.remove(j).to_multiset() =~= a0.to_multiset());
        lemma_count_permutation(a0, b.remove(j), p);
        lemma_count_remove(b, j, p);
    }
}

/// Every file of a tree is counted exactly once: as a success or as a
/// failure.
pub proof fn lemma_each_file_counted_once(t: SearchTree)
    ensures
        successes_in(t) + failures_in(t) == files_in(t),
    decreases t,
{
    match t {
        SearchTree::File(o) => {},
        SearchTree::Dir(children) => {
            lemma_each_file_counted_once_all(children@);
        },
    }
}

proof fn lemma_each_file_counted_once_all(s: Seq<SearchTree>)
    ensures
        count_where_all(s, success_pred()) + count_where_all(s, failure_pred())
            == count_where_all(s, file_pred()),
    decreases s,
{
    if s.len() > 0 {
        lemma_each_file_counted_once_all(s.subrange(0, s.len() - 1));
        lemma_each_file_counted_once(s[s.len() - 1]);
    }
}

/// When no file of a tree failed, at any depth, the tree's success count is
/// its number of files and its failure count is zero.
pub proof fn lemma_all_processed_counts_every_file(t: SearchTree)
    requires
        all_where(t, success_pred()),
    ensures
        successes_in(t) == files_in(t),
        failures_in(t) == 0,
    decreases t,
{
    match t {
        SearchTree::File(o) => {},
        SearchTree::Dir(children) => {
            lemma_all_processed_counts_every_file_all(children@);
        },
    }
}

proof fn lemma_all_processed_counts_every_file_all(s: Seq<SearchTree>)
    requires
        all_where_all(s, success_pred()),
    ensures
        count_where_all(s, success_pred()) == count_where_all(s, file_pred()),
        count_where_all(s, failure_pred()) == 0,
    decreases s,
{
    if s.len() > 0 {
        lemma_all_processed_counts_every_file_all(s.subrange(0, s.len() - 1));
        lemma_all_processed_counts_every_file(s[s.len() - 1]);
    }
}

/// The counts of a directory do not depend on the order in which its
/// entries were listed: two directories that hold the same subtrees in any
/// order have the same counts.
pub proof fn lemma_counts_ignore_order(x: Seq<SearchTree>, y: Seq<SearchTree>)
    requires
        x.to_multiset() == y.to_multiset(),
    ensures
        count_where_all(x, success_pred()) == count_where_all(y, success_pred()),
        count_where_all(x, failure_pred()) == count_where_all(y, failure_pred()),
{
    lemma_count_permutation(x, y, success_pred());
    lemma_count_permutation(x, y, failure_pred());
}

/// One file that could not be decoded does not disturb its siblings: it adds
/// exactly one failure to its directory, and every other entry is counted as
/// it would be without it.
pub proof fn lemma_undecodable_file_is_isolated(s: Seq<SearchTree>, k: int)
    requires
        0 <= k < s.len(),
        s[k] == SearchTree::File(JobOutcome::Finished(Err(SearchError::IncompatibleFormat))),
    ensures
        count_where_all(s, failure_pred()) == count_where_all(s.remove(k), failure_pred()) + 1,
        count_where_all(s, success_pred()) == count_where_all(s.remove(k), success_pred()),
{
    lemma_count_remove(s, k, failure_pred());
    lemma_count_remove(s, k, success_pred());
}

} // verus!
