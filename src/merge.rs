//! Resolution of two documents into one: either side verbatim, or a merge
//! that brackets each conflicting region with markers.

use vstd::prelude::*;
use crate::align::{align, changes_view, line_alignment, AlignedChange, ChangeTag};
use crate::text::{blank, is_blank};

verus! {

/// How two documents are resolved into one.
#[derive(Clone, Copy, Debug, PartialEq, Eq, Structural)]
pub enum ResolutionStrategy {
    PreferFirst,
    PreferSecond,
    Merge,
}

/// Why a resolution was refused.
#[derive(Clone, Debug)]
pub enum ResolveError {
    /// The strategy token is none of `prefer_first`, `prefer_second`, `merge`.
    InvalidArgument(String),
}

/// The strategy that a token names, if any.
pub open spec fn strategy_of(token: Seq<char>) -> Option<ResolutionStrategy> {
    if token == "prefer_first"@ {
        Some(ResolutionStrategy::PreferFirst)
    } else if token == "prefer_second"@ {
        Some(ResolutionStrategy::PreferSecond)
    } else if token == "merge"@ {
        Some(ResolutionStrategy::Merge)
    } else {
        None
    }
}

impl ResolutionStrategy {
    /// Reads a strategy token; any other token is an invalid argument that
    /// carries the token.
    pub fn parse(token: &String) -> (r: Result<ResolutionStrategy, ResolveError>)
        ensures
            strategy_of(token@) matches Some(s) ==> r == Ok::<ResolutionStrategy, ResolveError>(s),
            strategy_of(token@) is None ==> (r matches Err(ResolveError::InvalidArgument(t))
                && t@ == token@),
    {
        if *token == String::from_str("prefer_first") {
            Ok(ResolutionStrategy::PreferFirst)
        } else if *token == String::from_str("prefer_second") {
            Ok(ResolutionStrategy::PreferSecond)
        } else if *token == String::from_str("merge") {
            Ok(ResolutionStrategy::Merge)
        } else {
            Err(ResolveError::InvalidArgument(token.clone()))
        }
    }
}

impl ResolveError {
    /// A readable description of the error.
    pub fn message(&self) -> (r: String)
        ensures
            self matches ResolveError::InvalidArgument(t) ==> r@ == "Invalid resolution strategy: "@
                + t@,
    {
        match self {
            ResolveError::InvalidArgument(t) => {
                let mut r = String::from_str("Invalid resolution strategy: ");
                r.append(t.as_str());
                r
            },
        }
    }
}

/// The marker that opens a conflict region, before the first document's side.
pub open spec fn opening_marker() -> Seq<char> {
    "<<<<<<< FILE 1\n"@
}

/// The marker between the two sides of a conflict region.
pub open spec fn separator_marker() -> Seq<char> {
    "=======\n"@
}

/// The marker that closes a conflict region, after the second document's side.
pub open spec fn closing_marker() -> Seq<char> {
    ">>>>>>> FILE 2\n"@
}

/// A deletion that can take part in a conflict: its text is not blank.
pub open spec fn is_conflict_delete(e: (ChangeTag, Seq<char>)) -> bool {
    e.0 == ChangeTag::Delete && !blank(e.1)
}

/// An insertion that can take part in a conflict: its text is not blank.
pub open spec fn is_conflict_insert(e: (ChangeTag, Seq<char>)) -> bool {
    e.0 == ChangeTag::Insert && !blank(e.1)
}

/// A run of changes is a conflict when it deletes a non-blank line and
/// inserts a non-blank line.
pub open spec fn conflicting(run: Seq<(ChangeTag, Seq<char>)>) -> bool {
    &&& exists|k: int| 0 <= k < run.len() && is_conflict_delete(#[trigger] run[k])
    &&& exists|k: int| 0 <= k < run.len() && is_conflict_insert(#[trigger] run[k])
}

/// The non-blank deleted lines of a run, joined.
pub open spec fn deleted_side(run: Seq<(ChangeTag, Seq<char>)>) -> Seq<char>
    decreases run.len(),
{
    if run.len() == 0 {
        Seq::empty()
    } else if is_conflict_delete(run.last()) {
        deleted_side(run.drop_last()) + run.last().1
    } else {
        deleted_side(run.drop_last())
    }
}

/// The inserted lines of a run, joined.
pub open spec fn inserted_side(run: Seq<(ChangeTag, Seq<char>)>) -> Seq<char>
    decreases run.len(),
{
    if run.len() == 0 {
        Seq::empty()
    } else if run.last().0 == ChangeTag::Insert {
        inserted_side(run.drop_last()) + run.last().1
    } else {
        inserted_side(run.drop_last())
    }
}

/// What a maximal run of changed lines contributes to a merge: a conflict
/// region with both sides between markers, or else its insertions alone
/// (plain deletions drop out).
pub open spec fn render_run(run: Seq<(ChangeTag, Seq<char>)>) -> Seq<char> {
    if conflicting(run) {
        opening_marker() + deleted_side(run) + separator_marker() + inserted_side(run)
            + closing_marker()
    } else {
        inserted_side(run)
    }
}

/// Where the run of changed lines that ends at position `i` starts.
pub open spec fn run_start(al: Seq<(ChangeTag, Seq<char>)>, i: int) -> int
    decreases i,
{
    if i <= 0 || al[i - 1].0 == ChangeTag::Equal {
        i
    } else {
        run_start(al, i - 1)
    }
}

/// The merge of the first `i` aligned lines, a run that reaches `i` being
/// taken as ended there.
pub open spec fn merged_upto(al: Seq<(ChangeTag, Seq<char>)>, i: int) -> Seq<char>
    decreases i,
{
    if i <= 0 {
        Seq::empty()
    } else if al[i - 1].0 == ChangeTag::Equal {
        merged_upto(al, i - 1) + al[i - 1].1
    } else {
        let k = run_start(al, i);
        if 0 <= k < i {
            merged_upto(al, k) + render_run(al.subrange(k, i))
        } else {
            Seq::empty()
        }
    }
}

/// The merge of an alignment: unchanged lines verbatim, each maximal run of
/// changed lines rendered on its own.
pub open spec fn merged(al: Seq<(ChangeTag, Seq<char>)>) -> Seq<char> {
    merged_upto(al, al.len() as int)
}

proof fn lemma_run_start(al: Seq<(ChangeTag, Seq<char>)>, i: int, j: int)
    requires
        0 <= i < j <= al.len(),
        i == 0 || al[i - 1].0 == ChangeTag::Equal,
        forall|k: int| i <= k < j ==> (#[trigger] al[k]).0 != ChangeTag::Equal,
    ensures
        run_start(al, j) == i,
    decreases j - i,
{
    assert(al[j - 1].0 != ChangeTag::Equal);
    if j - 1 > i {
        lemma_run_start(al, i, j - 1);
    } else {
        assert(run_start(al, i) == i);
    }
}

/// Finds the end of the run of changed lines that starts at `i`, and whether
/// that run is a conflict.
fn scan_run(changes: &Vec<AlignedChange>, i: usize) -> (r: (usize, bool))
    requires
        i < changes@.len(),
    ensures
        i < r.0 <= changes@.len() || changes@[i as int].tag == ChangeTag::Equal && r.0 == i,
        r.0 < changes@.len() ==> changes@[r.0 as int].tag == ChangeTag::Equal,
        forall|k: int| i <= k < r.0 ==> (#[trigger] changes@[k]).tag != ChangeTag::Equal,
        r.1 == conflicting(changes_view(changes@).subrange(i as int, r.0 as int)),
{
    let ghost al = changes_view(changes@);
    let mut j: usize = i;
    let mut has_delete = false;
    let mut has_insert = false;
    while j < changes.len() && changes[j].tag != ChangeTag::Equal
        invariant
            al == changes_view(changes@),
            i <= j <= changes@.len(),
            forall|k: int| i <= k < j ==> (#[trigger] changes@[k]).tag != ChangeTag::Equal,
            has_delete == exists|k: int| i <= k < j && is_conflict_delete(#[trigger] al[k]),
            has_insert == exists|k: int| i <= k < j && is_conflict_insert(#[trigger] al[k]),
        decreases changes@.len() - j,
    {
        let c = &changes[j];
        let plain = is_blank(c.text.as_str());
        proof {
            assert(al[j as int] == c@);
        }
        if c.tag == ChangeTag::Delete && !plain {
            has_delete = true;
        }
        if c.tag == ChangeTag::Insert && !plain {
            has_insert = true;
        }
        j = j + 1;
    }
    proof {
        let run = al.subrange(i as int, j as int);
        if has_delete {
            let k = choose|k: int| i <= k < j && is_conflict_delete(#[trigger] al[k]);
            assert(run[k - i] == al[k]);
        }
        if has_insert {
            let k = choose|k: int| i <= k < j && is_conflict_insert(#[trigger] al[k]);
            assert(run[k - i] == al[k]);
        }
        if exists|k: int| 0 <= k < run.len() && is_conflict_delete(#[trigger] run[k]) {
            let k = choose|k: int| 0 <= k < run.len() && is_conflict_delete(#[trigger] run[k]);
            assert(al[k + i] == run[k]);
        }
        if exists|k: int| 0 <= k < run.len() && is_conflict_insert(#[trigger] run[k]) {
            let k = choose|k: int| 0 <= k < run.len() && is_conflict_insert(#[trigger] run[k]);
            assert(al[k + i] == run[k]);
        }
    }
    (j, has_delete && has_insert)
}

/// Appends the non-blank deleted lines among positions `i..j`.
fn push_deleted(out: &mut String, changes: &Vec<AlignedChange>, i: usize, j: usize)
    requires
        i <= j <= changes@.len(),
    ensures
        final(out)@ == old(out)@ + deleted_side(changes_view(changes@).subrange(i as int, j as int)),
{
    let ghost al = changes_view(changes@);
    let mut k: usize = i;
    while k < j
        invariant
            al == changes_view(changes@),
            i <= k <= j <= changes@.len(),
            out@ == old(out)@ + deleted_side(al.subrange(i as int, k as int)),
        decreases j - k,
    {
        let c = &changes[k];
        let plain = is_blank(c.text.as_str());
        proof {
            assert(al.subrange(i as int, k + 1).drop_last() =~= al.subrange(i as int, k as int));
            assert(al[k as int] == c@);
        }
        if c.tag == ChangeTag::Delete && !plain {
            out.append(c.text.as_str());
        }
        proof {
            assert(out@ =~= old(out)@ + deleted_side(al.subrange(i as int, k + 1)));
        }
        k = k + 1;
    }
}

/// Appends the inserted lines among positions `i..j`.
fn push_inserted(out: &mut String, changes: &Vec<AlignedChange>, i: usize, j: usize)
    requires
        i <= j <= changes@.len(),
    ensures
        final(out)@ == old(out)@ + inserted_side(changes_view(changes@).subrange(i as int, j as int)),
{
    let ghost al = changes_view(changes@);
    let mut k: usize = i;
    while k < j
        invariant
            al == changes_view(changes@),
            i <= k <= j <= changes@.len(),
            out@ == old(out)@ + inserted_side(al.subrange(i as int, k as int)),
        decreases j - k,
    {
        let c = &changes[k];
        proof {
            assert(al.subrange(i as int, k + 1).drop_last() =~= al.subrange(i as int, k as int));
            assert(al[k as int] == c@);
        }
        if c.tag == ChangeTag::Insert {
            out.append(c.text.as_str());
        }
        proof {
            assert(out@ =~= old(out)@ + inserted_side(al.subrange(i as int, k + 1)));
        }
        k = k + 1;
    }
}

/// Merges the aligned lines of two documents: unchanged lines are kept; a
/// run of changed lines that deletes and inserts non-blank lines becomes one
/// marked conflict region; any other run keeps its insertions only.
pub fn merge_changes(changes: &Vec<AlignedChange>) -> (r: String)
    ensures
        r@ == merged(changes_view(changes@)),
{
    let ghost al = changes_view(changes@);
    let mut out = String::new();
    let mut i: usize = 0;
    while i < changes.len()
        invariant
            al == changes_view(changes@),
            i <= changes@.len(),
            i == 0 || al[i - 1].0 == ChangeTag::Equal || (i < al.len() ==> al[i as int].0
                == ChangeTag::Equal),
            out@ == merged_upto(al, i as int),
        decreases changes@.len() - i,
    {
        proof {
            assert(al[i as int] == changes@[i as int]@);
        }
        if changes[i].tag == ChangeTag::Equal {
            out.append(changes[i].text.as_str());
            i = i + 1;
        } else {
            let (j, conflict) = scan_run(changes, i);
            proof {
                assert forall|k: int| i <= k < j implies (#[trigger] al[k]).0 != ChangeTag::Equal by {
                    assert(al[k] == changes@[k]@);
                }
                lemma_run_start(al, i as int, j as int);
                if j < al.len() {
                    assert(al[j as int] == changes@[j as int]@);
                }
            }
            let ghost before = out@;
            if conflict {
                out.append("<<<<<<< FILE 1\n");
                push_deleted(&mut out, changes, i, j);
                out.append("=======\n");
                push_inserted(&mut out, changes, i, j);
                out.append(">>>>>>> FILE 2\n");
            } else {
                push_inserted(&mut out, changes, i, j);
            }
            proof {
                assert(out@ =~= before + render_run(al.subrange(i as int, j as int)));
            }
            i = j;
        }
    }
    out
}

/// Resolves two documents into one: `prefer_first` and `prefer_second` give
/// that document verbatim, `merge` merges their line alignment, and any other
/// token is refused as an invalid argument carrying the token.
pub fn resolve_conflicts(
    file_content1: String,
    file_content2: String,
    resolution_strategy: String,
) -> (r: Result<String, ResolveError>)
    ensures
        strategy_of(resolution_strategy@) == Some(ResolutionStrategy::PreferFirst) ==> (r matches Ok(
            s,
        ) && s@ == file_content1@),
        strategy_of(resolution_strategy@) == Some(ResolutionStrategy::PreferSecond) ==> (r matches Ok(
            s,
        ) && s@ == file_content2@),
        strategy_of(resolution_strategy@) == Some(ResolutionStrategy::Merge) ==> (r matches Ok(s)
            && s@ == merged(line_alignment(file_content1@, file_content2@))),
        strategy_of(resolution_strategy@) is None ==> (r matches Err(
            ResolveError::InvalidArgument(t),
        ) && t@ == resolution_strategy@),
{
    match ResolutionStrategy::parse(&resolution_strategy) {
        Ok(ResolutionStrategy::PreferFirst) => Ok(file_content1),
        Ok(ResolutionStrategy::PreferSecond) => Ok(file_content2),
        Ok(ResolutionStrategy::Merge) => {
            let alignment = align(file_content1.as_str(), file_content2.as_str());
            Ok(merge_changes(&alignment.changes))
        },
        Err(e) => Err(e),
    }
}

} // verus!
