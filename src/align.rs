//! Line alignment of two texts, computed by the `similar` crate, and the
//! similarity of the two texts that follows from it.

use vstd::prelude::*;
use crate::text::{concat, split_lines, lemma_concat_split_lines};

verus! {

/// How one aligned line relates the two documents.
#[derive(Clone, Copy, Debug, PartialEq, Eq, Structural)]
pub enum ChangeTag {
    /// Present, unchanged, in both documents.
    Equal,
    /// Present only in the second document.
    Insert,
    /// Present only in the first document.
    Delete,
}

/// One aligned line with its terminator.
#[derive(Clone, Debug)]
pub struct AlignedChange {
    pub tag: ChangeTag,
    pub text: String,
}

impl View for AlignedChange {
    type V = (ChangeTag, Seq<char>);

    open spec fn view(&self) -> (ChangeTag, Seq<char>) {
        (self.tag, self.text@)
    }
}

/// The mathematical form of a sequence of aligned changes.
pub open spec fn changes_view(v: Seq<AlignedChange>) -> Seq<(ChangeTag, Seq<char>)> {
    v.map_values(|c: AlignedChange| c@)
}

/// The lines that an alignment takes from the first document, in order.
pub open spec fn old_lines(al: Seq<(ChangeTag, Seq<char>)>) -> Seq<Seq<char>>
    decreases al.len(),
{
    if al.len() == 0 {
        Seq::empty()
    } else if al.last().0 != ChangeTag::Insert {
        old_lines(al.drop_last()).push(al.last().1)
    } else {
        old_lines(al.drop_last())
    }
}

/// The lines that an alignment takes from the second document, in order.
pub open spec fn new_lines(al: Seq<(ChangeTag, Seq<char>)>) -> Seq<Seq<char>>
    decreases al.len(),
{
    if al.len() == 0 {
        Seq::empty()
    } else if al.last().0 != ChangeTag::Delete {
        new_lines(al.drop_last()).push(al.last().1)
    } else {
        new_lines(al.drop_last())
    }
}

/// The number of entries of `al` tagged `t`.
pub open spec fn tag_count(al: Seq<(ChangeTag, Seq<char>)>, t: ChangeTag) -> nat
    decreases al.len(),
{
    if al.len() == 0 {
        0
    } else {
        tag_count(al.drop_last(), t) + if al.last().0 == t { 1nat } else { 0nat }
    }
}

/// `al` is an alignment of the lines of `old` with those of `new`: it takes
/// every line of each document once and in order, and it matches two equal
/// documents line for line.
pub open spec fn aligns(al: Seq<(ChangeTag, Seq<char>)>, old: Seq<char>, new: Seq<char>) -> bool {
    &&& old_lines(al) == split_lines(old)
    &&& new_lines(al) == split_lines(new)
    &&& old == new ==> forall|i: int| 0 <= i < al.len() ==> (#[trigger] al[i]).0 == ChangeTag::Equal
}

/// The alignment that `similar`'s line diff (Myers' algorithm, no deadline)
/// computes for two texts.
pub uninterp spec fn line_alignment(old: Seq<char>, new: Seq<char>) -> Seq<(ChangeTag, Seq<char>)>;

/// Relies on `similar::TextDiff::from_lines` and `TextDiff::iter_all_changes`:
/// both texts are split into lines that keep their terminators (`\n`, `\r\n`,
/// or a lone `\r`); the changes walk the lines of each side in order, an
/// `Equal` change carrying the old line, which equals the new one; the result
/// depends on the two texts alone, since no deadline is set; and a common
/// prefix is matched first, so equal texts give `Equal` changes only.
#[verifier::external_body]
fn similar_line_changes(old: &str, new: &str) -> (r: Vec<AlignedChange>)
    ensures
        changes_view(r@) == line_alignment(old@, new@),
        aligns(changes_view(r@), old@, new@),
{
    let diff = similar::TextDiff::from_lines(old, new);
    let mut r = Vec::new();
    for c in diff.iter_all_changes() {
        let tag = match c.tag() {
            similar::ChangeTag::Equal => ChangeTag::Equal,
            similar::ChangeTag::Insert => ChangeTag::Insert,
            similar::ChangeTag::Delete => ChangeTag::Delete,
        };
        r.push(AlignedChange { tag, text: c.value().to_string() });
    }
    r
}

/// The similarity of two documents: twice the number of shared lines over
/// the number of lines of both documents. Two empty documents are fully
/// similar.
#[derive(Clone, Copy, Debug, PartialEq, Eq, Structural)]
pub struct Similarity {
    pub shared_lines: usize,
    pub old_lines: usize,
    pub new_lines: usize,
}

impl Similarity {
    /// The number of lines of both documents.
    pub open spec fn total(self) -> nat {
        (self.old_lines + self.new_lines) as nat
    }

    /// A fraction in [0, 1].
    pub open spec fn wf(self) -> bool {
        self.shared_lines <= self.old_lines && self.shared_lines <= self.new_lines
    }

    /// The similarity is 1.
    pub open spec fn is_full(self) -> bool {
        2 * self.shared_lines == self.total()
    }
}

/// The similarity that an alignment shows.
pub open spec fn similarity_spec(al: Seq<(ChangeTag, Seq<char>)>) -> Similarity {
    Similarity {
        shared_lines: tag_count(al, ChangeTag::Equal) as usize,
        old_lines: (tag_count(al, ChangeTag::Equal) + tag_count(al, ChangeTag::Delete)) as usize,
        new_lines: (tag_count(al, ChangeTag::Equal) + tag_count(al, ChangeTag::Insert)) as usize,
    }
}

/// The aligned lines of two documents and their similarity.
pub struct Alignment {
    pub changes: Vec<AlignedChange>,
    pub similarity: Similarity,
}

pub proof fn lemma_tag_counts_bounded(al: Seq<(ChangeTag, Seq<char>)>)
    ensures
        tag_count(al, ChangeTag::Equal) + tag_count(al, ChangeTag::Delete) + tag_count(
            al,
            ChangeTag::Insert,
        ) == al.len(),
    decreases al.len(),
{
    if al.len() > 0 {
        lemma_tag_counts_bounded(al.drop_last());
    }
}

/// Counts the tags of `changes` and returns the similarity they show.
pub fn measure(changes: &Vec<AlignedChange>) -> (r: Similarity)
    ensures
        r == similarity_spec(changes_view(changes@)),
        r.wf(),
{
    let ghost al = changes_view(changes@);
    let mut equal: usize = 0;
    let mut deleted: usize = 0;
    let mut inserted: usize = 0;
    let mut i: usize = 0;
    while i < changes.len()
        invariant
            al == changes_view(changes@),
            i <= changes.len(),
            equal == tag_count(al.take(i as int), ChangeTag::Equal),
            deleted == tag_count(al.take(i as int), ChangeTag::Delete),
            inserted == tag_count(al.take(i as int), ChangeTag::Insert),
            equal + deleted + inserted == i,
        decreases changes.len() - i,
    {
        proof {
            assert(al.take(i + 1).drop_last() =~= al.take(i as int));
        }
        match changes[i].tag {
            ChangeTag::Equal => equal = equal + 1,
            ChangeTag::Delete => deleted = deleted + 1,
            ChangeTag::Insert => inserted = inserted + 1,
        }
        i = i + 1;
    }
    proof {
        assert(al.take(i as int) =~= al);
    }
    Similarity { shared_lines: equal, old_lines: equal + deleted, new_lines: equal + inserted }
}

/// Aligns the lines of `text1` with those of `text2`. The lines taken from
/// each side, joined in order, give that side's text back.
pub fn align(text1: &str, text2: &str) -> (r: Alignment)
    ensures
        changes_view(r.changes@) == line_alignment(text1@, text2@),
        aligns(changes_view(r.changes@), text1@, text2@),
        concat(old_lines(changes_view(r.changes@))) == text1@,
        concat(new_lines(changes_view(r.changes@))) == text2@,
        r.similarity == similarity_spec(changes_view(r.changes@)),
        r.similarity.wf(),
{
    let changes = similar_line_changes(text1, text2);
    proof {
        lemma_concat_split_lines(text1@);
        lemma_concat_split_lines(text2@);
    }
    let similarity = measure(&changes);
    Alignment { changes, similarity }
}

} // verus!
