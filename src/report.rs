//! The classified change list of a diff, its statistics, and the readable
//! report rendered from them.

use vstd::prelude::*;
use crate::align::{
    align, aligns, changes_view, line_alignment, new_lines, old_lines, similarity_spec, tag_count,
    lemma_tag_counts_bounded, AlignedChange, ChangeTag, Similarity,
};
use crate::text::{decimal, padded_decimal, push_decimal, push_padded_decimal, split_lines};

verus! {

/// One line of a diff: its line number, its text, and whether it was
/// `"removed"`, `"added"` or `"unchanged"`.
#[derive(Clone, Debug)]
pub struct DiffResult {
    pub line_number: usize,
    pub content: String,
    pub status: String,
}

/// Counts of the lines of a diff by status, and the similarity of the two
/// documents.
#[derive(Clone, Copy, Debug)]
pub struct DiffSummary {
    pub total_lines: usize,
    pub added_lines: usize,
    pub removed_lines: usize,
    pub unchanged_lines: usize,
    pub similarity_ratio: Similarity,
}

/// A full diff: the two labels, the changes in alignment order, and the
/// summary.
#[derive(Clone, Debug)]
pub struct DiffResponse {
    pub file_name1: String,
    pub file_name2: String,
    pub changes: Vec<DiffResult>,
    pub summary: DiffSummary,
}

/// The status word of a change tag.
pub open spec fn status_text(t: ChangeTag) -> Seq<char> {
    match t {
        ChangeTag::Delete => "removed"@,
        ChangeTag::Insert => "added"@,
        ChangeTag::Equal => "unchanged"@,
    }
}

/// The number of first-document lines consumed before entry `i`.
pub open spec fn old_before(al: Seq<(ChangeTag, Seq<char>)>, i: int) -> nat {
    old_lines(al.take(i)).len()
}

/// The number of second-document lines consumed before entry `i`.
pub open spec fn new_before(al: Seq<(ChangeTag, Seq<char>)>, i: int) -> nat {
    new_lines(al.take(i)).len()
}

/// The line number reported for entry `i`: its position in the second
/// document for an insertion, in the first document otherwise.
pub open spec fn line_number_at(al: Seq<(ChangeTag, Seq<char>)>, i: int) -> nat {
    if al[i].0 == ChangeTag::Insert {
        new_before(al, i) + 1
    } else {
        old_before(al, i) + 1
    }
}

/// `r` is the record of entry `i` of `al`.
pub open spec fn is_record_of(r: DiffResult, al: Seq<(ChangeTag, Seq<char>)>, i: int) -> bool {
    &&& r.line_number == line_number_at(al, i)
    &&& r.content@ == al[i].1
    &&& r.status@ == status_text(al[i].0)
}

/// `s` counts the entries of `al` by tag and carries `similarity`.
pub open spec fn is_summary_of(
    s: DiffSummary,
    al: Seq<(ChangeTag, Seq<char>)>,
    similarity: Similarity,
) -> bool {
    &&& s.total_lines == al.len()
    &&& s.added_lines == tag_count(al, ChangeTag::Insert)
    &&& s.removed_lines == tag_count(al, ChangeTag::Delete)
    &&& s.unchanged_lines == tag_count(al, ChangeTag::Equal)
    &&& s.similarity_ratio == similarity
}

/// The lines of the first and second document consumed by `al`, counted by tag.
pub proof fn lemma_side_lengths(al: Seq<(ChangeTag, Seq<char>)>)
    ensures
        old_lines(al).len() == tag_count(al, ChangeTag::Equal) + tag_count(al, ChangeTag::Delete),
        new_lines(al).len() == tag_count(al, ChangeTag::Equal) + tag_count(al, ChangeTag::Insert),
    decreases al.len(),
{
    if al.len() > 0 {
        lemma_side_lengths(al.drop_last());
    }
}

/// Walks the aligned changes once, numbering each line on its own side and
/// counting the lines by status; `similarity` is carried through unchanged.
pub fn accumulate(
    aligned: &Vec<AlignedChange>,
    similarity: Similarity,
    file_name1: String,
    file_name2: String,
) -> (r: DiffResponse)
    ensures
        r.file_name1 == file_name1,
        r.file_name2 == file_name2,
        r.changes@.len() == aligned@.len(),
        forall|i: int|
            0 <= i < aligned@.len() ==> is_record_of(
                #[trigger] r.changes@[i],
                changes_view(aligned@),
                i,
            ),
        is_summary_of(r.summary, changes_view(aligned@), similarity),
{
    let ghost al = changes_view(aligned@);
    let removed = String::from_str("removed");
    let added = String::from_str("added");
    let unchanged = String::from_str("unchanged");
    let mut line_num1: usize = 0;
    let mut line_num2: usize = 0;
    let mut added_lines: usize = 0;
    let mut removed_lines: usize = 0;
    let mut unchanged_lines: usize = 0;
    let mut changes: Vec<DiffResult> = Vec::new();
    let mut i: usize = 0;
    while i < aligned.len()
        invariant
            al == changes_view(aligned@),
            removed@ == "removed"@,
            added@ == "added"@,
            unchanged@ == "unchanged"@,
            i <= aligned.len(),
            changes@.len() == i,
            forall|j: int| 0 <= j < i ==> is_record_of(#[trigger] changes@[j], al, j),
            line_num1 == old_before(al, i as int),
            line_num2 == new_before(al, i as int),
            added_lines == tag_count(al.take(i as int), ChangeTag::Insert),
            removed_lines == tag_count(al.take(i as int), ChangeTag::Delete),
            unchanged_lines == tag_count(al.take(i as int), ChangeTag::Equal),
        decreases aligned.len() - i,
    {
        proof {
            assert(al.take(i + 1).drop_last() =~= al.take(i as int));
            lemma_side_lengths(al.take(i as int));
            lemma_tag_counts_bounded(al.take(i as int));
        }
        let change = &aligned[i];
        let record = match change.tag {
            ChangeTag::Delete => {
                line_num1 = line_num1 + 1;
                removed_lines = removed_lines + 1;
                DiffResult { line_number: line_num1, content: change.text.clone(), status: removed.clone() }
            },
            ChangeTag::Insert => {
                line_num2 = line_num2 + 1;
                added_lines = added_lines + 1;
                DiffResult { line_number: line_num2, content: change.text.clone(), status: added.clone() }
            },
            ChangeTag::Equal => {
                line_num1 = line_num1 + 1;
                line_num2 = line_num2 + 1;
                unchanged_lines = unchanged_lines + 1;
                DiffResult {
                    line_number: line_num1,
                    content: change.text.clone(),
                    status: unchanged.clone(),
                }
            },
        };
        changes.push(record);
        i = i + 1;
    }
    proof {
        assert(al.take(i as int) =~= al);
        lemma_tag_counts_bounded(al);
    }
    let summary = DiffSummary {
        total_lines: added_lines + removed_lines + unchanged_lines,
        added_lines,
        removed_lines,
        unchanged_lines,
        similarity_ratio: similarity,
    };
    DiffResponse { file_name1, file_name2, changes, summary }
}

/// The entries of `al` all carry `Equal`: nothing was added or removed.
proof fn lemma_all_equal_counts(al: Seq<(ChangeTag, Seq<char>)>)
    requires
        forall|i: int| 0 <= i < al.len() ==> (#[trigger] al[i]).0 == ChangeTag::Equal,
    ensures
        tag_count(al, ChangeTag::Insert) == 0,
        tag_count(al, ChangeTag::Delete) == 0,
    decreases al.len(),
{
    if al.len() > 0 {
        assert forall|i: int| 0 <= i < al.drop_last().len() implies (#[trigger] al.drop_last()[i]).0
            == ChangeTag::Equal by {
            assert(al.drop_last()[i] == al[i]);
        }
        lemma_all_equal_counts(al.drop_last());
    }
}

/// `d` is the diff of `text1` and `text2` under the labels given.
pub open spec fn is_diff_of(
    d: DiffResponse,
    text1: Seq<char>,
    text2: Seq<char>,
    file_name1: String,
    file_name2: String,
) -> bool {
    let al = line_alignment(text1, text2);
    &&& d.file_name1 == file_name1
    &&& d.file_name2 == file_name2
    &&& d.changes@.len() == al.len()
    &&& forall|i: int| 0 <= i < al.len() ==> is_record_of(#[trigger] d.changes@[i], al, i)
    &&& is_summary_of(d.summary, al, similarity_spec(al))
}

/// Diffs two documents line by line. Equal documents give only unchanged
/// lines, one per line of the text, and full similarity.
pub fn diff_check(
    file_content1: String,
    file_content2: String,
    file_name1: String,
    file_name2: String,
) -> (r: Result<DiffResponse, String>)
    ensures
        r is Ok,
        aligns(line_alignment(file_content1@, file_content2@), file_content1@, file_content2@),
        r matches Ok(d) ==> is_diff_of(d, file_content1@, file_content2@, file_name1, file_name2),
        r matches Ok(d) ==> (file_content1@ == file_content2@ ==> {
            &&& d.summary.total_lines == split_lines(file_content1@).len()
            &&& d.summary.unchanged_lines == split_lines(file_content1@).len()
            &&& d.summary.added_lines == 0
            &&& d.summary.removed_lines == 0
            &&& d.summary.similarity_ratio.is_full()
        }),
{
    let alignment = align(file_content1.as_str(), file_content2.as_str());
    let ghost al = changes_view(alignment.changes@);
    proof {
        if file_content1@ == file_content2@ {
            lemma_all_equal_counts(al);
            lemma_side_lengths(al);
            lemma_tag_counts_bounded(al);
        }
    }
    let response = accumulate(&alignment.changes, alignment.similarity, file_name1, file_name2);
    Ok(response)
}

/// The first line of a report, followed by an empty line.
pub open spec fn header_text(name1: Seq<char>, name2: Seq<char>) -> Seq<char> {
    "# Diff between "@ + name1 + " and "@ + name2 + "\n\n"@
}

/// Creates the header of a report on two labelled documents.
pub fn create_diff_header(file_name1: &str, file_name2: &str) -> (r: String)
    ensures
        r@ == header_text(file_name1@, file_name2@),
{
    let mut r = String::from_str("# Diff between ");
    r.append(file_name1);
    r.append(" and ");
    r.append(file_name2);
    r.append("\n\n");
    assert(r@ =~= header_text(file_name1@, file_name2@));
    r
}

/// The report line of one change: its marker, its line number in brackets,
/// and its text, whose own terminator ends the line. A record of any other
/// status gives nothing.
pub open spec fn change_line(c: DiffResult) -> Seq<char> {
    if c.status@ == "removed"@ {
        "- [L"@ + decimal(c.line_number as nat) + "] "@ + c.content@
    } else if c.status@ == "added"@ {
        "+ [L"@ + decimal(c.line_number as nat) + "] "@ + c.content@
    } else if c.status@ == "unchanged"@ {
        "  [L"@ + decimal(c.line_number as nat) + "] "@ + c.content@
    } else {
        Seq::empty()
    }
}

/// The report lines of a sequence of changes.
pub open spec fn changes_text(cs: Seq<DiffResult>) -> Seq<char>
    decreases cs.len(),
{
    if cs.len() == 0 {
        Seq::empty()
    } else {
        changes_text(cs.drop_last()) + change_line(cs.last())
    }
}

/// The similarity as a percentage scaled by `scale` (100 for hundredths of a
/// percent), rounded to the nearest integer, halves up.
pub open spec fn scaled_percent(s: Similarity, scale: nat) -> nat {
    if s.total() == 0 {
        100 * scale
    } else {
        let t = s.total() as int;
        ((400 * scale * s.shared_lines + t) / (2 * t)) as nat
    }
}

/// The similarity as a percentage with two decimals.
pub open spec fn percent_text(s: Similarity) -> Seq<char> {
    let h = scaled_percent(s, 100);
    decimal(h / 100) + "."@ + padded_decimal(h % 100, 2)
}

/// The closing block of a report.
pub open spec fn summary_text(s: DiffSummary) -> Seq<char> {
    "\n\n## Summary\nTotal lines: "@ + decimal(s.total_lines as nat) + "\nAdded lines: "@ + decimal(
        s.added_lines as nat,
    ) + "\nRemoved lines: "@ + decimal(s.removed_lines as nat) + "\nUnchanged lines: "@ + decimal(
        s.unchanged_lines as nat,
    ) + "\nSimilarity: "@ + percent_text(s.similarity_ratio) + "%\n"@
}

/// The full report on a diff.
pub open spec fn report_text(d: DiffResponse) -> Seq<char> {
    header_text(d.file_name1@, d.file_name2@) + changes_text(d.changes@) + summary_text(d.summary)
}

fn rounded_percent(s: &Similarity, scale: u128) -> (r: u128)
    requires
        1 <= scale <= 100,
    ensures
        r == scaled_percent(*s, scale as nat),
{
    let total: u128 = s.old_lines as u128 + s.new_lines as u128;
    if total == 0 {
        100 * scale
    } else {
        let shared: u128 = s.shared_lines as u128;
        assert(shared <= 0xffff_ffff_ffff_ffff);
        assert(400 * scale * shared <= 40000 * 0xffff_ffff_ffff_ffffu128) by (nonlinear_arith)
            requires
                scale <= 100,
                shared <= 0xffff_ffff_ffff_ffff,
        ;
        (400 * scale * shared + total) / (2 * total)
    }
}

/// Renders a diff as text: a header naming both labels, one line per change,
/// and a summary of the counts and the similarity.
pub fn format_diff_report(diff_response: DiffResponse) -> (r: String)
    ensures
        r@ == report_text(diff_response),
{
    let cs = &diff_response.changes;
    let mut out = create_diff_header(diff_response.file_name1.as_str(), diff_response.file_name2.as_str());
    let ghost head = out@;
    let removed = String::from_str("removed");
    let added = String::from_str("added");
    let unchanged = String::from_str("unchanged");
    let mut i: usize = 0;
    while i < cs.len()
        invariant
            removed@ == "removed"@,
            added@ == "added"@,
            unchanged@ == "unchanged"@,
            i <= cs.len(),
            out@ == head + changes_text(cs@.take(i as int)),
        decreases cs.len() - i,
    {
        let ghost before = out@;
        let c = &cs[i];
        if c.status == removed {
            out.append("- [L");
        } else if c.status == added {
            out.append("+ [L");
        } else if c.status == unchanged {
            out.append("  [L");
        }
        if c.status == removed || c.status == added || c.status == unchanged {
            push_decimal(&mut out, c.line_number as u128);
            out.append("] ");
            out.append(c.content.as_str());
        }
        proof {
            assert(cs@.take(i + 1).drop_last() =~= cs@.take(i as int));
            assert(out@ =~= before + change_line(cs@[i as int]));
        }
        i = i + 1;
    }
    proof {
        assert(cs@.take(i as int) =~= cs@);
    }
    let s = &diff_response.summary;
    out.append("\n\n## Summary\nTotal lines: ");
    push_decimal(&mut out, s.total_lines as u128);
    out.append("\nAdded lines: ");
    push_decimal(&mut out, s.added_lines as u128);
    out.append("\nRemoved lines: ");
    push_decimal(&mut out, s.removed_lines as u128);
    out.append("\nUnchanged lines: ");
    push_decimal(&mut out, s.unchanged_lines as u128);
    out.append("\nSimilarity: ");
    let h = rounded_percent(&s.similarity_ratio, 100);
    push_decimal(&mut out, h / 100);
    out.append(".");
    push_padded_decimal(&mut out, h % 100, 2);
    out.append("%\n");
    assert(out@ =~= report_text(diff_response));
    out
}

/// The similarity as a percentage with one decimal, on a line of its own.
pub open spec fn similarity_line(s: Similarity) -> Seq<char> {
    let t = scaled_percent(s, 10);
    "Similarity: "@ + decimal(t / 10) + "."@ + padded_decimal(t % 10, 1) + "%\n"@
}

/// Renders a similarity as a percentage with one decimal.
pub fn format_similarity(ratio: &Similarity) -> (r: String)
    ensures
        r@ == similarity_line(*ratio),
{
    let t = rounded_percent(ratio, 10);
    let mut out = String::from_str("Similarity: ");
    push_decimal(&mut out, t / 10);
    out.append(".");
    push_padded_decimal(&mut out, t % 10, 1);
    out.append("%\n");
    assert(out@ =~= similarity_line(*ratio));
    out
}

/// Two diffs with the same labels, records and summary have byte-identical
/// reports: the report depends on nothing but the diff's contents.
pub proof fn lemma_report_deterministic(a: DiffResponse, b: DiffResponse)
    requires
        a.file_name1@ == b.file_name1@,
        a.file_name2@ == b.file_name2@,
        a.changes@.len() == b.changes@.len(),
        forall|i: int|
            0 <= i < a.changes@.len() ==> {
                &&& (#[trigger] a.changes@[i]).line_number == b.changes@[i].line_number
                &&& a.changes@[i].content@ == b.changes@[i].content@
                &&& a.changes@[i].status@ == b.changes@[i].status@
            },
        a.summary == b.summary,
    ensures
        report_text(a) == report_text(b),
{
    lemma_changes_text_same(a.changes@, b.changes@);
}

proof fn lemma_changes_text_same(x: Seq<DiffResult>, y: Seq<DiffResult>)
    requires
        x.len() == y.len(),
        forall|i: int|
            0 <= i < x.len() ==> {
                &&& (#[trigger] x[i]).line_number == y[i].line_number
                &&& x[i].content@ == y[i].content@
                &&& x[i].status@ == y[i].status@
            },
    ensures
        changes_text(x) == changes_text(y),
    decreases x.len(),
{
    if x.len() > 0 {
        assert forall|i: int| 0 <= i < x.drop_last().len() implies {
            &&& (#[trigger] x.drop_last()[i]).line_number == y.drop_last()[i].line_number
            &&& x.drop_last()[i].content@ == y.drop_last()[i].content@
            &&& x.drop_last()[i].status@ == y.drop_last()[i].status@
        } by {
            assert(x.drop_last()[i] == x[i]);
            assert(y.drop_last()[i] == y[i]);
        }
        lemma_changes_text_same(x.drop_last(), y.drop_last());
        assert(x.last() == x[x.len() - 1]);
        assert(y.last() == y[y.len() - 1]);
    }
}

proof fn lemma_before_step(al: Seq<(ChangeTag, Seq<char>)>, k: int)
    requires
        0 <= k < al.len(),
    ensures
        old_before(al, k + 1) == old_before(al, k) + if al[k].0 != ChangeTag::Insert { 1nat } else { 0nat },
        new_before(al, k + 1) == new_before(al, k) + if al[k].0 != ChangeTag::Delete { 1nat } else { 0nat },
{
    assert(al.take(k + 1).drop_last() =~= al.take(k));
}

proof fn lemma_before_monotone(al: Seq<(ChangeTag, Seq<char>)>, i: int, j: int)
    requires
        0 <= i <= j <= al.len(),
    ensures
        old_before(al, i) <= old_before(al, j),
        new_before(al, i) <= new_before(al, j),
    decreases j - i,
{
    if i < j {
        lemma_before_step(al, j - 1);
        lemma_before_monotone(al, i, j - 1);
    }
}

/// Along the records of an alignment, neither document's line counter ever
/// goes back, each line consumed from a document moves that document's
/// counter on, and so the line numbers of removed lines strictly increase,
/// as do those of added lines, each on its own side.
pub proof fn lemma_line_numbers_increase(al: Seq<(ChangeTag, Seq<char>)>, i: int, j: int)
    requires
        0 <= i < j < al.len(),
    ensures
        old_before(al, i) <= old_before(al, j),
        new_before(al, i) <= new_before(al, j),
        al[i].0 != ChangeTag::Insert ==> old_before(al, i) < old_before(al, j),
        al[i].0 != ChangeTag::Delete ==> new_before(al, i) < new_before(al, j),
        al[i].0 == ChangeTag::Delete && al[j].0 == ChangeTag::Delete ==> line_number_at(al, i)
            < line_number_at(al, j),
        al[i].0 == ChangeTag::Insert && al[j].0 == ChangeTag::Insert ==> line_number_at(al, i)
            < line_number_at(al, j),
{
    lemma_before_step(al, i);
    lemma_before_monotone(al, i + 1, j);
}

/// At an unchanged line before which as many lines were removed as added,
/// both documents' counters agree, and either is its line number.
pub proof fn lemma_unchanged_counters_agree(al: Seq<(ChangeTag, Seq<char>)>, i: int)
    requires
        0 <= i < al.len(),
        al[i].0 == ChangeTag::Equal,
        tag_count(al.take(i), ChangeTag::Delete) == tag_count(al.take(i), ChangeTag::Insert),
    ensures
        old_before(al, i) == new_before(al, i),
        line_number_at(al, i) == new_before(al, i) + 1,
{
    lemma_side_lengths(al.take(i));
}

} // verus!
