use text_diff::{
    align, create_diff_header, decimal_text, diff_check, format_diff_report, format_similarity,
    is_blank, measure, merge_changes, resolve_conflicts, AlignedChange, ChangeTag, DiffResponse,
    ResolutionStrategy, ResolveError, Similarity,
};

fn s(x: &str) -> String {
    x.to_string()
}

fn diff(a: &str, b: &str) -> DiffResponse {
    diff_check(s(a), s(b), s("one.txt"), s("two.txt")).unwrap()
}

fn change(tag: ChangeTag, text: &str) -> AlignedChange {
    AlignedChange { tag, text: s(text) }
}

fn side(changes: &[AlignedChange], skip: ChangeTag) -> String {
    let mut out = String::new();
    for c in changes {
        if c.tag != skip {
            out.push_str(&c.text);
        }
    }
    out
}

#[test]
fn alignment_rebuilds_both_documents() {
    let a = "alpha\nbeta\r\ngamma\rdelta\nlast";
    let b = "alpha\nBETA\r\ngamma\rdelta\nextra\n";
    let al = align(a, b);
    assert_eq!(side(&al.changes, ChangeTag::Insert), a);
    assert_eq!(side(&al.changes, ChangeTag::Delete), b);
    assert!(al.changes.iter().any(|c| c.tag == ChangeTag::Delete && c.text == "beta\r\n"));
    assert!(al.changes.iter().any(|c| c.tag == ChangeTag::Equal && c.text == "gamma\r"));
}

#[test]
fn identical_documents_are_fully_similar() {
    let t = "one\ntwo\nthree\n";
    let d = diff(t, t);
    assert_eq!(d.summary.total_lines, 3);
    assert_eq!(d.summary.unchanged_lines, 3);
    assert_eq!(d.summary.added_lines, 0);
    assert_eq!(d.summary.removed_lines, 0);
    assert_eq!(d.summary.similarity_ratio, Similarity { shared_lines: 3, old_lines: 3, new_lines: 3 });
    assert!(d.changes.iter().all(|c| c.status == "unchanged"));
}

#[test]
fn empty_documents_are_fully_similar() {
    let d = diff("", "");
    assert_eq!(d.changes.len(), 0);
    assert_eq!(d.summary.total_lines, 0);
    assert!(format_diff_report(d).ends_with("Similarity: 100.00%\n"));
}

#[test]
fn disjoint_lines_are_removed_then_added() {
    let d = diff("a\n", "b\n");
    assert_eq!(d.changes.len(), 2);
    let removed: Vec<_> = d.changes.iter().filter(|c| c.status == "removed").collect();
    let added: Vec<_> = d.changes.iter().filter(|c| c.status == "added").collect();
    assert_eq!(removed.len(), 1);
    assert_eq!(removed[0].content, "a\n");
    assert_eq!(added.len(), 1);
    assert_eq!(added[0].content, "b\n");
    assert_eq!(d.summary.unchanged_lines, 0);
    assert_eq!(d.summary.similarity_ratio.shared_lines, 0);
    assert!(format_diff_report(d).ends_with("Similarity: 0.00%\n"));
}

#[test]
fn line_numbers_follow_each_side() {
    let d = diff("a\nb\nc\nd\n", "x\na\nc\ny\nz\n");
    let mut last_removed = 0;
    let mut last_added = 0;
    for c in &d.changes {
        if c.status == "removed" {
            assert!(c.line_number > last_removed);
            last_removed = c.line_number;
        } else if c.status == "added" {
            assert!(c.line_number > last_added);
            last_added = c.line_number;
        }
    }
    assert_eq!(last_removed, 4);
    assert_eq!(last_added, 5);
    assert_eq!(d.summary.total_lines, d.changes.len());
    assert_eq!(d.summary.added_lines, 3);
    assert_eq!(d.summary.removed_lines, 2);
    assert_eq!(d.summary.unchanged_lines, 2);
}

#[test]
fn labels_are_carried_through() {
    let d = diff_check(s("a\n"), s("a\n"), s("left"), s("right")).unwrap();
    assert_eq!(d.file_name1, "left");
    assert_eq!(d.file_name2, "right");
}

#[test]
fn report_has_exact_layout() {
    let d = diff("a\nb\n", "a\nc\n");
    let report = format_diff_report(d);
    assert_eq!(
        report,
        "# Diff between one.txt and two.txt\n\n  [L1] a\n- [L2] b\n+ [L2] c\n\n\n## Summary\n\
         Total lines: 3\nAdded lines: 1\nRemoved lines: 1\nUnchanged lines: 1\nSimilarity: 50.00%\n"
    );
}

#[test]
fn report_is_deterministic() {
    let first = format_diff_report(diff("a\nb\nc\n", "a\nc\nd\n"));
    let second = format_diff_report(diff("a\nb\nc\n", "a\nc\nd\n"));
    assert_eq!(first, second);
    let d = diff("p\nq\n", "q\nr\n");
    assert_eq!(format_diff_report(d.clone()), format_diff_report(d));
}

#[test]
fn report_skips_unknown_status() {
    let mut d = diff("a\n", "a\n");
    d.changes[0].status = s("moved");
    assert_eq!(
        format_diff_report(d),
        "# Diff between one.txt and two.txt\n\n\n\n## Summary\nTotal lines: 1\nAdded lines: 0\n\
         Removed lines: 0\nUnchanged lines: 1\nSimilarity: 100.00%\n"
    );
}

#[test]
fn header_names_both_files() {
    assert_eq!(create_diff_header("a.txt", "b.txt"), "# Diff between a.txt and b.txt\n\n");
}

#[test]
fn similarity_percentages_round() {
    let two_thirds = Similarity { shared_lines: 1, old_lines: 1, new_lines: 2 };
    assert_eq!(format_similarity(&two_thirds), "Similarity: 66.7%\n");
    let d = diff("a\n", "a\nb\n");
    assert!(format_diff_report(d).ends_with("Similarity: 66.67%\n"));
    let none = Similarity { shared_lines: 0, old_lines: 0, new_lines: 0 };
    assert_eq!(format_similarity(&none), "Similarity: 100.0%\n");
    let eighth = Similarity { shared_lines: 1, old_lines: 8, new_lines: 8 };
    assert_eq!(format_similarity(&eighth), "Similarity: 12.5%\n");
}

#[test]
fn measure_counts_lines() {
    let changes = vec![
        change(ChangeTag::Equal, "a\n"),
        change(ChangeTag::Delete, "b\n"),
        change(ChangeTag::Insert, "c\n"),
        change(ChangeTag::Insert, "d\n"),
    ];
    assert_eq!(measure(&changes), Similarity { shared_lines: 1, old_lines: 2, new_lines: 3 });
}

#[test]
fn decimal_and_blank_helpers() {
    assert_eq!(decimal_text(0), "0");
    assert_eq!(decimal_text(40213), "40213");
    assert!(is_blank(""));
    assert!(is_blank(" \t\r\n\u{3000}"));
    assert!(!is_blank("  x\n"));
}

#[test]
fn prefer_first_and_second_are_verbatim() {
    let a = "one\ntwo\n";
    let b = "uno\n";
    assert_eq!(resolve_conflicts(s(a), s(b), s("prefer_first")).unwrap(), a);
    assert_eq!(resolve_conflicts(s(a), s(b), s("prefer_second")).unwrap(), b);
    assert_eq!(resolve_conflicts(s(""), s(b), s("prefer_first")).unwrap(), "");
    assert_eq!(resolve_conflicts(s(a), s(""), s("prefer_second")).unwrap(), "");
}

#[test]
fn merge_pure_insertion_has_no_markers() {
    let r = resolve_conflicts(s("x\n"), s("x\ny\n"), s("merge")).unwrap();
    assert_eq!(r, "x\ny\n");
}

#[test]
fn merge_real_conflict_is_marked() {
    let r = resolve_conflicts(s("a\n"), s("b\n"), s("merge")).unwrap();
    assert_eq!(r, "<<<<<<< FILE 1\na\n=======\nb\n>>>>>>> FILE 2\n");
}

#[test]
fn merge_drops_plain_deletion() {
    let r = resolve_conflicts(s("x\ngone\ny\n"), s("x\ny\n"), s("merge")).unwrap();
    assert_eq!(r, "x\ny\n");
}

#[test]
fn merge_marks_each_run_once() {
    let changes = vec![
        change(ChangeTag::Equal, "top\n"),
        change(ChangeTag::Delete, "a1\n"),
        change(ChangeTag::Delete, "a2\n"),
        change(ChangeTag::Insert, "b1\n"),
        change(ChangeTag::Insert, "b2\n"),
        change(ChangeTag::Equal, "mid\n"),
        change(ChangeTag::Insert, "only\n"),
        change(ChangeTag::Equal, "end\n"),
    ];
    assert_eq!(
        merge_changes(&changes),
        "top\n<<<<<<< FILE 1\na1\na2\n=======\nb1\nb2\n>>>>>>> FILE 2\nmid\nonly\nend\n"
    );
}

#[test]
fn merge_blank_lines_trigger_no_conflict() {
    let changes = vec![
        change(ChangeTag::Delete, "   \n"),
        change(ChangeTag::Insert, "new\n"),
        change(ChangeTag::Equal, "same\n"),
        change(ChangeTag::Delete, "old\n"),
        change(ChangeTag::Insert, "\n"),
    ];
    assert_eq!(merge_changes(&changes), "new\nsame\n\n");
}

#[test]
fn invalid_strategy_is_refused() {
    let r = resolve_conflicts(s("a\n"), s("b\n"), s("unknown"));
    match r {
        Err(ResolveError::InvalidArgument(t)) => assert_eq!(t, "unknown"),
        Ok(_) => panic!("an unknown strategy must be refused"),
    }
    let e = ResolveError::InvalidArgument(s("unknown"));
    assert_eq!(e.message(), "Invalid resolution strategy: unknown");
}

#[test]
fn strategy_tokens_parse() {
    assert_eq!(ResolutionStrategy::parse(&s("merge")).unwrap(), ResolutionStrategy::Merge);
    assert_eq!(ResolutionStrategy::parse(&s("prefer_first")).unwrap(), ResolutionStrategy::PreferFirst);
    assert_eq!(ResolutionStrategy::parse(&s("prefer_second")).unwrap(), ResolutionStrategy::PreferSecond);
    assert!(ResolutionStrategy::parse(&s("Merge")).is_err());
}
