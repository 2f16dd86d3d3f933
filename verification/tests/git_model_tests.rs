use wgit::git_model::{
    classify_status_xy, git_failure_message, normalize_for_display, parse_branch_ab_counts,
    parse_branch_tracking_snapshot, parse_hunk_header, parse_porcelain_status,
    parse_porcelain_status_line, style_for_diff_line, summarize_porcelain_status,
    StatusSectionKind, StatusSectionSummary, GitModel,
};
use wgit::models::LineStyle;

#[test]
fn parses_status_lines_and_rename_targets() {
    let status = " M src/main.rs\n?? Cargo.lock\n";

    let entries = parse_porcelain_status(status);
    assert_eq!(entries.len(), 2);
    assert_eq!(entries[0].xy, " M");
    assert_eq!(entries[0].path, "src/main.rs");
    assert_eq!(entries[1].xy, "??");
    assert_eq!(entries[1].path, "Cargo.lock");

    let rename = parse_porcelain_status_line("R  old name.txt -> renamed name.txt")
        .expect("rename line should parse");
    assert_eq!(rename.xy, "R ");
    assert_eq!(rename.path, "renamed name.txt");
}

#[test]
fn ignores_non_status_lines() {
    let status = "\
not a status line
 M src/lib.rs
";

    let entries = parse_porcelain_status(status);
    assert_eq!(entries.len(), 1);
    assert_eq!(entries[0].path, "src/lib.rs");
}

#[test]
fn classifies_diff_lines() {
    assert!(matches!(style_for_diff_line("@@ -1,2 +1,2 @@"), LineStyle::DiffHunk));
    assert!(matches!(style_for_diff_line("+added line"), LineStyle::DiffAdd));
    assert!(matches!(style_for_diff_line("-removed line"), LineStyle::DiffRemove));
    assert!(matches!(style_for_diff_line("+++ b/src/lib.rs"), LineStyle::DiffMeta));
    assert!(matches!(style_for_diff_line("index 123..456"), LineStyle::DiffMeta));
}

#[test]
fn normalizes_tabs_and_crlf() {
    let text = "a\tb\r\nc";
    assert_eq!(normalize_for_display(text), "a   b\nc");
}

#[test]
fn parses_hunk_headers() {
    assert_eq!(parse_hunk_header("@@ -10,5 +20,8 @@ fn foo()"), Some((10, 20)));
    assert_eq!(parse_hunk_header("@@ -1 +1 @@"), Some((1, 1)));
    assert_eq!(parse_hunk_header("@@ -0,0 +1,3 @@"), Some((0, 1)));
    assert_eq!(parse_hunk_header("not a hunk"), None);
}

#[test]
fn classifies_status_sections() {
    assert_eq!(classify_status_xy(" M"), vec![StatusSectionKind::Unstaged]);
    assert_eq!(classify_status_xy("A "), vec![StatusSectionKind::Staged]);
    assert_eq!(classify_status_xy("??"), vec![StatusSectionKind::Untracked]);
    assert_eq!(
        classify_status_xy("MM"),
        vec![StatusSectionKind::Staged, StatusSectionKind::Unstaged]
    );
}

#[test]
fn parses_branch_tracking_snapshot() {
    let status = "# branch.oid 1234567890abcdef\n# branch.head feature/demo\n# branch.upstream origin/main\n# branch.ab +3 -2\n1 .M N... 100644 100644 100644 123 456 src/main.rs\n";

    let snapshot = parse_branch_tracking_snapshot(status);
    assert_eq!(snapshot.upstream.as_deref(), Some("origin/main"));
    assert_eq!(snapshot.ahead, 3);
    assert_eq!(snapshot.behind, 2);
}

#[test]
fn parses_branch_ab_counts() {
    assert_eq!(parse_branch_ab_counts("+7 -4"), Some((7, 4)));
    assert_eq!(parse_branch_ab_counts("-4 +7"), Some((7, 4)));
    assert_eq!(parse_branch_ab_counts("+0 -0"), Some((0, 0)));
}

#[test]
fn summarizes_porcelain_status_into_sections() {
    let status = " M src/main.rs\nA  src/lib.rs\nMM src/config.toml\n?? Cargo.lock\n";

    let summaries = summarize_porcelain_status(status);
    assert_eq!(
        summaries,
        vec![
            StatusSectionSummary { kind: StatusSectionKind::Staged, count: 2 },
            StatusSectionSummary { kind: StatusSectionKind::Unstaged, count: 1 },
            StatusSectionSummary { kind: StatusSectionKind::Untracked, count: 1 },
        ]
    );
}

#[test]
fn classifies_porcelain_xy_pairs() {
    assert_eq!(classify_status_xy(" M"), vec![StatusSectionKind::Unstaged]);
    assert_eq!(classify_status_xy("A "), vec![StatusSectionKind::Staged]);
    assert_eq!(classify_status_xy("??"), vec![StatusSectionKind::Untracked]);
}

#[test]
fn summarizes_grouped_status_counts() {
    let status = " M src/main.rs\nA  src/lib.rs\nMM src/config.toml\n?? Cargo.lock\n";

    let summaries = summarize_porcelain_status(status);
    assert_eq!(summaries.len(), 3);
    assert_eq!(summaries[0].kind, StatusSectionKind::Staged);
    assert_eq!(summaries[0].count, 2);
    assert_eq!(summaries[1].kind, StatusSectionKind::Unstaged);
    assert_eq!(summaries[1].count, 1);
    assert_eq!(summaries[2].kind, StatusSectionKind::Untracked);
    assert_eq!(summaries[2].count, 1);
}

#[test]
fn git_failure_names_command_root_exit_and_trimmed_stderr() {
    let msg = git_failure_message("git commit", "/tmp/repo", Some(128), "  fatal: nothing\n", "ignored");
    assert_eq!(msg, "git commit failed in /tmp/repo with exit 128: fatal: nothing");
}

#[test]
fn git_failure_falls_back_to_stdout_and_reports_signals() {
    let msg = git_failure_message("git push", "/r", None, "  \n", " out text \n");
    assert_eq!(msg, "git push failed in /r with exit terminated by signal: out text");
    let neg = git_failure_message("git fetch", "/r", Some(-3), "e", "");
    assert_eq!(neg, "git fetch failed in /r with exit -3: e");
}

#[test]
fn status_text_summary_matches_porcelain_summary() {
    let status = " M a.rs\n?? b.rs\nMM c.rs\nA  d.rs\n";
    let summary = GitModel::summarize_status_text(status);
    assert_eq!(summary, summarize_porcelain_status(status));
    assert_eq!(summary[0].count, 2);
    assert_eq!(summary[1].count, 1);
    assert_eq!(summary[2].count, 1);
}

#[test]
fn test_branch_name() {
    let mut model = GitModel::new(String::from("/tmp/wgit_test_repo"));
    model.apply_branch("main\n");
    let branch = model.branch();
    assert!(
        branch == "main" || branch == "master",
        "branch should be 'main' or 'master', got '{branch}'"
    );
}

#[test]
fn summary_counts_add_over_joined_status_output() {
    let a = " M a.rs\n?? b.rs\n";
    let b = "MM c.rs\nA  d.rs\n?? e.rs\n";
    let joined = format!("{a}{b}");
    let sa = summarize_porcelain_status(a);
    let sb = summarize_porcelain_status(b);
    let sj = summarize_porcelain_status(&joined);
    for i in 0..3 {
        assert_eq!(sj[i].count, sa[i].count + sb[i].count);
    }
}

#[test]
fn formatted_hunk_headers_parse_back() {
    for (a, b, c, d) in [(0u32, 1u32, 0u32, 3u32), (10, 20, 5, 8), (u32::MAX, 7, 1, 1)] {
        let full = format!("@@ -{a},{c} +{b},{d} @@ fn x()");
        assert_eq!(parse_hunk_header(&full), Some((a, b)));
        let short = format!("@@ -{a} +{b} @@");
        assert_eq!(parse_hunk_header(&short), Some((a, b)));
    }
}

#[test]
fn normalizing_twice_changes_nothing() {
    for s in ["ab\tc", "\tx\r\ny\rz", "plain text", "a\t\tb\r"] {
        let once = normalize_for_display(s);
        assert!(!once.contains('\t') && !once.contains('\r'));
        assert_eq!(normalize_for_display(&once), once);
    }
    assert_eq!(normalize_for_display("plain text"), "plain text");
}
