use wgit::commands::{CommandResult, GitCommand as UiCommand, SafetyTier, Step};
use wgit::git_model::{
    compact_preview, compose_diff, parse_branch_list, unstage_failure_message, GitCommand, GitModel,
    StatusSectionKind,
};
use wgit::models::{ColorSpan, DiffLineNumber, DocLine, Document, LineStyle, SpanColor};

fn model_with(status: &str) -> GitModel {
    let mut m = GitModel::new(String::from("/work/repo"));
    m.apply_branch("main\n");
    m.apply_status(status);
    m
}

#[test]
fn moves_and_clamps_the_selection() {
    let mut m = model_with("?? f1.txt\n?? f2.txt\n?? f3.txt\n");
    assert_eq!(m.selected_index(), 0);
    assert!(m.move_selection(1));
    assert_eq!(m.selected_index(), 1);
    assert!(m.move_selection(1));
    assert_eq!(m.selected_index(), 2);
    assert!(!m.move_selection(1));
    assert_eq!(m.selected_index(), 2);
    assert!(m.move_selection(-2));
    assert_eq!(m.selected_index(), 0);
    assert!(!m.move_selection(-1));
    assert!(m.move_selection(isize::MAX));
    assert_eq!(m.selected_index(), 2);
    assert!(m.move_selection(isize::MIN));
    assert_eq!(m.selected_index(), 0);
    assert!(m.select_file_index(1));
    assert!(!m.select_file_index(1));
    assert!(!m.select_file_index(7));
    m.apply_status("?? only.txt\n");
    assert_eq!(m.selected_index(), 0);
    assert_eq!(m.entries_len(), 1);
}

#[test]
fn keeps_branch_and_tracking() {
    let mut m = model_with("");
    assert_eq!(m.branch(), "main");
    m.apply_tracking("# branch.head main\n# branch.upstream origin/main\n# branch.ab +1 -0\n");
    let t = m.tracking();
    assert_eq!(t.branch, "main");
    assert_eq!(t.upstream.as_deref(), Some("origin/main"));
    assert_eq!((t.ahead, t.behind), (1, 0));
    assert_eq!(m.repo_root(), "/work/repo");
}

#[test]
fn composes_the_diff_pane_text() {
    assert_eq!(compose_diff("a\n", "b"), "# Unstaged\na\n# Staged\nb\n");
    assert_eq!(compose_diff("  \n", ""), "No diff output for selected file.");
    let mut m = model_with("");
    m.apply_diff(None);
    assert_eq!(m.diff_text(), "Working tree clean. No changed files.");
}

#[test]
fn builds_the_grouped_file_list() {
    let mut m = model_with(" M a.rs\nA  b.rs\n");
    let (doc, meta) = m.build_file_document();
    let texts: Vec<&str> = (0..doc.line_count()).map(|i| doc.line_text(i)).collect();
    assert_eq!(
        texts,
        vec![" STAGED (1)", "  A  b.rs", " UNSTAGED (1)", "  M  a.rs", " UNTRACKED (0)", "   No files"]
    );
    assert_eq!(doc.line_style(1), LineStyle::Normal);
    assert_eq!(doc.line_style(3), LineStyle::Selected);
    assert_eq!(doc.line_style(0), LineStyle::SectionStaged);
    assert_eq!(doc.line_spans(1)[0].color, SpanColor::Badge('A'));
    assert_eq!(meta.sections.len(), 3);
    assert_eq!(meta.sections[1].kind, StatusSectionKind::Unstaged);
    assert_eq!(meta.sections[1].start_line, 2);
    assert_eq!(meta.sections[2].item_count, 0);
    assert_eq!(meta.files_count, 6);
    m.select_file_index(1);
    let (doc2, _) = m.build_file_document();
    assert_eq!(doc2.line_style(1), LineStyle::Selected);
    let (grouped, gmeta) = m.build_grouped_document().expect("rust grammar loads");
    let (_f, _m, diff) = m.build_split_documents().expect("rust grammar loads");
    assert_eq!(gmeta.files_count, 6);
    assert_eq!(grouped.line_count(), 6 + diff.line_count());
    assert_eq!(grouped.line_text(1), doc2.line_text(1));
    assert_eq!(grouped.line_text(6), diff.line_text(0));
    assert_eq!(grouped.line_style(6), LineStyle::DiffFileHeader);
}

#[test]
fn numbers_diff_lines() {
    let mut m = model_with(" M notes.txt\n");
    m.apply_diff(Some(("diff --git a/n b/n\n@@ -10,2 +20,3 @@\n ctx\n-old\n+new\n+more\n", "")));
    let (_f, _meta, diff) = m.build_split_documents().expect("plain text");
    assert_eq!(diff.line_text(0), " notes.txt");
    assert_eq!(diff.line_style(0), LineStyle::DiffFileHeader);
    assert_eq!(diff.line_number(3), None);
    assert_eq!(diff.line_number(4), Some(DiffLineNumber { old: Some(10), new: Some(20) }));
    assert_eq!(diff.line_number(5), Some(DiffLineNumber { old: Some(11), new: None }));
    assert_eq!(diff.line_number(6), Some(DiffLineNumber { old: None, new: Some(21) }));
    assert_eq!(diff.line_number(7), Some(DiffLineNumber { old: None, new: Some(22) }));
}

#[test]
fn builds_the_single_pane_document() {
    let mut m = model_with(" M a.txt\n?? b.txt\n");
    m.apply_diff(Some(("+x\n", "")));
    let (doc, meta) = m.build_document().expect("plain text");
    assert_eq!(doc.line_text(0), "FILES");
    assert_eq!(doc.line_text(1), ">  M a.txt");
    assert_eq!(doc.line_style(1), LineStyle::Selected);
    assert_eq!(doc.line_text(2), "  ?? b.txt");
    assert_eq!(doc.line_text(3), "");
    assert_eq!(doc.line_text(4), "DIFF a.txt");
    assert_eq!(doc.line_text(5), "# Unstaged");
    assert_eq!(doc.line_text(6), "+x");
    assert_eq!(meta.files_start_line, 1);
    assert_eq!(meta.files_count, 2);
    let mut empty = model_with("");
    let (d2, m2) = empty.build_document().expect("plain text");
    assert_eq!(d2.line_text(1), "  (working tree clean)");
    assert_eq!(d2.line_text(3), "DIFF");
    assert_eq!(m2.files_count, 0);
}

#[test]
fn empty_documents_hold_one_dim_line() {
    let d = Document::from_lines(Vec::new());
    assert_eq!(d.line_count(), 1);
    assert_eq!(d.line_text(0), "");
    assert_eq!(d.line_style(0), LineStyle::Dim);
    assert!(LineStyle::DiffAdd.has_background());
    assert!(!LineStyle::Selected.has_background());
}

#[test]
fn builds_git_invocations() {
    assert_eq!(
        GitCommand::Diff { path: String::from("a b"), cached: true }.args(),
        vec!["diff", "--cached", "--", "a b"]
    );
    assert_eq!(GitCommand::StageAll.args(), vec!["add", "--all", "--", "."]);
    assert!(GitModel::commit_command("  ").is_err());
    match GitModel::commit_command("  fix  ") {
        Ok(GitCommand::Commit { message, allow_empty }) => {
            assert_eq!(message, "fix");
            assert!(!allow_empty);
        }
        _ => panic!("expected a commit invocation"),
    }
    assert_eq!(
        GitModel::pull_command(Some("origin"), None, false).err(),
        Some(String::from("pull requires both remote and branch when one is provided"))
    );
    let push = GitModel::push_command(Some("origin"), Some("main"), true).expect("both given");
    assert_eq!(push.args(), vec!["push", "-u", "origin", "main"]);
    let m = model_with("?? new.txt\n");
    match m.discard_command() {
        Some(GitCommand::CleanPath { path }) => assert_eq!(path, "new.txt"),
        _ => panic!("untracked files are cleaned"),
    }
    let t = model_with(" M tracked.txt\n");
    assert_eq!(
        t.discard_command().expect("a file is selected").args(),
        vec!["restore", "--source=HEAD", "--staged", "--worktree", "--", "tracked.txt"]
    );
    assert!(model_with("").stage_command().is_none());
}

#[test]
fn reads_branch_lists() {
    assert_eq!(
        parse_branch_list("  dev\n* main\n\n  feature/x\n"),
        vec![String::from("dev"), String::from("main"), String::from("feature/x")]
    );
}

#[test]
fn previews_text() {
    assert_eq!(compact_preview("a  b\n c", 10), "a b c");
    assert_eq!(compact_preview("abcdefgh", 6), "abc...");
}

#[test]
fn describes_ui_commands() {
    assert_eq!(UiCommand::Refresh.safety_tier(), SafetyTier::Safe);
    assert_eq!(UiCommand::Discard.safety_tier(), SafetyTier::Dangerous);
    assert_eq!(UiCommand::StageAll.safety_tier(), SafetyTier::Guarded);
    assert_eq!(UiCommand::Stage { index: 12 }.description(), "stage file at index 12");
    let long = "x".repeat(50);
    assert_eq!(
        UiCommand::Commit { message: long }.description(),
        format!("commit: \"{}...\"", "x".repeat(48))
    );
    assert_eq!(
        UiCommand::Push { remote: Some(String::from("o")), branch: Some(String::from("m")) }
            .description(),
        "push o/m"
    );
    assert_eq!(UiCommand::Pull { remote: None, branch: Some(String::from("m")) }.description(), "pull");
    let ok = CommandResult::from_outcome(String::from("fetch"), Ok(()));
    assert!(ok.success);
    assert_eq!(ok.message, "ok");
    let err = CommandResult::from_outcome(String::from("push"), Err(String::from("denied")));
    assert!(!err.success);
    assert_eq!(err.message, "denied");
}

#[test]
fn document_lines_carry_spans_and_line_numbers() {
    let span = ColorSpan { start_col: 1, end_col: 3, color: SpanColor::Keyword };
    let ln = DiffLineNumber { old: Some(4), new: None };
    let line = DocLine::new(String::from("-fn x"), LineStyle::DiffRemove)
        .with_spans(vec![span])
        .with_line_number(ln);
    let doc = Document::from_lines(vec![line, DocLine::new(String::from("plain"), LineStyle::Normal)]);
    assert_eq!(doc.line_count(), 2);
    assert_eq!(doc.line_text(0), "-fn x");
    assert_eq!(doc.line_style(0), LineStyle::DiffRemove);
    assert_eq!(doc.line_spans(0), &[span][..]);
    assert_eq!(doc.line_number(0), Some(ln));
    assert_eq!(doc.line_number(1), None);
    assert!(doc.line_spans(1).is_empty());
}

#[test]
fn description_is_git_and_the_arguments() {
    let cmds = vec![
        GitCommand::CurrentBranch,
        GitCommand::StatusPorcelainV1,
        GitCommand::Diff { path: String::from("src/a b.rs"), cached: true },
        GitCommand::RestorePath {
            path: String::from("x.txt"),
            source: Some(String::from("HEAD~1")),
            staged: true,
            worktree: false,
        },
        GitCommand::Pull { remote: Some(String::from("origin")), branch: Some(String::from("main")), rebase: true },
        GitCommand::Push { remote: None, branch: Some(String::from("dev")), set_upstream: true },
        GitCommand::Fetch { remote: None },
        GitCommand::CheckoutBranch { name: String::from("feature/x") },
    ];
    for cmd in cmds {
        assert_eq!(format!("git {}", cmd.args().join(" ")), cmd.description());
    }
}

#[test]
fn command_steps_select_before_staging() {
    let s = UiCommand::Stage { index: 4 }.steps();
    assert_eq!(s.len(), 2);
    assert!(matches!(s[0], Step::Select(4)));
    assert!(matches!(s[1], Step::StageSelected));
    let s = UiCommand::Unstage { index: 0 }.steps();
    assert_eq!(s.len(), 2);
    assert!(matches!(s[0], Step::Select(0)));
    assert!(matches!(s[1], Step::UnstageSelected));
    let s = UiCommand::Commit { message: String::from("fix it") }.steps();
    assert_eq!(s.len(), 1);
    assert!(matches!(&s[0], Step::Commit(m) if m == "fix it"));
    let s = UiCommand::Pull { remote: Some(String::from("origin")), branch: None }.steps();
    assert!(matches!(&s[0], Step::Pull(Some(r), None) if r == "origin"));
    let s = UiCommand::Discard.steps();
    assert_eq!(s.len(), 1);
    assert!(matches!(s[0], Step::DiscardSelected));
    assert!(matches!(UiCommand::Refresh.steps()[0], Step::Refresh));
}

#[test]
fn unstage_failure_names_the_path_and_the_error() {
    assert_eq!(
        unstage_failure_message("a.txt", "no HEAD"),
        "failed to unstage 'a.txt' after git restore --staged failed: no HEAD"
    );
}
