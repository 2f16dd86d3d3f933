use wgit::git_model::GitModel;
use wgit::ui::compact_status_message;

#[test]
fn compacts_whitespace_and_newlines() {
    let message = compact_status_message("stage\nselected\tfile", 64);
    assert_eq!(message, "stage selected file");
}

#[test]
fn truncates_with_ascii_ellipsis() {
    let message = compact_status_message("abcdefghij", 5);
    assert_eq!(message, "ab...");
}

use wgit::models::{FocusPane, ToolbarAction, ToolbarGroup};
use wgit::ui::{
    action_label, arrange_folder_entries, branch_prompt, build_grouped_file_maps, confirm_key,
    discard_prompt, folder_prompt, labelled, mode_error_label, normal_key_effect,
    position_or_first, repo_prompt, row_path, selection_status_message, status_line,
    toolbar_buttons, AppStatus, ButtonTone, CommitDraft, CommitEffect, FolderEntry, InputMode,
    KeyEffect, KeyInput, ListPicker, PickerEffect, PickerKind, StatusKind,
};

fn ch(s: &str) -> KeyInput {
    KeyInput::Character(String::from(s))
}

#[test]
fn keeps_short_messages_and_cuts_tiny_limits() {
    assert_eq!(compact_status_message("  ok  ", 10), "ok");
    assert_eq!(compact_status_message("abcdef", 3), "abc");
    assert_eq!(compact_status_message("abcdef", 6), "abcdef");
}

#[test]
fn status_lines_are_compacted() {
    let long = "x".repeat(200);
    let s = status_line(StatusKind::Error, &long);
    assert_eq!(s.kind, StatusKind::Error);
    assert_eq!(s.message.chars().count(), 180);
    assert!(s.message.ends_with("..."));
    let n = AppStatus::new(StatusKind::Neutral, String::from("hi"));
    assert_eq!(n.message, "hi");
}

#[test]
fn maps_normal_mode_keys() {
    assert_eq!(normal_key_effect(&ch("j"), FocusPane::Files), KeyEffect::MoveSelection(1));
    assert_eq!(normal_key_effect(&ch("K"), FocusPane::Files), KeyEffect::MoveSelection(-1));
    assert_eq!(normal_key_effect(&ch("j"), FocusPane::Diff), KeyEffect::ScrollDiff(true));
    assert_eq!(normal_key_effect(&KeyInput::ArrowUp, FocusPane::Diff), KeyEffect::ScrollDiff(false));
    assert_eq!(normal_key_effect(&ch("Q"), FocusPane::Files), KeyEffect::Quit);
    assert_eq!(normal_key_effect(&ch("P"), FocusPane::Files), KeyEffect::Toolbar(ToolbarAction::Push));
    assert_eq!(normal_key_effect(&ch("p"), FocusPane::Files), KeyEffect::Toolbar(ToolbarAction::Pull));
    assert_eq!(normal_key_effect(&ch("U"), FocusPane::Files), KeyEffect::Toolbar(ToolbarAction::UnstageAll));
    assert_eq!(normal_key_effect(&ch("S"), FocusPane::Files), KeyEffect::Toolbar(ToolbarAction::Stage));
    assert_eq!(normal_key_effect(&ch("h"), FocusPane::Diff), KeyEffect::Focus(FocusPane::Files));
    assert_eq!(normal_key_effect(&KeyInput::Tab, FocusPane::Diff), KeyEffect::ToggleFocus);
    assert_eq!(
        normal_key_effect(&KeyInput::PageDown, FocusPane::Files),
        KeyEffect::ScrollPage(FocusPane::Files, true)
    );
    assert_eq!(normal_key_effect(&ch("zz"), FocusPane::Files), KeyEffect::Ignored);
    assert_eq!(normal_key_effect(&KeyInput::Escape, FocusPane::Files), KeyEffect::Ignored);
}

#[test]
fn picker_scrolls_to_show_selection() {
    let mut p = ListPicker::new();
    p.set_index(20, 7, 6);
    assert_eq!((p.index, p.scroll), (7, 2));
    p.set_index(20, 1, 6);
    assert_eq!((p.index, p.scroll), (1, 1));
    p.set_index(5, 99, 6);
    assert_eq!((p.index, p.scroll), (4, 1));
    p.set_index(0, 3, 6);
    assert_eq!((p.index, p.scroll), (0, 0));
}

#[test]
fn picker_keys_differ_by_list() {
    let mut p = ListPicker::new();
    assert_eq!(p.handle_key(PickerKind::Repos, &KeyInput::ArrowUp, 3), PickerEffect::Ignored);
    assert_eq!(p.handle_key(PickerKind::Branches, &KeyInput::ArrowUp, 3), PickerEffect::Handled);
    assert_eq!(p.handle_key(PickerKind::Repos, &KeyInput::ArrowDown, 3), PickerEffect::Moved);
    assert_eq!(p.index, 1);
    assert_eq!(p.handle_key(PickerKind::Folders, &KeyInput::End, 10), PickerEffect::Moved);
    assert_eq!((p.index, p.scroll), (9, 2));
    assert_eq!(p.handle_key(PickerKind::Folders, &ch("."), 10), PickerEffect::ToggleHidden);
    assert_eq!(p.handle_key(PickerKind::Repos, &ch("."), 10), PickerEffect::Ignored);
    assert_eq!(p.handle_key(PickerKind::Folders, &KeyInput::Backspace, 10), PickerEffect::GoUp);
    assert_eq!(p.handle_key(PickerKind::Repos, &KeyInput::Enter, 10), PickerEffect::Confirm);
    assert_eq!(p.handle_key(PickerKind::Repos, &KeyInput::End, 0), PickerEffect::Ignored);
    let mut c = ListPicker { index: 9, scroll: 8 };
    c.clamp_to(4);
    assert_eq!((c.index, c.scroll), (3, 3));
}

#[test]
fn confirms_discard_with_y_or_enter() {
    assert_eq!(confirm_key(&ch("Y")), PickerEffect::Confirm);
    assert_eq!(confirm_key(&KeyInput::Enter), PickerEffect::Confirm);
    assert_eq!(confirm_key(&KeyInput::Escape), PickerEffect::Cancel);
    assert_eq!(confirm_key(&ch("n")), PickerEffect::Ignored);
}

#[test]
fn types_and_submits_a_commit_message() {
    let mut d = CommitDraft::new();
    let mut mode = InputMode::CommitSummary;
    assert_eq!(d.handle_key(&mut mode, &ch("Fix")), CommitEffect::Changed);
    assert_eq!(d.handle_key(&mut mode, &ch("\u{7}")), CommitEffect::Ignored);
    assert_eq!(d.handle_key(&mut mode, &ch("es")), CommitEffect::Changed);
    assert_eq!(d.handle_key(&mut mode, &KeyInput::Backspace), CommitEffect::Changed);
    assert_eq!(d.summary, "Fixe");
    assert_eq!(d.prompt(mode), "Commit summary: Fixe  [Enter] next  [Esc] cancel");
    assert_eq!(d.handle_key(&mut mode, &KeyInput::Enter), CommitEffect::Changed);
    assert_eq!(mode, InputMode::CommitBody);
    assert_eq!(
        d.prompt(mode),
        "Commit body: optional details, Enter to submit, Tab back, Esc cancel"
    );
    d.handle_key(&mut mode, &ch(" more detail "));
    assert_eq!(d.handle_key(&mut mode, &KeyInput::Enter), CommitEffect::Submit);
    assert_eq!(d.message(), Ok(String::from("Fixe\n\nmore detail")));
    assert_eq!(d.handle_key(&mut mode, &KeyInput::Tab), CommitEffect::Changed);
    assert_eq!(mode, InputMode::CommitSummary);
    assert_eq!(d.handle_key(&mut mode, &KeyInput::Escape), CommitEffect::Cancel);
}

#[test]
fn refuses_an_empty_commit_summary() {
    let d = CommitDraft { summary: String::from("   "), body: String::from("body") };
    assert_eq!(d.message(), Err(String::from("commit summary cannot be empty")));
    let e = CommitDraft { summary: String::from(" one "), body: String::from("  ") };
    assert_eq!(e.message(), Ok(String::from("one")));
    assert_eq!(
        e.prompt(InputMode::Normal),
        "Commit: type a subject, Enter for body, Esc to cancel"
    );
}

#[test]
fn builds_prompts() {
    assert_eq!(
        repo_prompt(Some("/home/me/project")),
        "Repo switcher: /home/me/project  [Enter] open  [Esc] cancel"
    );
    assert_eq!(repo_prompt(None), "Repo switcher: use arrows, Enter to open, Esc to cancel");
    assert_eq!(
        folder_prompt("/srv"),
        "Browse: /srv  [Enter] open  [Backspace] up  [.] toggle hidden  [Esc] cancel"
    );
    assert_eq!(branch_prompt(Some("main")), "Branch: main  [Enter] checkout  [Esc] cancel");
    assert_eq!(
        branch_prompt(None),
        "Branch switcher: use arrows, Enter to checkout, Esc to cancel"
    );
    assert_eq!(
        discard_prompt(Some("a.txt")),
        "Discard selected file? a.txt  [y/Enter] confirm  [Esc] cancel"
    );
    assert_eq!(discard_prompt(None), "Discard selected file? [y/Enter] confirm  [Esc] cancel");
    assert_eq!(labelled("Push failed", "no remote"), "Push failed: no remote");
    assert_eq!(mode_error_label(InputMode::CommitBody), "Commit entry failed");
    assert_eq!(mode_error_label(InputMode::FolderBrowser), "Folder browser failed");
    assert_eq!(action_label(ToolbarAction::Fetch), Some("Repository fetched"));
    assert_eq!(action_label(ToolbarAction::Commit), None);
}

#[test]
fn shows_selection_status() {
    assert_eq!(
        selection_status_message(FocusPane::Files, 3, 0, "main"),
        "[FILES]  1/3  \u{2502}  s stage  u unstage  x discard  c commit  Tab switch pane  j/k scroll"
    );
    assert_eq!(
        selection_status_message(FocusPane::Diff, 0, 0, "dev"),
        "[DIFF]  Working tree clean  \u{2502}  dev  \u{2502}  Tab switch pane  c commit  o repos  q quit"
    );
}

#[test]
fn lists_toolbar_buttons() {
    let b = toolbar_buttons();
    assert_eq!(b.len(), 14);
    assert_eq!(b[0].label, "s stage");
    assert_eq!(b[0].tone, ButtonTone::Green);
    assert_eq!(b[8].action, ToolbarAction::Discard);
    assert_eq!(b[8].group, ToolbarGroup::Danger);
    assert_eq!(b[13].action, ToolbarAction::Quit);
    assert_eq!(b[13].label, "q quit");
}

#[test]
fn maps_file_rows_and_lines() {
    let mut m = GitModel::new(String::from("/repo"));
    m.apply_status(" M a.rs\nA  b.rs\n?? c.rs\nMM d.rs\n");
    let (doc, meta) = m.build_file_document();
    let (to_index, to_line) = build_grouped_file_maps(doc.line_count(), &meta);
    assert_eq!(to_line, vec![1, 2, 4, 6]);
    assert_eq!(to_index[0], None);
    assert_eq!(to_index[1], Some(0));
    assert_eq!(to_index[3], None);
    assert_eq!(to_index[6], Some(3));
    assert_eq!(row_path(doc.line_text(1)), Some(String::from("b.rs")));
    assert_eq!(row_path("  é"), None);
    assert_eq!(row_path("ab"), None);
}

#[test]
fn arranges_folders_repositories_first() {
    let entries = vec![
        FolderEntry { name: String::from("zeta"), is_git: false },
        FolderEntry { name: String::from(".hidden"), is_git: true },
        FolderEntry { name: String::from("Beta"), is_git: true },
        FolderEntry { name: String::from("alpha"), is_git: false },
        FolderEntry { name: String::from("apple"), is_git: true },
    ];
    let shown = arrange_folder_entries(entries.clone(), false);
    let names: Vec<&str> = shown.iter().map(|e| e.name.as_str()).collect();
    assert_eq!(names, vec!["apple", "Beta", "alpha", "zeta"]);
    let all = arrange_folder_entries(entries, true);
    let names: Vec<&str> = all.iter().map(|e| e.name.as_str()).collect();
    assert_eq!(names, vec![".hidden", "apple", "Beta", "alpha", "zeta"]);
}

#[test]
fn finds_branch_position() {
    let names = vec![String::from("dev"), String::from("main"), String::from("main")];
    assert_eq!(position_or_first(&names, "main"), 1);
    assert_eq!(position_or_first(&names, "nope"), 0);
}

#[test]
fn backspace_undoes_a_typed_character() {
    for start in [InputMode::CommitSummary, InputMode::CommitBody] {
        let mut d = CommitDraft { summary: String::from("fix"), body: String::from("why") };
        let mut mode = start;
        let typed = d.handle_key(&mut mode, &KeyInput::Character(String::from("é")));
        assert_eq!(typed, CommitEffect::Changed);
        let erased = d.handle_key(&mut mode, &KeyInput::Backspace);
        assert_eq!(erased, CommitEffect::Changed);
        assert_eq!(mode, start);
        assert_eq!(d.summary, "fix");
        assert_eq!(d.body, "why");
    }
}

#[test]
fn tab_twice_returns_to_the_same_field() {
    let mut d = CommitDraft { summary: String::from("s"), body: String::new() };
    let mut mode = InputMode::CommitSummary;
    d.handle_key(&mut mode, &KeyInput::Tab);
    assert_eq!(mode, InputMode::CommitBody);
    d.handle_key(&mut mode, &KeyInput::Tab);
    assert_eq!(mode, InputMode::CommitSummary);
    assert_eq!(d.summary, "s");
    assert_eq!(d.body, "");
}
