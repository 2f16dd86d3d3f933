use wgit::repo_store::{
    recent_repos, remember_repo_in, render_recent_repos, same_path, with_current_first,
};

#[test]
fn deduplicates_and_skips_blank_lines() {
    let stored = "/tmp/repo-a\n\n/tmp/repo-a\n/tmp/repo-b\n";
    let repos = recent_repos(Some(stored));
    assert_eq!(repos, vec![String::from("/tmp/repo-a"), String::from("/tmp/repo-b")]);
}

#[test]
fn writes_one_repo_per_line() {
    let repos = vec![String::from("/tmp/repo-a"), String::from("/tmp/repo-b")];
    let body = render_recent_repos(&repos);
    assert_eq!(body, "/tmp/repo-a\n/tmp/repo-b\n");
}

#[test]
fn missing_store_gives_empty_list() {
    assert!(recent_repos(None).is_empty());
}

#[test]
fn trims_lines_and_keeps_twelve_repos() {
    let mut stored = String::new();
    for i in 0..15 {
        stored.push_str(&format!("  /repos/r{i}  \r\n"));
    }
    let repos = recent_repos(Some(&stored));
    assert_eq!(repos.len(), 12);
    assert_eq!(repos[0], "/repos/r0");
    assert_eq!(repos[11], "/repos/r11");
}

#[test]
fn dedupes_paths_component_wise() {
    let repos = recent_repos(Some("/tmp/a/\n/tmp//a\n/tmp/./a\n./b\nb\n"));
    assert_eq!(repos, vec![String::from("/tmp/a/"), String::from("./b"), String::from("b")]);
}

#[test]
fn empty_list_writes_nothing() {
    assert_eq!(render_recent_repos(&Vec::new()), "");
}

#[test]
fn stored_list_reads_back() {
    let repos = vec![
        String::from("/home/u/one"),
        String::from("/home/u/two"),
        String::from("/srv/three"),
    ];
    let body = render_recent_repos(&repos);
    assert_eq!(recent_repos(Some(&body)), repos);
}

#[test]
fn remembering_puts_repo_first() {
    let repos = vec![String::from("/a"), String::from("/b/"), String::from("/c")];
    let out = remember_repo_in(repos, String::from("/b"));
    assert_eq!(out, vec![String::from("/b"), String::from("/a"), String::from("/c")]);
}

#[test]
fn remembering_keeps_twelve() {
    let repos: Vec<String> = (0..12).map(|i| format!("/r{i}")).collect();
    let out = remember_repo_in(repos, String::from("/new"));
    assert_eq!(out.len(), 12);
    assert_eq!(out[0], "/new");
    assert_eq!(out[11], "/r10");
}

#[test]
fn picker_list_starts_with_current() {
    let repos = vec![String::from("/a"), String::from("/cur"), String::from("/b")];
    let out = with_current_first(&repos, "/cur/");
    assert_eq!(out, vec![String::from("/cur/"), String::from("/a"), String::from("/b")]);
}

#[test]
fn compares_paths_by_components() {
    assert!(same_path("/tmp/a", "/tmp//a/"));
    assert!(same_path("a/./b", "a/b"));
    assert!(!same_path("./a", "a"));
    assert!(!same_path("/a", "a"));
    assert!(!same_path("/a/b", "/a/c"));
}

#[test]
fn remembering_in_any_stored_list_reads_back() {
    let stored = "  /tmp/a  \n\n/tmp/b\r\n/tmp/a\n/tmp//b/\n";
    let list = recent_repos(Some(stored));
    assert_eq!(list, vec![String::from("/tmp/a"), String::from("/tmp/b")]);
    let remembered = remember_repo_in(list, String::from("/tmp/c"));
    assert_eq!(remembered[0], "/tmp/c");
    let text = render_recent_repos(&remembered);
    assert_eq!(recent_repos(Some(&text)), remembered);
}
