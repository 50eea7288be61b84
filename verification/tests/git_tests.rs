use ade::git::{parse_git_status, parse_usize, status_fits};

#[test]
fn git_status_parses_branch_and_worktree_totals() {
    let status = "## feature/live-git...origin/feature/live-git\n M src/main.rs\nA  icon.svg";
    let numstat = "97\t4\tsrc/main.rs\n12\t0\ticon.svg";
    let git = parse_git_status(status, numstat, None).unwrap();

    assert_eq!(git.branch, "feature/live-git");
    assert_eq!(git.changed_files, 2);
    assert_eq!((git.additions, git.deletions), (109, 4));
}

#[test]
fn git_status_handles_clean_detached_head() {
    let git = parse_git_status("## HEAD (no branch)", "", Some("a1b2c3d")).unwrap();

    assert_eq!(git.branch, "a1b2c3d");
    assert_eq!(git.changed_files, 0);
    assert_eq!((git.additions, git.deletions), (0, 0));
}

#[test]
fn detached_head_without_a_commit_is_called_detached() {
    let git = parse_git_status("## HEAD (no branch)\n?? new.txt", "", None).unwrap();
    assert_eq!(git.branch, "detached");
    assert_eq!(git.changed_files, 1);
}

#[test]
fn empty_repository_and_ahead_counts_are_stripped() {
    let git = parse_git_status("## No commits yet on main", "", None).unwrap();
    assert_eq!(git.branch, "main");
    let git = parse_git_status("## work [ahead 2]\r\n M a.rs\r\n", "", None).unwrap();
    assert_eq!(git.branch, "work");
    assert_eq!(git.changed_files, 1);
}

#[test]
fn status_without_a_header_is_not_read() {
    assert_eq!(parse_git_status("", "", None), None);
    assert_eq!(parse_git_status(" M src/main.rs", "", None), None);
}

#[test]
fn binary_and_malformed_numstat_fields_count_as_zero() {
    let git = parse_git_status("## main", "-\t-\timage.png\n+3\tx\tfile\n5", None).unwrap();
    assert_eq!((git.additions, git.deletions), (8, 0));
}

#[test]
fn numbers_are_read_as_usize_from_str_reads_them() {
    let chars = |text: &str| text.chars().collect::<Vec<char>>();
    assert_eq!(parse_usize(&chars("42")), Some(42));
    assert_eq!(parse_usize(&chars("+7")), Some(7));
    assert_eq!(parse_usize(&chars("+")), None);
    assert_eq!(parse_usize(&chars("")), None);
    assert_eq!(parse_usize(&chars("-1")), None);
    assert_eq!(parse_usize(&chars("1 ")), None);
    assert_eq!(parse_usize(&chars("99999999999999999999999")), None);
}

#[test]
fn overflowing_totals_matter_only_under_a_status_header() {
    let huge = format!("{}\t1\ta.rs\n1\t0\tb.rs", usize::MAX);
    assert!(status_fits("## main", "3\t4\ta.rs"));
    assert!(!status_fits("## main", &huge));
    assert!(status_fits(" M a.rs", &huge));
    assert!(status_fits("", &huge));
    assert_eq!(parse_git_status(" M a.rs", &huge, None), None);
    let at_limit = format!("{}\t0\ta.rs", usize::MAX);
    assert!(status_fits("## main", &at_limit));
    assert_eq!(parse_git_status("## main", &at_limit, None).unwrap().additions, usize::MAX);
}
