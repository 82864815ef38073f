use statusline::status::parse;

#[test]
fn empty_report_yields_initial_summary() {
    let summary = parse("");
    assert_eq!(summary.branch, "");
    assert!(summary.ahead_behind.is_none());
    assert_eq!(summary.status.unmerged, 0);
    assert_eq!(summary.status.staged, 0);
    assert_eq!(summary.status.unstaged, 0);
    assert_eq!(summary.status.untracked, 0);
    assert_eq!(summary.stash_count, 0);
}

#[test]
fn combined_report_counts() {
    let report = "# branch.head main\n\
                  # branch.ab +1 -10\n\
                  # stash 3\n\
                  1 MM N... 100644 100644 100644 aaa bbb file1\n\
                  u UU N... 100644 100644 100644 100644 aaa bbb conflict\n\
                  1 D. N... 100644 000000 100644 aaa bbb gone\n\
                  2 R. N... 100644 100644 100644 aaa bbb R100 renamed\n\
                  1 MM N... 100644 100644 100644 aaa bbb file2\n\
                  1 .M N... 100644 100644 100644 aaa bbb file3\n\
                  1 .M N... 100644 100644 100644 aaa bbb file4\n\
                  ? untracked1\n\
                  ? untracked2\n\
                  ? untracked3\n\
                  ? untracked4\n\
                  ? untracked5\n";
    let summary = parse(report);
    assert_eq!(summary.branch, "main");
    let ab = summary.ahead_behind.as_ref().unwrap();
    assert_eq!(ab.ahead, 1);
    assert_eq!(ab.behind, 10);
    assert_eq!(summary.status.unmerged, 1);
    assert_eq!(summary.status.staged, 4);
    assert_eq!(summary.status.unstaged, 4);
    assert_eq!(summary.status.untracked, 5);
    assert_eq!(summary.stash_count, 3);
}

#[test]
fn branch_head_sets_branch() {
    let summary = parse("# branch.head feature/x\n");
    assert_eq!(summary.branch, "feature/x");
}

#[test]
fn detached_head_sentinel_kept_raw() {
    let summary = parse("# branch.head (detached)\n");
    assert_eq!(summary.branch, "(detached)");
}

#[test]
fn later_branch_head_wins() {
    let summary = parse("# branch.head one\n# branch.head two\n");
    assert_eq!(summary.branch, "two");
}

#[test]
fn unknown_header_keys_ignored() {
    let summary = parse("# branch.oid 1234abcd\n# branch.upstream origin/main\n");
    assert_eq!(summary.branch, "");
    assert!(summary.ahead_behind.is_none());
}

#[test]
fn branch_ab_in_sync() {
    let summary = parse("# branch.ab +0 -0\n");
    let ab = summary.ahead_behind.as_ref().unwrap();
    assert_eq!(ab.ahead, 0);
    assert_eq!(ab.behind, 0);
}

#[test]
fn missing_branch_ab_leaves_none() {
    let summary = parse("# branch.head main\n? file\n");
    assert!(summary.ahead_behind.is_none());
}

#[test]
fn malformed_branch_ab_skipped() {
    let summary = parse("# branch.ab +x -2\n");
    assert!(summary.ahead_behind.is_none());
}

#[test]
fn branch_ab_missing_field_skipped() {
    let summary = parse("# branch.ab +1\n");
    assert!(summary.ahead_behind.is_none());
}

#[test]
fn oversized_count_skipped() {
    let summary = parse("# stash 99999999999999999999999999\n");
    assert_eq!(summary.stash_count, 0);
}

#[test]
fn stash_header_sets_count() {
    let summary = parse("# stash 7\n");
    assert_eq!(summary.stash_count, 7);
}

#[test]
fn unmerged_lines_counted() {
    let summary = parse("u UU N... 100644 100644 100644 100644 aaa bbb one\nu AA x\n");
    assert_eq!(summary.status.unmerged, 2);
}

#[test]
fn change_line_both_positions() {
    let summary = parse("1 MM N... 100644 100644 100644 aaa bbb file\n");
    assert_eq!(summary.status.staged, 1);
    assert_eq!(summary.status.unstaged, 1);
}

#[test]
fn short_change_line_skipped() {
    let summary = parse("1 M\n");
    assert_eq!(summary.status.staged, 0);
    assert_eq!(summary.status.unstaged, 0);
}

#[test]
fn unknown_tags_and_blank_lines_skipped() {
    let summary = parse("\n\nx whatever\n! ignored\n\n");
    assert_eq!(summary.status.unmerged, 0);
    assert_eq!(summary.status.staged, 0);
    assert_eq!(summary.status.unstaged, 0);
    assert_eq!(summary.status.untracked, 0);
}

#[test]
fn untracked_lines_counted() {
    let summary = parse("? one\n? two\n? three\n");
    assert_eq!(summary.status.untracked, 3);
}
