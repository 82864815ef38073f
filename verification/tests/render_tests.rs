use statusline::render::{render_ahead_behind, render_stash, render_status, render_summary};
use statusline::status::parse;
use statusline::summary::{AheadBehind, RepoSummary, WorkingTreeStatus};

fn status(unmerged: usize, staged: usize, unstaged: usize, untracked: usize) -> WorkingTreeStatus {
    WorkingTreeStatus { unmerged, staged, unstaged, untracked }
}

#[test]
fn no_upstream_renders_alert_glyph() {
    assert_eq!(render_ahead_behind(&None), "\x1b[91m\u{26a1}\x1b[m");
}

#[test]
fn in_sync_renders_empty() {
    let r = render_ahead_behind(&Some(AheadBehind { ahead: 0, behind: 0 }));
    assert_eq!(r, "");
}

#[test]
fn ahead_only() {
    let r = render_ahead_behind(&Some(AheadBehind { ahead: 3, behind: 0 }));
    assert_eq!(r, "\x1b[36m\u{2191}3\x1b[m");
}

#[test]
fn behind_only() {
    let r = render_ahead_behind(&Some(AheadBehind { ahead: 0, behind: 12 }));
    assert_eq!(r, "\x1b[35m\u{2193}12\x1b[m");
}

#[test]
fn diverged_renders_ahead_then_behind_one_reset() {
    let r = render_ahead_behind(&Some(AheadBehind { ahead: 2, behind: 10 }));
    assert_eq!(r, "\x1b[36m\u{2191}2\x1b[35m\u{2193}10\x1b[m");
    assert_eq!(r.matches("\x1b[m").count(), 1);
    assert!(r.ends_with("\x1b[m"));
}

#[test]
fn unchanged_status_renders_empty() {
    assert_eq!(render_status(&status(0, 0, 0, 0)), "");
}

#[test]
fn full_status_fixed_order_one_reset() {
    let r = render_status(&status(1, 4, 4, 5));
    assert_eq!(r, "\x1b[33m1\x1b[32m4\x1b[31m4\x1b[90m5\x1b[m");
}

#[test]
fn partial_status_skips_zero_counts() {
    let r = render_status(&status(0, 2, 0, 7));
    assert_eq!(r, "\x1b[32m2\x1b[90m7\x1b[m");
}

#[test]
fn large_counts_render_in_full() {
    let r = render_status(&status(0, 0, 4321, 0));
    assert_eq!(r, "\x1b[31m4321\x1b[m");
}

#[test]
fn stash_zero_renders_empty() {
    assert_eq!(render_stash(0), "");
}

#[test]
fn stash_count_in_braces() {
    assert_eq!(render_stash(3), "{3}");
}

#[test]
fn has_changes_combinations() {
    assert!(!status(0, 0, 0, 0).has_changes());
    assert!(status(1, 0, 0, 0).has_changes());
    assert!(status(0, 1, 0, 0).has_changes());
    assert!(status(0, 0, 1, 0).has_changes());
    assert!(status(0, 0, 0, 1).has_changes());
    assert!(status(2000, 0, 0, 3000).has_changes());
}

#[test]
fn summary_with_everything() {
    let sum = RepoSummary {
        branch: "master".to_owned(),
        ahead_behind: Some(AheadBehind { ahead: 1, behind: 0 }),
        status: status(0, 2, 0, 0),
        stash_count: 3,
    };
    let r = render_summary(&sum, "/home/u/repo");
    assert_eq!(
        r,
        "\x1b[38;5;202m\u{e0a0}\x1b[m\
         master\
         \x1b[36m\u{2191}1\x1b[m\
         (\x1b[32m2\x1b[m)\
         {3}"
    );
}

#[test]
fn summary_quiet_repo_is_icon_and_branch_and_alert() {
    let sum = RepoSummary {
        branch: "main".to_owned(),
        ahead_behind: None,
        status: status(0, 0, 0, 0),
        stash_count: 0,
    };
    let r = render_summary(&sum, "/home/u/repo");
    assert_eq!(r, "\x1b[38;5;202m\u{e0a0}\x1b[m" .to_owned() + "main" + "\x1b[91m\u{26a1}\x1b[m");
    assert!(!r.contains('('));
}

#[test]
fn summary_omits_branch_when_root_ends_with_it() {
    let sum = RepoSummary {
        branch: "master".to_owned(),
        ahead_behind: Some(AheadBehind { ahead: 0, behind: 0 }),
        status: status(0, 0, 0, 0),
        stash_count: 0,
    };
    let r = render_summary(&sum, "/home/u/master");
    assert_eq!(r, "\x1b[38;5;202m\u{e0a0}\x1b[m");
}

#[test]
fn parsed_summary_renders_end_to_end() {
    let report = "# branch.head main\n# branch.ab +1 -10\n? new\n";
    let sum = parse(report);
    let r = render_summary(&sum, "/srv/repo");
    assert_eq!(
        r,
        "\x1b[38;5;202m\u{e0a0}\x1b[m\
         main\
         \x1b[36m\u{2191}1\x1b[35m\u{2193}10\x1b[m\
         (\x1b[90m1\x1b[m)"
    );
}
