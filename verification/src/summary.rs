//! The structured picture of a repository that one status report yields.

use vstd::prelude::*;

verus! {

/// Divergence between the local branch tip and its upstream counterpart.
/// `ahead` local-only commits, `behind` upstream-only commits; `{0, 0}`
/// means "in sync", which is distinct from having no upstream at all
/// (`Option::<AheadBehind>::None` at the use sites).
pub struct AheadBehind {
    pub ahead: usize,
    pub behind: usize,
}

/// Mathematical image of [`AheadBehind`]: the two counts as unbounded integers.
pub struct AheadBehindView {
    pub ahead: int,
    pub behind: int,
}

impl View for AheadBehind {
    type V = AheadBehindView;

    open spec fn view(&self) -> AheadBehindView {
        AheadBehindView { ahead: self.ahead as int, behind: self.behind as int }
    }
}

/// Counts, not identities, of working-tree entries in each category.
pub struct WorkingTreeStatus {
    pub unmerged: usize,
    pub staged: usize,
    pub unstaged: usize,
    pub untracked: usize,
}

/// Mathematical image of [`WorkingTreeStatus`].
pub struct WorkingTreeStatusView {
    pub unmerged: int,
    pub staged: int,
    pub unstaged: int,
    pub untracked: int,
}

impl View for WorkingTreeStatus {
    type V = WorkingTreeStatusView;

    open spec fn view(&self) -> WorkingTreeStatusView {
        WorkingTreeStatusView {
            unmerged: self.unmerged as int,
            staged: self.staged as int,
            unstaged: self.unstaged as int,
            untracked: self.untracked as int,
        }
    }
}

impl WorkingTreeStatusView {
    /// A status has changes exactly when one of the four counts is nonzero.
    pub open spec fn has_changes(self) -> bool {
        self.unmerged > 0 || self.staged > 0 || self.unstaged > 0 || self.untracked > 0
    }
}

impl WorkingTreeStatus {
    /// True if and only if at least one of the four counts is nonzero.
    pub fn has_changes(&self) -> (r: bool)
        ensures
            r == self@.has_changes(),
    {
        self.unmerged > 0 || self.staged > 0 || self.unstaged > 0 || self.untracked > 0
    }
}

/// The view of an optional divergence pair.
pub open spec fn ahead_behind_view(ab: Option<AheadBehind>) -> Option<AheadBehindView> {
    match ab {
        Option::Some(v) => Option::Some(v@),
        Option::None => Option::None,
    }
}

/// Everything one parse pass learns about the repository.
pub struct RepoSummary {
    /// Raw branch name; may be empty or a detached-HEAD sentinel.
    pub branch: String,
    /// `None` when the report carried no divergence header (no upstream).
    pub ahead_behind: Option<AheadBehind>,
    pub status: WorkingTreeStatus,
    pub stash_count: usize,
}

/// Mathematical image of [`RepoSummary`].
pub struct RepoSummaryView {
    pub branch: Seq<char>,
    pub ahead_behind: Option<AheadBehindView>,
    pub status: WorkingTreeStatusView,
    pub stash_count: int,
}

impl View for RepoSummary {
    type V = RepoSummaryView;

    open spec fn view(&self) -> RepoSummaryView {
        RepoSummaryView {
            branch: self.branch@,
            ahead_behind: ahead_behind_view(self.ahead_behind),
            status: self.status@,
            stash_count: self.stash_count as int,
        }
    }
}

impl RepoSummaryView {
    /// The summary an empty report parses to.
    pub open spec fn initial() -> RepoSummaryView {
        RepoSummaryView {
            branch: Seq::<char>::empty(),
            ahead_behind: Option::None,
            status: WorkingTreeStatusView { unmerged: 0, staged: 0, unstaged: 0, untracked: 0 },
            stash_count: 0,
        }
    }
}

impl RepoSummary {
    /// The all-empty summary that parsing starts from.
    pub fn new() -> (r: RepoSummary)
        ensures
            r@ == RepoSummaryView::initial(),
    {
        RepoSummary {
            branch: String::new(),
            ahead_behind: Option::None,
            status: WorkingTreeStatus { unmerged: 0, staged: 0, unstaged: 0, untracked: 0 },
            stash_count: 0,
        }
    }
}

} // verus!
