//! Rendering summary fragments as colorized display strings.
//!
//! Every renderer is pure, never fails, and returns the empty string for
//! empty input, so callers never see stray delimiters or color codes.

use vstd::prelude::*;
use crate::summary::{
    ahead_behind_view, AheadBehind, AheadBehindView, RepoSummary, RepoSummaryView,
    WorkingTreeStatus, WorkingTreeStatusView,
};
use crate::text::{dec_digits, format_count, str_eq};

verus! {

/// Rendered divergence: a warning glyph when no upstream is configured;
/// otherwise an up-arrow with the ahead count and a down-arrow with the
/// behind count, each only when positive, with one trailing reset code
/// appended only if anything was written.
pub open spec fn ahead_behind_render_spec(ab: Option<AheadBehindView>) -> Seq<char> {
    match ab {
        Option::None => "\x1b[91m\u{26a1}\x1b[m"@,
        Option::Some(v) => if v.ahead > 0 || v.behind > 0 {
            (if v.ahead > 0 {
                "\x1b[36m\u{2191}"@ + dec_digits(v.ahead)
            } else {
                Seq::<char>::empty()
            }) + (if v.behind > 0 {
                "\x1b[35m\u{2193}"@ + dec_digits(v.behind)
            } else {
                Seq::<char>::empty()
            }) + "\x1b[m"@
        } else {
            Seq::<char>::empty()
        },
    }
}

/// An in-sync divergence (`ahead == 0`, `behind == 0`) renders as the
/// empty string.
pub proof fn lemma_in_sync_renders_empty(v: AheadBehindView)
    requires
        v.ahead == 0,
        v.behind == 0,
    ensures
        ahead_behind_render_spec(Option::Some(v)) == Seq::<char>::empty(),
{
}

/// When both counts are positive the rendering is the ahead fragment
/// (arrow glyph then count), then the behind fragment, then exactly one
/// trailing reset code at the very end.
pub proof fn lemma_diverged_render_shape(v: AheadBehindView)
    requires
        v.ahead > 0,
        v.behind > 0,
    ensures
        ahead_behind_render_spec(Option::Some(v)) =~= "\x1b[36m\u{2191}"@ + dec_digits(v.ahead)
            + "\x1b[35m\u{2193}"@ + dec_digits(v.behind) + "\x1b[m"@,
{
}

/// Renders divergence, exactly as `ahead_behind_render_spec` states.
pub fn render_ahead_behind(ab: &Option<AheadBehind>) -> (r: String)
    ensures
        r@ == ahead_behind_render_spec(ahead_behind_view(*ab)),
{
    match ab {
        Option::None => "\x1b[91m\u{26a1}\x1b[m".to_owned(),
        Option::Some(v) => {
            let mut out = String::new();
            if v.ahead > 0 {
                out.append("\x1b[36m\u{2191}");
                let digits = format_count(v.ahead);
                out.append(digits.as_str());
            }
            if v.behind > 0 {
                out.append("\x1b[35m\u{2193}");
                let digits = format_count(v.behind);
                out.append(digits.as_str());
            }
            if v.ahead > 0 || v.behind > 0 {
                out.append("\x1b[m");
            }
            proof {
                assert(out@ =~= ahead_behind_render_spec(ahead_behind_view(*ab)));
            }
            out
        },
    }
}

/// Rendered working-tree status: empty when nothing changed; otherwise
/// each nonzero count in fixed order unmerged, staged, unstaged,
/// untracked, each prefixed by its color code, with a single trailing
/// reset code.
pub open spec fn status_render_spec(st: WorkingTreeStatusView) -> Seq<char> {
    if !st.has_changes() {
        Seq::<char>::empty()
    } else {
        (if st.unmerged > 0 {
            "\x1b[33m"@ + dec_digits(st.unmerged)
        } else {
            Seq::<char>::empty()
        }) + (if st.staged > 0 {
            "\x1b[32m"@ + dec_digits(st.staged)
        } else {
            Seq::<char>::empty()
        }) + (if st.unstaged > 0 {
            "\x1b[31m"@ + dec_digits(st.unstaged)
        } else {
            Seq::<char>::empty()
        }) + (if st.untracked > 0 {
            "\x1b[90m"@ + dec_digits(st.untracked)
        } else {
            Seq::<char>::empty()
        }) + "\x1b[m"@
    }
}

/// A status with all four counts zero renders as exactly the empty string.
pub proof fn lemma_unchanged_status_renders_empty(st: WorkingTreeStatusView)
    requires
        st.unmerged == 0,
        st.staged == 0,
        st.unstaged == 0,
        st.untracked == 0,
    ensures
        status_render_spec(st) == Seq::<char>::empty(),
{
}

/// Renders working-tree counts, exactly as `status_render_spec` states.
pub fn render_status(st: &WorkingTreeStatus) -> (r: String)
    ensures
        r@ == status_render_spec(st@),
{
    let mut out = String::new();
    if !st.has_changes() {
        return out;
    }
    if st.unmerged > 0 {
        out.append("\x1b[33m");
        let digits = format_count(st.unmerged);
        out.append(digits.as_str());
    }
    if st.staged > 0 {
        out.append("\x1b[32m");
        let digits = format_count(st.staged);
        out.append(digits.as_str());
    }
    if st.unstaged > 0 {
        out.append("\x1b[31m");
        let digits = format_count(st.unstaged);
        out.append(digits.as_str());
    }
    if st.untracked > 0 {
        out.append("\x1b[90m");
        let digits = format_count(st.untracked);
        out.append(digits.as_str());
    }
    out.append("\x1b[m");
    proof {
        assert(out@ =~= status_render_spec(st@));
    }
    out
}

/// Rendered stash count: empty when zero, else the count in curly braces,
/// uncolored.
pub open spec fn stash_render_spec(n: int) -> Seq<char> {
    if n == 0 {
        Seq::<char>::empty()
    } else {
        "{"@ + dec_digits(n) + "}"@
    }
}

/// Renders the stash count, exactly as `stash_render_spec` states.
pub fn render_stash(count: usize) -> (r: String)
    ensures
        r@ == stash_render_spec(count as int),
{
    let mut out = String::new();
    if count == 0 {
        return out;
    }
    out.append("{");
    let digits = format_count(count);
    out.append(digits.as_str());
    out.append("}");
    proof {
        assert(out@ =~= stash_render_spec(count as int));
    }
    out
}

/// Whether `suffix` ends `s`.
pub open spec fn ends_with(s: Seq<char>, suffix: Seq<char>) -> bool {
    s.len() >= suffix.len() && s.skip(s.len() - suffix.len()) == suffix
}

fn ends_with_str(s: &str, suffix: &str) -> (r: bool)
    ensures
        r == ends_with(s@, suffix@),
{
    let n = s.unicode_len();
    let m = suffix.unicode_len();
    if m > n {
        return false;
    }
    let tail = s.substring_char(n - m, n);
    proof {
        assert(tail@ =~= s@.skip(n as int - m as int));
    }
    str_eq(tail, suffix)
}

/// The whole rendered stat string: the colored branch icon always leads;
/// the branch name follows unless the repository root already ends with
/// it; then divergence, the working-tree counts wrapped in parentheses
/// only when there are changes, and the stash count.
pub open spec fn summary_render_spec(m: RepoSummaryView, root: Seq<char>) -> Seq<char> {
    "\x1b[38;5;202m\u{e0a0}\x1b[m"@ + (if !ends_with(root, m.branch) {
        m.branch
    } else {
        Seq::<char>::empty()
    }) + ahead_behind_render_spec(m.ahead_behind) + (if m.status.has_changes() {
        "("@ + status_render_spec(m.status) + ")"@
    } else {
        Seq::<char>::empty()
    }) + stash_render_spec(m.stash_count)
}

/// A summary without working-tree changes contributes no parenthesized
/// status section to the stat string.
pub proof fn lemma_quiet_status_never_wrapped(m: RepoSummaryView, root: Seq<char>)
    requires
        !m.status.has_changes(),
    ensures
        summary_render_spec(m, root) =~= "\x1b[38;5;202m\u{e0a0}\x1b[m"@ + (if !ends_with(
            root,
            m.branch,
        ) {
            m.branch
        } else {
            Seq::<char>::empty()
        }) + ahead_behind_render_spec(m.ahead_behind) + stash_render_spec(m.stash_count),
{
}

/// Renders a summary into the stat string, exactly as
/// `summary_render_spec` states.
pub fn render_summary(sum: &RepoSummary, root: &str) -> (r: String)
    ensures
        r@ == summary_render_spec(sum@, root@),
{
    let mut out = "\x1b[38;5;202m\u{e0a0}\x1b[m".to_owned();
    if !ends_with_str(root, sum.branch.as_str()) {
        out.append(sum.branch.as_str());
    }
    let ab = render_ahead_behind(&sum.ahead_behind);
    out.append(ab.as_str());
    if sum.status.has_changes() {
        out.append("(");
        let st = render_status(&sum.status);
        out.append(st.as_str());
        out.append(")");
    }
    let stash = render_stash(sum.stash_count);
    out.append(stash.as_str());
    proof {
        assert(out@ =~= summary_render_spec(sum@, root@));
    }
    out
}

} // verus!
