//! Parsing one machine-readable status report into a [`RepoSummary`].
//!
//! The report is newline-separated.  Header records start with `#` and
//! carry space-separated fields (`branch.head`, `branch.ab`, `stash`);
//! change records are classified by their leading character (`u`, `1`,
//! `2`, `?`).  Malformed or unknown lines are skipped silently.

use vstd::prelude::*;
use crate::summary::{
    AheadBehind, AheadBehindView, RepoSummary, RepoSummaryView, WorkingTreeStatusView,
};
use crate::text::{
    dec_value, is_count, parse_count, split_at_char, split_str, str_eq, views_of,
};

verus! {

/// One leading `+` or `-` sign removed.
pub open spec fn strip_sign(s: Seq<char>) -> Seq<char> {
    if s.len() > 0 && (s[0] == '+' || s[0] == '-') {
        s.skip(1)
    } else {
        s
    }
}

/// What a header record does to the summary built so far.
pub open spec fn apply_header(m: RepoSummaryView, fields: Seq<Seq<char>>) -> RepoSummaryView {
    if fields.len() >= 3 && fields[1] == "branch.head"@ {
        RepoSummaryView { branch: fields[2], ..m }
    } else if fields.len() >= 4 && fields[1] == "branch.ab"@ {
        let a = strip_sign(fields[2]);
        let b = strip_sign(fields[3]);
        if is_count(a) && is_count(b) {
            RepoSummaryView {
                ahead_behind: Option::Some(
                    AheadBehindView { ahead: dec_value(a), behind: dec_value(b) },
                ),
                ..m
            }
        } else {
            m
        }
    } else if fields.len() >= 3 && fields[1] == "stash"@ {
        if is_count(fields[2]) {
            RepoSummaryView { stash_count: dec_value(fields[2]), ..m }
        } else {
            m
        }
    } else {
        m
    }
}

/// What one record does to the summary built so far.
pub open spec fn apply_line(m: RepoSummaryView, l: Seq<char>) -> RepoSummaryView {
    if l.len() == 0 {
        m
    } else if l[0] == '#' {
        apply_header(m, split_at_char(l, ' '))
    } else if l[0] == 'u' {
        RepoSummaryView {
            status: WorkingTreeStatusView { unmerged: m.status.unmerged + 1, ..m.status },
            ..m
        }
    } else if l[0] == '1' || l[0] == '2' {
        if l.len() >= 4 {
            RepoSummaryView {
                status: WorkingTreeStatusView {
                    staged: m.status.staged + if l[2] != '.' {
                        1int
                    } else {
                        0int
                    },
                    unstaged: m.status.unstaged + if l[3] != '.' {
                        1int
                    } else {
                        0int
                    },
                    ..m.status
                },
                ..m
            }
        } else {
            m
        }
    } else if l[0] == '?' {
        RepoSummaryView {
            status: WorkingTreeStatusView { untracked: m.status.untracked + 1, ..m.status },
            ..m
        }
    } else {
        m
    }
}

/// The records applied in order, starting from the all-empty summary.
pub open spec fn parse_lines(ls: Seq<Seq<char>>) -> RepoSummaryView
    decreases ls.len(),
{
    if ls.len() == 0 {
        RepoSummaryView::initial()
    } else {
        apply_line(parse_lines(ls.drop_last()), ls.last())
    }
}

/// The summary a whole report parses to.
pub open spec fn parse_spec(report: Seq<char>) -> RepoSummaryView {
    parse_lines(split_at_char(report, '\n'))
}

/// An empty report parses to the all-empty summary.
pub proof fn lemma_empty_report_parses_to_initial()
    ensures
        parse_spec(Seq::<char>::empty()) == RepoSummaryView::initial(),
{
    let s = Seq::<char>::empty();
    assert(split_at_char(s, '\n') == seq![s]);
    assert(seq![s].drop_last() =~= Seq::<Seq<char>>::empty());
    assert(seq![s].last() == s);
    assert(parse_lines(Seq::<Seq<char>>::empty()) == RepoSummaryView::initial());
    assert(parse_lines(seq![s]) == apply_line(RepoSummaryView::initial(), s));
}

/// How many of the records are nonempty.
pub open spec fn nonempty_count(ls: Seq<Seq<char>>) -> int
    decreases ls.len(),
{
    if ls.len() == 0 {
        0
    } else {
        nonempty_count(ls.drop_last()) + if ls.last().len() > 0 {
            1int
        } else {
            0int
        }
    }
}

/// Every working-tree counter stays within the number of nonempty records:
/// each record raises each counter by at most one, and only nonempty ones do.
pub proof fn lemma_parse_counts_bounded(ls: Seq<Seq<char>>)
    ensures
        0 <= parse_lines(ls).status.unmerged <= nonempty_count(ls),
        0 <= parse_lines(ls).status.staged <= nonempty_count(ls),
        0 <= parse_lines(ls).status.unstaged <= nonempty_count(ls),
        0 <= parse_lines(ls).status.untracked <= nonempty_count(ls),
        0 <= nonempty_count(ls) <= ls.len(),
    decreases ls.len(),
{
    if ls.len() > 0 {
        lemma_parse_counts_bounded(ls.drop_last());
    }
}

pub proof fn lemma_nonempty_count_prepend(p: Seq<char>, ls: Seq<Seq<char>>)
    ensures
        nonempty_count(seq![p] + ls) == nonempty_count(ls) + if p.len() > 0 {
            1int
        } else {
            0int
        },
    decreases ls.len(),
{
    if ls.len() == 0 {
        assert((seq![p] + ls) =~= seq![p]);
        assert(seq![p].drop_last() =~= Seq::<Seq<char>>::empty());
        assert(seq![p].last() == p);
        assert(nonempty_count(seq![p]) == nonempty_count(seq![p].drop_last()) + if p.len() > 0 {
            1int
        } else {
            0int
        });
        assert(nonempty_count(Seq::<Seq<char>>::empty()) == 0);
    } else {
        assert((seq![p] + ls).len() == ls.len() + 1);
        assert((seq![p] + ls).drop_last() =~= seq![p] + ls.drop_last());
        assert((seq![p] + ls).last() == ls.last());
        lemma_nonempty_count_prepend(p, ls.drop_last());
    }
}

/// The nonempty records of a split never outnumber the characters split.
pub proof fn lemma_nonempty_count_split(s: Seq<char>, sep: char)
    ensures
        nonempty_count(split_at_char(s, sep)) <= s.len(),
    decreases s.len(),
{
    crate::text::lemma_first_index_spec(s, sep);
    match crate::text::first_index(s, sep) {
        Option::Some(i) => {
            assert(split_at_char(s, sep) == seq![s.take(i)] + split_at_char(s.skip(i + 1), sep));
            lemma_nonempty_count_split(s.skip(i + 1), sep);
            lemma_nonempty_count_prepend(s.take(i), split_at_char(s.skip(i + 1), sep));
            assert(s.take(i).len() == i);
            assert(s.skip(i + 1).len() == s.len() - i - 1);
        },
        Option::None => {
            assert(split_at_char(s, sep) == seq![s]);
            lemma_nonempty_count_prepend(s, Seq::<Seq<char>>::empty());
            assert(seq![s] + Seq::<Seq<char>>::empty() =~= seq![s]);
            assert(nonempty_count(Seq::<Seq<char>>::empty()) == 0);
        },
    }
}

pub proof fn lemma_nonempty_count_take(ls: Seq<Seq<char>>, k: int)
    requires
        0 <= k <= ls.len(),
    ensures
        nonempty_count(ls.take(k)) <= nonempty_count(ls),
    decreases ls.len() - k,
{
    if k == ls.len() {
        assert(ls.take(k) =~= ls);
    } else {
        lemma_nonempty_count_take(ls, k + 1);
        assert(ls.take(k + 1).drop_last() =~= ls.take(k));
    }
}

/// One leading `+` or `-` sign removed.
fn strip_sign_str<'a>(s: &'a str) -> (r: &'a str)
    ensures
        r@ == strip_sign(s@),
{
    let n = s.unicode_len();
    if n > 0 {
        let c = s.get_char(0);
        if c == '+' || c == '-' {
            let r = s.substring_char(1, n);
            proof {
                assert(r@ =~= s@.skip(1));
            }
            return r;
        }
    }
    s
}

/// Applies one record to the summary, exactly as `apply_line` states.
fn apply_line_exec(sum: &mut RepoSummary, line: &str)
    requires
        line@.len() > 0 ==> old(sum).status.unmerged < usize::MAX && old(
            sum,
        ).status.staged < usize::MAX && old(sum).status.unstaged < usize::MAX && old(
            sum,
        ).status.untracked < usize::MAX,
    ensures
        final(sum)@ == apply_line(old(sum)@, line@),
{
    let n = line.unicode_len();
    if n == 0 {
        return ;
    }
    let c0 = line.get_char(0);
    if c0 == '#' {
        let fields = split_str(line, ' ');
        let ghost fv = views_of(fields@);
        proof {
            assert(fv == split_at_char(line@, ' '));
        }
        if fields.len() >= 3 && str_eq(fields[1].as_str(), "branch.head") {
            assert(fv[1] == "branch.head"@);
            let name = &fields[2];
            sum.branch = name.clone();
            assert(fv[2] == name@);
        } else if fields.len() >= 4 && str_eq(fields[1].as_str(), "branch.ab") {
            assert(fv[1] == "branch.ab"@);
            let a = parse_count(strip_sign_str(fields[2].as_str()));
            let b = parse_count(strip_sign_str(fields[3].as_str()));
            if let (Option::Some(x), Option::Some(y)) = (a, b) {
                sum.ahead_behind = Option::Some(AheadBehind { ahead: x, behind: y });
            }
        } else if fields.len() >= 3 && str_eq(fields[1].as_str(), "stash") {
            assert(fv[1] == "stash"@);
            if let Option::Some(v) = parse_count(fields[2].as_str()) {
                sum.stash_count = v;
            }
        }
    } else if c0 == 'u' {
        sum.status.unmerged = sum.status.unmerged + 1;
    } else if c0 == '1' || c0 == '2' {
        if n >= 4 {
            if line.get_char(2) != '.' {
                sum.status.staged = sum.status.staged + 1;
            }
            if line.get_char(3) != '.' {
                sum.status.unstaged = sum.status.unstaged + 1;
            }
        }
    } else if c0 == '?' {
        sum.status.untracked = sum.status.untracked + 1;
    }
}

/// Parses one status report, exactly as `parse_spec` states.  Never fails:
/// malformed or unknown lines leave the summary untouched.
pub fn parse(report: &str) -> (r: RepoSummary)
    ensures
        r@ == parse_spec(report@),
{
    let total = report.unicode_len();
    let lines = split_str(report, '\n');
    let count = lines.len();
    let mut sum = RepoSummary::new();
    let ghost ls = views_of(lines@);
    proof {
        assert(ls.take(0) =~= Seq::<Seq<char>>::empty());
    }
    for i in 0..count
        invariant
            count == lines@.len(),
            ls == views_of(lines@),
            ls == split_at_char(report@, '\n'),
            total == report@.len(),
            sum@ == parse_lines(ls.take(i as int)),
    {
        proof {
            lemma_parse_counts_bounded(ls.take(i as int));
            lemma_nonempty_count_take(ls, i as int + 1);
            lemma_nonempty_count_split(report@, '\n');
            assert(ls.take(i as int + 1).drop_last() =~= ls.take(i as int));
            assert(ls.take(i as int + 1).last() == ls[i as int]);
            if ls[i as int].len() > 0 {
                assert(nonempty_count(ls.take(i as int)) + 1 == nonempty_count(
                    ls.take(i as int + 1),
                ));
                assert(sum.status.unmerged < usize::MAX);
            }
        }
        assert(lines@[i as int]@ == ls[i as int]);
        apply_line_exec(&mut sum, lines[i].as_str());
    }
    proof {
        assert(ls.take(count as int) =~= ls);
    }
    sum
}

} // verus!
