//! Assembling the final prompt line from the abbreviated repository root,
//! the rendered stat string, and the abbreviated remainder path.

use vstd::prelude::*;
use crate::path::{abbrev_path_spec, abbreviate};
use crate::text::str_eq;

verus! {

/// The gateway to the version-control system.  Implementations live
/// outside this crate (a live subprocess, a test double); the assembler
/// depends only on these signatures.
pub trait VCS {
    /// Absolute repository root path, without a trailing separator.
    fn root_dir(&self) -> String;

    /// Raw name of the checked-out branch.
    fn branch(&self) -> String;

    /// The rendered stat string summarizing the repository state.
    fn stat(&self) -> String;
}

/// Whether `root` is a prefix of `path` ending on a segment boundary:
/// either the whole of `path`, or followed there by a separator.
pub open spec fn root_boundary(path: Seq<char>, root: Seq<char>) -> bool {
    root.len() <= path.len() && path.take(root.len() as int) == root && (root.len() == path.len()
        || path[root.len() as int] == '/')
}

/// The assembled line: the common prefix abbreviated keeping its last
/// segment, then the stat string, then the remainder abbreviated keeping
/// its last segment.
pub open spec fn assemble_spec(path: Seq<char>, root: Seq<char>, stat: Seq<char>) -> Seq<char> {
    abbrev_path_spec(path.take(root.len() as int), 1) + stat + abbrev_path_spec(
        path.skip(root.len() as int),
        1,
    )
}

/// Assembles the prompt line.  The root must bound a prefix of the
/// current path; `assemble_checked` is the form that tests this instead
/// of requiring it.
pub fn assemble(path: &str, root: &str, stat: &str) -> (r: String)
    requires
        root_boundary(path@, root@),
    ensures
        r@ == assemble_spec(path@, root@, stat@),
{
    let n = path.unicode_len();
    let m = root.unicode_len();
    let common = path.substring_char(0, m);
    let remainder = path.substring_char(m, n);
    proof {
        assert(common@ =~= path@.take(m as int));
        assert(remainder@ =~= path@.skip(m as int));
    }
    let mut out = abbreviate(common, 1);
    out.append(stat);
    let tail = abbreviate(remainder, 1);
    out.append(tail.as_str());
    out
}

/// Assembles the prompt line after testing the boundary: `Some` exactly
/// when `root` is a prefix of `path` aligned to a separator, `None` on a
/// contract breach by the gateway.
pub fn assemble_checked(path: &str, root: &str, stat: &str) -> (r: Option<String>)
    ensures
        r is Some <==> root_boundary(path@, root@),
        r matches Some(s) ==> s@ == assemble_spec(path@, root@, stat@),
{
    let n = path.unicode_len();
    let m = root.unicode_len();
    if m > n {
        return Option::None;
    }
    let common = path.substring_char(0, m);
    proof {
        assert(common@ =~= path@.take(m as int));
    }
    if !str_eq(common, root) {
        return Option::None;
    }
    if m < n && path.get_char(m) != '/' {
        return Option::None;
    }
    Option::Some(assemble(path, root, stat))
}

/// Asks the gateway for the repository root and stat string and assembles
/// the line.  What the gateway answers is outside this crate, so the
/// contract promises the assembled shape for whatever came back; the
/// exact input-output relation is stated on `assemble_checked`.  `None`
/// reports a gateway root that does not bound a prefix of `path`.
pub fn apply_vcs<V: VCS>(path: &str, vcs: &V) -> (r: Option<String>)
    ensures
        r matches Some(s) ==> exists|root: Seq<char>, stat: Seq<char>|
            root_boundary(path@, root) && s@ == assemble_spec(path@, root, stat),
{
    let root = vcs.root_dir();
    let stat = vcs.stat();
    let r = assemble_checked(path, root.as_str(), stat.as_str());
    proof {
        match &r {
            Option::Some(s) => {
                assert(root_boundary(path@, root@) && s@ == assemble_spec(path@, root@, stat@));
            },
            Option::None => {},
        }
    }
    r
}

} // verus!
