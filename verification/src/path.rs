//! Path abbreviation: every segment before the kept tail collapses to its
//! leading run of non-word characters plus the first word character.

use vstd::prelude::*;
use crate::text::{
    is_digit, join_with_char, lemma_join_split_roundtrip, split_at_char, split_str, views_of,
};

verus! {

/// Word characters are ASCII alphanumerics and the underscore.
pub open spec fn is_word_char(c: char) -> bool {
    ('a' as int <= c as int <= 'z' as int) || ('A' as int <= c as int <= 'Z' as int) || is_digit(c)
        || c == '_'
}

/// Index of the first word character of `s`, if any.
pub open spec fn first_word_index(s: Seq<char>) -> Option<int>
    decreases s.len(),
{
    if s.len() == 0 {
        Option::None
    } else if is_word_char(s[0]) {
        Option::Some(0)
    } else {
        match first_word_index(s.skip(1)) {
            Option::Some(j) => Option::Some(j + 1),
            Option::None => Option::None,
        }
    }
}

pub proof fn lemma_first_word_index_at(s: Seq<char>, i: int)
    requires
        0 <= i < s.len(),
        is_word_char(s[i]),
        forall|j: int| 0 <= j < i ==> !is_word_char(s[j]),
    ensures
        first_word_index(s) == Option::Some(i),
    decreases s.len(),
{
    if i == 0 {
    } else {
        assert(is_word_char(s.skip(1)[i - 1]));
        assert(forall|j: int| 0 <= j < i - 1 ==> s.skip(1)[j] == s[j + 1]);
        lemma_first_word_index_at(s.skip(1), i - 1);
    }
}

pub proof fn lemma_first_word_index_none(s: Seq<char>)
    requires
        forall|j: int| 0 <= j < s.len() ==> !is_word_char(s[j]),
    ensures
        first_word_index(s) is None,
    decreases s.len(),
{
    if s.len() == 0 {
    } else {
        assert(forall|j: int| 0 <= j < s.len() - 1 ==> s.skip(1)[j] == s[j + 1]);
        lemma_first_word_index_none(s.skip(1));
    }
}

/// The shortest prefix of `s` made of zero or more non-word characters
/// followed by exactly one word character; `s` itself when it holds no
/// word character.
pub open spec fn abbrev_segment_spec(s: Seq<char>) -> Seq<char> {
    match first_word_index(s) {
        Option::Some(i) => s.take(i + 1),
        Option::None => s,
    }
}

/// Abbreviates one path segment, exactly as `abbrev_segment_spec` states.
pub fn abbreviate_segment(seg: &str) -> (r: String)
    ensures
        r@ == abbrev_segment_spec(seg@),
{
    let n = seg.unicode_len();
    for i in 0..n
        invariant
            n == seg@.len(),
            forall|j: int| 0 <= j < i ==> !is_word_char(seg@[j]),
    {
        let c = seg.get_char(i);
        let u = c as u32;
        let word = (97 <= u && u <= 122) || (65 <= u && u <= 90) || (48 <= u && u <= 57) || u
            == 95;
        assert(word == is_word_char(seg@[i as int]));
        if word {
            proof {
                lemma_first_word_index_at(seg@, i as int);
            }
            let r = seg.substring_char(0, i + 1).to_owned();
            proof {
                assert(r@ =~= seg@.take(i as int + 1));
            }
            return r;
        }
    }
    proof {
        lemma_first_word_index_none(seg@);
    }
    seg.to_owned()
}

/// Each segment before `limit` abbreviated, the rest kept verbatim.
pub open spec fn abbrev_all(segs: Seq<Seq<char>>, limit: int) -> Seq<Seq<char>> {
    segs.map(
        |i: int, s: Seq<char>|
            if i < limit {
                abbrev_segment_spec(s)
            } else {
                s
            },
    )
}

/// The abbreviated form of a whole path: split on `/`, abbreviate all but
/// the last `keep` segments, re-join.  A `keep` at or above the segment
/// count leaves every segment verbatim.
pub open spec fn abbrev_path_spec(path: Seq<char>, keep: int) -> Seq<char> {
    let segs = split_at_char(path, '/');
    let limit = if keep <= segs.len() {
        segs.len() - keep
    } else {
        0
    };
    join_with_char(abbrev_all(segs, limit), '/')
}

/// With `keep` at or past the number of segments, abbreviation leaves the
/// path unchanged.
pub proof fn lemma_abbreviate_keeps_whole_path(path: Seq<char>, keep: int)
    requires
        keep >= split_at_char(path, '/').len(),
    ensures
        abbrev_path_spec(path, keep) == path,
{
    let segs = split_at_char(path, '/');
    assert(abbrev_all(segs, 0) =~= segs);
    lemma_join_split_roundtrip(path, '/');
}

/// Abbreviates `path`, keeping the last `keep` segments verbatim, exactly
/// as `abbrev_path_spec` states.
pub fn abbreviate(path: &str, keep: usize) -> (r: String)
    ensures
        r@ == abbrev_path_spec(path@, keep as int),
{
    let segs = split_str(path, '/');
    let count = segs.len();
    let limit: usize = if keep <= count {
        count - keep
    } else {
        0
    };
    let ghost mapped = abbrev_all(views_of(segs@), limit as int);
    let mut out = String::new();
    proof {
        assert(mapped.len() == count);
        assert(out@ =~= join_with_char(mapped.take(0), '/'));
    }
    for i in 0..count
        invariant
            count == segs@.len(),
            views_of(segs@) == split_at_char(path@, '/'),
            mapped == abbrev_all(views_of(segs@), limit as int),
            mapped.len() == count,
            out@ == join_with_char(mapped.take(i as int), '/'),
    {
        if i > 0 {
            out.append("/");
            proof {
                reveal_strlit("/");
                assert("/"@ =~= seq!['/']);
            }
        }
        assert(views_of(segs@)[i as int] == segs@[i as int]@);
        if i < limit {
            let a = abbreviate_segment(segs[i].as_str());
            out.append(a.as_str());
        } else {
            out.append(segs[i].as_str());
        }
        proof {
            assert(mapped[i as int] == (if i < limit {
                abbrev_segment_spec(segs@[i as int]@)
            } else {
                segs@[i as int]@
            }));
            assert(mapped.take(i as int + 1).drop_last() =~= mapped.take(i as int));
            assert(mapped.take(i as int + 1).last() == mapped[i as int]);
            if i == 0 {
                assert(out@ =~= join_with_char(mapped.take(1), '/'));
            }
        }
    }
    proof {
        assert(mapped.take(count as int) =~= mapped);
    }
    out
}

} // verus!
