//! Character-sequence groundwork: splitting on a separator, joining,
//! and exact decimal formatting and parsing of counts.

use vstd::prelude::*;

verus! {

/// Index of the first occurrence of `c` in `s`, if any.
pub open spec fn first_index(s: Seq<char>, c: char) -> Option<int>
    decreases s.len(),
{
    if s.len() == 0 {
        Option::None
    } else if s[0] == c {
        Option::Some(0)
    } else {
        match first_index(s.skip(1), c) {
            Option::Some(j) => Option::Some(j + 1),
            Option::None => Option::None,
        }
    }
}

pub proof fn lemma_first_index_spec(s: Seq<char>, c: char)
    ensures
        match first_index(s, c) {
            Option::Some(i) => 0 <= i < s.len() && s[i] == c && (forall|j: int|
                0 <= j < i ==> s[j] != c),
            Option::None => forall|j: int| 0 <= j < s.len() ==> s[j] != c,
        },
    decreases s.len(),
{
    if s.len() == 0 {
    } else if s[0] == c {
    } else {
        lemma_first_index_spec(s.skip(1), c);
        assert(forall|j: int| 1 <= j < s.len() ==> s[j] == s.skip(1)[j - 1]);
    }
}

pub proof fn lemma_first_index_at(s: Seq<char>, c: char, i: int)
    requires
        0 <= i < s.len(),
        s[i] == c,
        forall|j: int| 0 <= j < i ==> s[j] != c,
    ensures
        first_index(s, c) == Option::Some(i),
    decreases s.len(),
{
    if i == 0 {
    } else {
        assert(s.skip(1)[i - 1] == c);
        assert(forall|j: int| 0 <= j < i - 1 ==> s.skip(1)[j] == s[j + 1]);
        lemma_first_index_at(s.skip(1), c, i - 1);
    }
}

pub proof fn lemma_first_index_none(s: Seq<char>, c: char)
    requires
        forall|j: int| 0 <= j < s.len() ==> s[j] != c,
    ensures
        first_index(s, c) is None,
    decreases s.len(),
{
    if s.len() == 0 {
    } else {
        assert(forall|j: int| 0 <= j < s.len() - 1 ==> s.skip(1)[j] == s[j + 1]);
        lemma_first_index_none(s.skip(1), c);
    }
}

/// The pieces of `s` between occurrences of `sep`, in order.  Always at
/// least one piece; an empty `s` yields one empty piece.
pub open spec fn split_at_char(s: Seq<char>, sep: char) -> Seq<Seq<char>>
    decreases s.len(),
    via split_at_char_decreases
{
    match first_index(s, sep) {
        Option::Some(i) => seq![s.take(i)] + split_at_char(s.skip(i + 1), sep),
        Option::None => seq![s],
    }
}

#[via_fn]
proof fn split_at_char_decreases(s: Seq<char>, sep: char) {
    lemma_first_index_spec(s, sep);
}

pub proof fn lemma_split_len(s: Seq<char>, sep: char)
    ensures
        split_at_char(s, sep).len() >= 1,
{
    match first_index(s, sep) {
        Option::Some(i) => {},
        Option::None => {},
    }
}

/// The pieces re-joined with `sep` between consecutive pieces.
pub open spec fn join_with_char(pieces: Seq<Seq<char>>, sep: char) -> Seq<char>
    decreases pieces.len(),
{
    if pieces.len() == 0 {
        Seq::<char>::empty()
    } else if pieces.len() == 1 {
        pieces[0]
    } else {
        join_with_char(pieces.drop_last(), sep) + seq![sep] + pieces.last()
    }
}

pub proof fn lemma_join_prepend(t: Seq<char>, ls: Seq<Seq<char>>, sep: char)
    requires
        ls.len() >= 1,
    ensures
        join_with_char(seq![t] + ls, sep) == t + seq![sep] + join_with_char(ls, sep),
    decreases ls.len(),
{
    let all = seq![t] + ls;
    if ls.len() == 1 {
        assert(all.len() == 2);
        assert(all.drop_last() =~= seq![t]);
        assert(all.last() == ls[0]);
        assert(join_with_char(seq![t], sep) == t);
        assert(join_with_char(ls, sep) == ls[0]);
    } else {
        assert(all.drop_last() =~= seq![t] + ls.drop_last());
        assert(all.last() == ls.last());
        lemma_join_prepend(t, ls.drop_last(), sep);
        assert(join_with_char(all, sep) =~= t + seq![sep] + join_with_char(ls, sep));
    }
}

/// Joining the pieces of a split restores the string that was split.
pub proof fn lemma_join_split_roundtrip(s: Seq<char>, sep: char)
    ensures
        join_with_char(split_at_char(s, sep), sep) == s,
    decreases s.len(),
{
    lemma_first_index_spec(s, sep);
    match first_index(s, sep) {
        Option::None => {
            assert(split_at_char(s, sep) == seq![s]);
            assert(join_with_char(seq![s], sep) == s);
        },
        Option::Some(i) => {
            let rest = split_at_char(s.skip(i + 1), sep);
            assert(split_at_char(s, sep) == seq![s.take(i)] + rest);
            lemma_split_len(s.skip(i + 1), sep);
            lemma_join_split_roundtrip(s.skip(i + 1), sep);
            lemma_join_prepend(s.take(i), rest, sep);
            assert(s.take(i) + seq![sep] + s.skip(i + 1) =~= s);
        },
    }
}

/// The views of a vector of owned strings.
pub open spec fn views_of(v: Seq<String>) -> Seq<Seq<char>> {
    v.map_values(|p: String| p@)
}

/// Index of the first occurrence of `sep` in `s`, scanned left to right.
pub fn find_char(s: &str, sep: char) -> (r: Option<usize>)
    ensures
        match r {
            Option::Some(i) => first_index(s@, sep) == Option::Some(i as int),
            Option::None => first_index(s@, sep) is None,
        },
{
    let n = s.unicode_len();
    for i in 0..n
        invariant
            n == s@.len(),
            forall|j: int| 0 <= j < i ==> s@[j] != sep,
    {
        if s.get_char(i) == sep {
            proof {
                lemma_first_index_at(s@, sep, i as int);
            }
            return Option::Some(i);
        }
    }
    proof {
        lemma_first_index_none(s@, sep);
    }
    Option::None
}

/// Splits `s` on `sep`; empty pieces are kept, so the result mirrors
/// `split_at_char` exactly.
pub fn split_str(s: &str, sep: char) -> (r: Vec<String>)
    ensures
        views_of(r@) == split_at_char(s@, sep),
        r@.len() >= 1,
    decreases s@.len(),
{
    match find_char(s, sep) {
        Option::None => {
            let mut r: Vec<String> = Vec::new();
            r.push(s.to_owned());
            proof {
                assert(views_of(r@) =~= seq![s@]);
            }
            r
        },
        Option::Some(i) => {
            proof {
                lemma_first_index_spec(s@, sep);
            }
            let n = s.unicode_len();
            let head = s.substring_char(0, i);
            let tail = s.substring_char(i + 1, n);
            let mut r = split_str(tail, sep);
            r.insert(0, head.to_owned());
            proof {
                assert(head@ =~= s@.take(i as int));
                assert(tail@ =~= s@.skip(i as int + 1));
                assert(views_of(r@) =~= seq![s@.take(i as int)] + split_at_char(
                    s@.skip(i as int + 1),
                    sep,
                ));
            }
            r
        },
    }
}

/// Character-for-character string equality.
pub fn str_eq(a: &str, b: &str) -> (r: bool)
    ensures
        r == (a@ == b@),
{
    let na = a.unicode_len();
    let nb = b.unicode_len();
    if na != nb {
        return false;
    }
    for i in 0..na
        invariant
            na == a@.len(),
            nb == b@.len(),
            na == nb,
            forall|j: int| 0 <= j < i ==> a@[j] == b@[j],
    {
        if a.get_char(i) != b.get_char(i) {
            return false;
        }
    }
    proof {
        assert(a@ =~= b@);
    }
    true
}

/// The character standing for one decimal digit.
pub open spec fn digit_char(d: int) -> char
    recommends
        0 <= d <= 9,
{
    if d == 0 {
        '0'
    } else if d == 1 {
        '1'
    } else if d == 2 {
        '2'
    } else if d == 3 {
        '3'
    } else if d == 4 {
        '4'
    } else if d == 5 {
        '5'
    } else if d == 6 {
        '6'
    } else if d == 7 {
        '7'
    } else if d == 8 {
        '8'
    } else {
        '9'
    }
}

/// Decimal rendering of a non-negative integer, most significant digit
/// first, without leading zeros (except for zero itself).
pub open spec fn dec_digits(n: int) -> Seq<char>
    recommends
        n >= 0,
    decreases n,
{
    if n < 10 {
        seq![digit_char(n)]
    } else {
        dec_digits(n / 10).push(digit_char(n % 10))
    }
}

pub open spec fn is_digit(c: char) -> bool {
    '0' as int <= c as int <= '9' as int
}

pub open spec fn digit_val(c: char) -> int {
    c as int - '0' as int
}

pub open spec fn all_digits(s: Seq<char>) -> bool {
    forall|i: int| 0 <= i < s.len() ==> is_digit(#[trigger] s[i])
}

/// Numeric value of a digit string, most significant digit first.
pub open spec fn dec_value(s: Seq<char>) -> int
    decreases s.len(),
{
    if s.len() == 0 {
        0
    } else {
        dec_value(s.drop_last()) * 10 + digit_val(s.last())
    }
}

/// A string that denotes a count a `usize` can hold: nonempty, all
/// digits, value within range.
pub open spec fn is_count(s: Seq<char>) -> bool {
    s.len() > 0 && all_digits(s) && dec_value(s) <= usize::MAX as int
}

pub proof fn lemma_dec_value_bounds(s: Seq<char>)
    requires
        all_digits(s),
    ensures
        dec_value(s) >= 0,
        s.len() > 0 ==> dec_value(s) >= dec_value(s.drop_last()),
    decreases s.len(),
{
    if s.len() > 0 {
        assert(all_digits(s.drop_last()));
        lemma_dec_value_bounds(s.drop_last());
    }
}

pub proof fn lemma_dec_value_prefix(s: Seq<char>, k: int)
    requires
        all_digits(s),
        0 <= k <= s.len(),
    ensures
        dec_value(s) >= dec_value(s.take(k)),
    decreases s.len() - k,
{
    if k == s.len() {
        assert(s.take(k) =~= s);
    } else {
        lemma_dec_value_prefix(s, k + 1);
        assert(s.take(k + 1).drop_last() =~= s.take(k));
        assert(all_digits(s.take(k + 1)));
        lemma_dec_value_bounds(s.take(k + 1));
    }
}

fn digit_str(d: usize) -> (r: &'static str)
    requires
        d < 10,
    ensures
        r@ == seq![digit_char(d as int)],
{
    if d == 0 {
        proof {
            reveal_strlit("0");
            assert("0"@ =~= seq![digit_char(0)]);
        }
        "0"
    } else if d == 1 {
        proof {
            reveal_strlit("1");
            assert("1"@ =~= seq![digit_char(1)]);
        }
        "1"
    } else if d == 2 {
        proof {
            reveal_strlit("2");
            assert("2"@ =~= seq![digit_char(2)]);
        }
        "2"
    } else if d == 3 {
        proof {
            reveal_strlit("3");
            assert("3"@ =~= seq![digit_char(3)]);
        }
        "3"
    } else if d == 4 {
        proof {
            reveal_strlit("4");
            assert("4"@ =~= seq![digit_char(4)]);
        }
        "4"
    } else if d == 5 {
        proof {
            reveal_strlit("5");
            assert("5"@ =~= seq![digit_char(5)]);
        }
        "5"
    } else if d == 6 {
        proof {
            reveal_strlit("6");
            assert("6"@ =~= seq![digit_char(6)]);
        }
        "6"
    } else if d == 7 {
        proof {
            reveal_strlit("7");
            assert("7"@ =~= seq![digit_char(7)]);
        }
        "7"
    } else if d == 8 {
        proof {
            reveal_strlit("8");
            assert("8"@ =~= seq![digit_char(8)]);
        }
        "8"
    } else {
        proof {
            reveal_strlit("9");
            assert("9"@ =~= seq![digit_char(9)]);
        }
        "9"
    }
}

/// Renders `n` in decimal, exactly as `dec_digits` states.
pub fn format_count(n: usize) -> (r: String)
    ensures
        r@ == dec_digits(n as int),
    decreases n,
{
    if n < 10 {
        digit_str(n).to_owned()
    } else {
        let mut r = format_count(n / 10);
        r.append(digit_str(n % 10));
        proof {
            assert(r@ =~= dec_digits(n as int / 10).push(digit_char(n as int % 10)));
        }
        r
    }
}

/// Reads a decimal count.  Returns the value exactly when `s` is a
/// nonempty all-digit string whose value fits a `usize`; `None` otherwise.
pub fn parse_count(s: &str) -> (r: Option<usize>)
    ensures
        r is Some <==> is_count(s@),
        r matches Some(v) ==> v as int == dec_value(s@),
{
    let n = s.unicode_len();
    if n == 0 {
        return Option::None;
    }
    let mut acc: usize = 0;
    for i in 0..n
        invariant
            n == s@.len(),
            0 < n <= usize::MAX,
            all_digits(s@.take(i as int)),
            acc as int == dec_value(s@.take(i as int)),
    {
        let c = s.get_char(i);
        let u = c as u32;
        if u < 48 || u > 57 {
            assert(!is_digit(s@[i as int]));
            return Option::None;
        }
        let d = (u - 48) as usize;
        assert(is_digit(s@[i as int]) && d as int == digit_val(s@[i as int]));
        proof {
            assert(s@.take(i as int + 1).drop_last() =~= s@.take(i as int));
            assert(s@.take(i as int + 1).last() == s@[i as int]);
        }
        if acc > usize::MAX / 10 || (acc == usize::MAX / 10 && d > usize::MAX % 10) {
            proof {
                assert(usize::MAX as int == 10 * (usize::MAX as int / 10) + usize::MAX as int
                    % 10);
                assert(dec_value(s@.take(i as int + 1)) > usize::MAX as int);
                if all_digits(s@) {
                    lemma_dec_value_prefix(s@, i as int + 1);
                }
            }
            return Option::None;
        }
        proof {
            assert(usize::MAX as int == 10 * (usize::MAX as int / 10) + usize::MAX as int % 10);
            assert(acc as int * 10 + d as int <= usize::MAX as int);
        }
        acc = acc * 10 + d;
    }
    proof {
        assert(s@.take(n as int) =~= s@);
    }
    Option::Some(acc)
}

/// How many records a line-oriented report holds: the pieces between
/// newlines, not counting one trailing empty piece after a final newline.
pub open spec fn record_count(s: Seq<char>) -> int {
    let pieces = split_at_char(s, '\n');
    if pieces.last().len() == 0 {
        pieces.len() - 1
    } else {
        pieces.len() as int
    }
}

/// Counts the records of a report, exactly as `record_count` states.
pub fn count_records(text: &str) -> (r: usize)
    ensures
        r as int == record_count(text@),
{
    let pieces = split_str(text, '\n');
    let n = pieces.len();
    assert(pieces@[n - 1]@ == split_at_char(text@, '\n').last());
    if pieces[n - 1].as_str().is_empty() {
        n - 1
    } else {
        n
    }
}

} // verus!
