//! Verified helpers for the line-oriented text formats the library reads:
//! whitespace handling, field splitting, comment stripping and unsigned
//! integer parsing.

use vstd::prelude::*;

use crate::errors::NrpsError;

verus! {

/// ASCII whitespace, the separators that appear in the supported formats.
pub open spec fn is_space(c: char) -> bool {
    c == ' ' || c == '\t' || c == '\n' || c == '\r' || c == '\u{b}' || c == '\u{c}'
}

/// Decimal digit.
pub open spec fn is_digit(c: char) -> bool {
    '0' <= c && c <= '9'
}

pub open spec fn digit_value(c: char) -> int {
    c as int - '0' as int
}

/// Whether every character of `s` is a decimal digit and there is at least
/// one of them.
pub open spec fn all_digits(s: Seq<char>) -> bool {
    s.len() > 0 && forall|i: int| 0 <= i < s.len() ==> is_digit(#[trigger] s[i])
}

/// The number denoted by a sequence of decimal digits.
pub open spec fn digits_value(s: Seq<char>) -> int
    decreases s.len(),
{
    if s.len() == 0 {
        0
    } else {
        digits_value(s.drop_last()) * 10 + digit_value(s.last())
    }
}

fn is_space_char(c: char) -> (r: bool)
    ensures
        r == is_space(c),
{
    c == ' ' || c == '\t' || c == '\n' || c == '\r' || c == '\u{b}' || c == '\u{c}'
}

fn is_digit_char(c: char) -> (r: bool)
    ensures
        r == is_digit(c),
{
    '0' <= c && c <= '9'
}

/// Parses a string of decimal digits as a `usize`.  Succeeds exactly on
/// non-empty all-digit strings whose value fits the machine word.
pub fn parse_usize(s: &str) -> (r: Result<usize, ()>)
    ensures
        r is Ok <==> all_digits(s@) && digits_value(s@) <= usize::MAX,
        r is Ok ==> r->Ok_0 == digits_value(s@),
{
    let len = s.unicode_len();
    if len == 0 {
        return Err(());
    }
    let mut acc: usize = 0;
    let mut i: usize = 0;
    while i < len
        invariant
            len == s@.len(),
            i <= len,
            forall|j: int| 0 <= j < i ==> is_digit(#[trigger] s@[j]),
            acc == digits_value(s@.take(i as int)),
        decreases len - i,
    {
        let c = s.get_char(i);
        if !is_digit_char(c) {
            return Err(());
        }
        let d: usize = (c as usize) - 48;
        assert(d == digit_value(s@[i as int]) && d <= 9);
        if acc > (usize::MAX - d) / 10 {
            proof {
                assert(s@.take(i as int + 1).drop_last() =~= s@.take(i as int));
                assert(acc * 10 + d > usize::MAX) by {
                    let q = (usize::MAX - d) / 10;
                    assert(usize::MAX - d == 10 * q + (usize::MAX - d) % 10);
                };
                if all_digits(s@) {
                    lemma_digits_value_grows(s@, i + 1, s@.len() as int);
                    assert(s@.take(s@.len() as int) =~= s@);
                }
            }
            return Err(());
        }
        proof {
            assert(s@.take(i as int + 1).drop_last() =~= s@.take(i as int));
        }
        acc = acc * 10 + d;
        i = i + 1;
    }
    proof {
        assert(s@.take(len as int) =~= s@);
    }
    Ok(acc)
}

/// Once a digit prefix exceeds a bound, every longer digit prefix does.
proof fn lemma_digits_value_grows(s: Seq<char>, i: int, j: int)
    requires
        0 < i <= j <= s.len(),
        forall|k: int| 0 <= k < j ==> is_digit(#[trigger] s[k]),
    ensures
        digits_value(s.take(j)) >= digits_value(s.take(i)),
        digits_value(s.take(i)) >= 0,
    decreases j - i,
{
    lemma_digits_value_nonneg(s.take(i));
    if i < j {
        lemma_digits_value_grows(s, i + 1, j);
        assert(s.take(i + 1).drop_last() =~= s.take(i));
        assert(digits_value(s.take(i + 1)) == digits_value(s.take(i)) * 10 + digit_value(
            s[i],
        ));
    }
}

/// The fields of `s` after cutting at every occurrence of `sep`, with
/// `cur` the piece already read.  Adjacent separators yield empty fields.
pub open spec fn split_from(s: Seq<char>, sep: char, cur: Seq<char>) -> Seq<Seq<char>>
    decreases s.len(),
{
    if s.len() == 0 {
        seq![cur]
    } else if s[0] == sep {
        seq![cur] + split_from(s.skip(1), sep, Seq::empty())
    } else {
        split_from(s.skip(1), sep, cur.push(s[0]))
    }
}

/// The fields of `s` separated by `sep`.
pub open spec fn split_at_char(s: Seq<char>, sep: char) -> Seq<Seq<char>> {
    split_from(s, sep, Seq::empty())
}

/// Splits `s` at every occurrence of `sep`.
pub fn split_char(s: &str, sep: char) -> (r: Vec<String>)
    ensures
        r.deep_view() == split_at_char(s@, sep),
        r.len() >= 1,
{
    let len = s.unicode_len();
    let mut result: Vec<String> = Vec::new();
    let mut cur = String::new();
    let mut i: usize = 0;
    proof {
        assert(s@.skip(0) =~= s@);
        assert(result.deep_view() =~= Seq::<Seq<char>>::empty());
    }
    while i < len
        invariant
            len == s@.len(),
            i <= len,
            split_at_char(s@, sep) =~= result.deep_view() + split_from(
                s@.skip(i as int),
                sep,
                cur@,
            ),
        decreases len - i,
    {
        let ghost prev = result.deep_view();
        let ghost prev_cur = cur@;
        let c = s.get_char(i);
        if c == sep {
            result.push(cur);
            cur = String::new();
        } else {
            let piece = s.substring_char(i, i + 1);
            proof {
                assert(piece@ =~= seq![s@[i as int]]);
            }
            cur.append(piece);
            proof {
                assert(cur@ =~= prev_cur.push(s@[i as int]));
            }
        }
        proof {
            assert(s@.skip(i as int).skip(1) =~= s@.skip(i as int + 1));
            assert(s@.skip(i as int)[0] == s@[i as int]);
            if c == sep {
                assert(result.deep_view() =~= prev.push(prev_cur));
            }
        }
        i = i + 1;
    }
    proof {
        assert(s@.skip(len as int) =~= Seq::<char>::empty());
    }
    let ghost prev = result.deep_view();
    let ghost last = cur@;
    result.push(cur);
    proof {
        assert(result.deep_view() =~= prev.push(last));
    }
    result
}

/// Like `split_from`, cutting at every whitespace character.
pub open spec fn split_spaces_from(s: Seq<char>, cur: Seq<char>) -> Seq<Seq<char>>
    decreases s.len(),
{
    if s.len() == 0 {
        seq![cur]
    } else if is_space(s[0]) {
        seq![cur] + split_spaces_from(s.skip(1), Seq::empty())
    } else {
        split_spaces_from(s.skip(1), cur.push(s[0]))
    }
}

/// The fields of `s` separated by single whitespace characters.
pub open spec fn split_at_spaces(s: Seq<char>) -> Seq<Seq<char>> {
    split_spaces_from(s, Seq::empty())
}

/// Splits `s` at every whitespace character.
pub fn split_spaces(s: &str) -> (r: Vec<String>)
    ensures
        r.deep_view() == split_at_spaces(s@),
        r.len() >= 1,
{
    let len = s.unicode_len();
    let mut result: Vec<String> = Vec::new();
    let mut cur = String::new();
    let mut i: usize = 0;
    proof {
        assert(s@.skip(0) =~= s@);
        assert(result.deep_view() =~= Seq::<Seq<char>>::empty());
    }
    while i < len
        invariant
            len == s@.len(),
            i <= len,
            split_at_spaces(s@) =~= result.deep_view() + split_spaces_from(
                s@.skip(i as int),
                cur@,
            ),
        decreases len - i,
    {
        let ghost prev = result.deep_view();
        let ghost prev_cur = cur@;
        let c = s.get_char(i);
        if is_space_char(c) {
            result.push(cur);
            cur = String::new();
        } else {
            let piece = s.substring_char(i, i + 1);
            proof {
                assert(piece@ =~= seq![s@[i as int]]);
            }
            cur.append(piece);
            proof {
                assert(cur@ =~= prev_cur.push(s@[i as int]));
            }
        }
        proof {
            assert(s@.skip(i as int).skip(1) =~= s@.skip(i as int + 1));
            assert(s@.skip(i as int)[0] == s@[i as int]);
            if is_space(s@[i as int]) {
                assert(result.deep_view() =~= prev.push(prev_cur));
            }
        }
        i = i + 1;
    }
    proof {
        assert(s@.skip(len as int) =~= Seq::<char>::empty());
    }
    let ghost prev = result.deep_view();
    let ghost last = cur@;
    result.push(cur);
    proof {
        assert(result.deep_view() =~= prev.push(last));
    }
    result
}

/// Number of whitespace characters at the front of `s`.
pub open spec fn leading_spaces(s: Seq<char>) -> int
    decreases s.len(),
{
    if s.len() == 0 || !is_space(s[0]) {
        0
    } else {
        1 + leading_spaces(s.skip(1))
    }
}

/// Number of whitespace characters at the back of `s`.
pub open spec fn trailing_spaces(s: Seq<char>) -> int
    decreases s.len(),
{
    if s.len() == 0 || !is_space(s.last()) {
        0
    } else {
        1 + trailing_spaces(s.drop_last())
    }
}

/// `s` with leading and trailing whitespace removed.
pub open spec fn spec_trim(s: Seq<char>) -> Seq<char> {
    let t = s.skip(leading_spaces(s));
    t.take(t.len() - trailing_spaces(t))
}

proof fn lemma_leading_spaces(s: Seq<char>, i: int)
    requires
        0 <= i <= s.len(),
        forall|j: int| 0 <= j < i ==> is_space(#[trigger] s[j]),
        i == s.len() || !is_space(s[i]),
    ensures
        leading_spaces(s) == i,
    decreases i,
{
    if i > 0 {
        assert(is_space(s[0]));
        lemma_leading_spaces(s.skip(1), i - 1);
        assert(forall|j: int|
            0 <= j < i - 1 ==> s.skip(1)[j] == #[trigger] s[j + 1]);
    }
}

proof fn lemma_trailing_spaces(s: Seq<char>, i: int)
    requires
        0 <= i <= s.len(),
        forall|j: int| i <= j < s.len() ==> is_space(#[trigger] s[j]),
        i == 0 || !is_space(s[i - 1]),
    ensures
        trailing_spaces(s) == s.len() - i,
    decreases s.len() - i,
{
    if i < s.len() {
        assert(is_space(s.last()));
        lemma_trailing_spaces(s.drop_last(), i);
    }
}

/// `s` with leading and trailing whitespace removed.
pub fn trim(s: &str) -> (r: &str)
    ensures
        r@ == spec_trim(s@),
{
    let len = s.unicode_len();
    let mut start: usize = 0;
    while start < len && is_space_char(s.get_char(start))
        invariant
            len == s@.len(),
            start <= len,
            forall|j: int| 0 <= j < start ==> is_space(#[trigger] s@[j]),
        decreases len - start,
    {
        start = start + 1;
    }
    let mut end: usize = len;
    while end > start && is_space_char(s.get_char(end - 1))
        invariant
            len == s@.len(),
            start <= end <= len,
            forall|j: int| 0 <= j < start ==> is_space(#[trigger] s@[j]),
            start == len || !is_space(s@[start as int]),
            forall|j: int| end <= j < len ==> is_space(#[trigger] s@[j]),
        decreases end,
    {
        end = end - 1;
    }
    proof {
        lemma_leading_spaces(s@, start as int);
        let t = s@.skip(start as int);
        assert(forall|j: int|
            0 <= j < t.len() ==> t[j] == #[trigger] s@[j + start]);
        if end == start {
            lemma_trailing_spaces(t, 0);
        } else {
            lemma_trailing_spaces(t, end - start);
        }
        assert(s@.subrange(start as int, end as int) =~= spec_trim(s@));
    }
    s.substring_char(start, end)
}

/// `s` up to (not including) the first occurrence of `c`, or all of `s` if
/// `c` does not occur.
pub open spec fn before_char(s: Seq<char>, c: char) -> Seq<char>
    decreases s.len(),
{
    if s.len() == 0 {
        s
    } else if s[0] == c {
        Seq::empty()
    } else {
        seq![s[0]] + before_char(s.skip(1), c)
    }
}

/// Everything before the first `#`: the part of a line that precedes a
/// trailing comment.
pub fn strip_comment(s: &str) -> (r: &str)
    ensures
        r@ == before_char(s@, '#'),
{
    let len = s.unicode_len();
    let mut i: usize = 0;
    while i < len && s.get_char(i) != '#'
        invariant
            len == s@.len(),
            i <= len,
            forall|j: int| 0 <= j < i ==> s@[j] != '#',
        decreases len - i,
    {
        i = i + 1;
    }
    proof {
        lemma_before_char(s@, '#', i as int);
    }
    s.substring_char(0, i)
}

proof fn lemma_before_char(s: Seq<char>, c: char, i: int)
    requires
        0 <= i <= s.len(),
        forall|j: int| 0 <= j < i ==> s[j] != c,
        i == s.len() || s[i] == c,
    ensures
        before_char(s, c) =~= s.take(i),
    decreases i,
{
    if s.len() > 0 && i > 0 {
        lemma_before_char(s.skip(1), c, i - 1);
        assert(forall|j: int|
            0 <= j < i - 1 ==> s.skip(1)[j] == #[trigger] s[j + 1]);
        assert(seq![s[0]] + s.skip(1).take(i - 1) =~= s.take(i));
    }
}

/// Splits `s` at the first occurrence of `sep` if there is one.
pub fn split_once_char<'a>(s: &'a str, sep: char) -> (r: Option<(&'a str, &'a str)>)
    ensures
        match r {
            Some((a, b)) => {
                &&& s@.contains(sep)
                &&& a@ == before_char(s@, sep)
                &&& b@ == s@.skip(a@.len() as int + 1)
            },
            None => !s@.contains(sep),
        },
{
    let len = s.unicode_len();
    let mut i: usize = 0;
    while i < len && s.get_char(i) != sep
        invariant
            len == s@.len(),
            i <= len,
            forall|j: int| 0 <= j < i ==> s@[j] != sep,
        decreases len - i,
    {
        i = i + 1;
    }
    if i == len {
        proof {
            assert(forall|j: int| 0 <= j < s@.len() ==> s@[j] != sep);
        }
        None
    } else {
        proof {
            lemma_before_char(s@, sep, i as int);
            assert(s@[i as int] == sep);
        }
        let a = s.substring_char(0, i);
        let b = s.substring_char(i + 1, len);
        proof {
            assert(b@ =~= s@.skip(i as int + 1));
        }
        Some((a, b))
    }
}

proof fn lemma_digits_value_nonneg(s: Seq<char>)
    requires
        forall|k: int| 0 <= k < s.len() ==> is_digit(#[trigger] s[k]),
    ensures
        digits_value(s) >= 0,
    decreases s.len(),
{
    if s.len() > 0 {
        lemma_digits_value_nonneg(s.drop_last());
    }
}

} // verus!
