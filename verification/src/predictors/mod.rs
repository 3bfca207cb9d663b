//! Prediction stores, the reference-database matcher, and the loaded
//! model bank.

pub mod predictions;
pub mod stachelhaus;

use vstd::prelude::*;

use crate::svm::models::SVMlightModel;

verus! {

/// The loaded model bank.  Evaluating it against a query is
/// floating-point work and happens in the surrounding application.
#[derive(Debug)]
pub struct Predictor {
    pub models: Vec<SVMlightModel>,
}

/// A name-trimming bracket.
pub open spec fn is_bracket(c: char) -> bool {
    c == '[' || c == ']'
}

/// Number of brackets at the front of `s`.
pub open spec fn leading_brackets(s: Seq<char>) -> int
    decreases s.len(),
{
    if s.len() == 0 || !is_bracket(s[0]) {
        0
    } else {
        1 + leading_brackets(s.skip(1))
    }
}

/// Number of brackets at the back of `s`.
pub open spec fn trailing_brackets(s: Seq<char>) -> int
    decreases s.len(),
{
    if s.len() == 0 || !is_bracket(s.last()) {
        0
    } else {
        1 + trailing_brackets(s.drop_last())
    }
}

/// `s` with leading and trailing brackets removed.
pub open spec fn spec_trim_brackets(s: Seq<char>) -> Seq<char> {
    let t = s.skip(leading_brackets(s));
    t.take(t.len() - trailing_brackets(t))
}

/// The index after which a file name's extension starts: the position of
/// the last dot, except a dot at the very front, or the whole length when
/// there is no such dot.
pub open spec fn stem_end(s: Seq<char>) -> int
    decreases s.len(),
{
    if s.len() <= 1 {
        s.len() as int
    } else if s.last() == '.' {
        s.len() - 1
    } else if stem_end(s.drop_last()) == s.len() - 1 {
        s.len() as int
    } else {
        stem_end(s.drop_last())
    }
}

/// The model name a file name declares: its stem, with any surrounding
/// square brackets stripped.
pub open spec fn spec_extract_name(file_name: Seq<char>) -> Seq<char> {
    spec_trim_brackets(file_name.take(stem_end(file_name)))
}

proof fn lemma_leading_brackets(s: Seq<char>, i: int)
    requires
        0 <= i <= s.len(),
        forall|j: int| 0 <= j < i ==> is_bracket(#[trigger] s[j]),
        i == s.len() || !is_bracket(s[i]),
    ensures
        leading_brackets(s) == i,
    decreases i,
{
    if i > 0 {
        lemma_leading_brackets(s.skip(1), i - 1);
        assert(forall|j: int| 0 <= j < i - 1 ==> s.skip(1)[j] == #[trigger] s[j + 1]);
    }
}

proof fn lemma_trailing_brackets(s: Seq<char>, i: int)
    requires
        0 <= i <= s.len(),
        forall|j: int| i <= j < s.len() ==> is_bracket(#[trigger] s[j]),
        i == 0 || !is_bracket(s[i - 1]),
    ensures
        trailing_brackets(s) == s.len() - i,
    decreases s.len() - i,
{
    if i < s.len() {
        lemma_trailing_brackets(s.drop_last(), i);
    }
}

proof fn lemma_stem_end(s: Seq<char>, i: int)
    requires
        1 < i <= s.len(),
        s[i - 1] == '.',
        forall|j: int| i <= j < s.len() ==> (#[trigger] s[j]) != '.',
    ensures
        stem_end(s) == i - 1,
    decreases s.len() - i,
{
    if i < s.len() {
        lemma_stem_end(s.drop_last(), i);
    }
}

proof fn lemma_stem_end_none(s: Seq<char>, from: int)
    requires
        from == 1,
        forall|j: int| from <= j < s.len() ==> (#[trigger] s[j]) != '.',
    ensures
        stem_end(s) == s.len(),
    decreases s.len(),
{
    if s.len() > 1 {
        lemma_stem_end_none(s.drop_last(), from);
    }
}

/// The model name a file name declares: the name without its extension,
/// with any surrounding square brackets stripped.
pub fn extract_name(file_name: &str) -> (r: String)
    ensures
        r@ == spec_extract_name(file_name@),
{
    let len = file_name.unicode_len();
    // find the last dot, ignoring one at the very front
    let mut dot: usize = 0;
    let mut j: usize = len;
    while j > 1
        invariant
            len == file_name@.len(),
            j <= len,
            dot == 0 ==> forall|m: int| j <= m < len ==> (#[trigger] file_name@[m]) != '.',
            dot > 0 ==> {
                &&& dot < len
                &&& file_name@[dot as int] == '.'
                &&& forall|m: int| dot < m < len ==> (#[trigger] file_name@[m]) != '.'
            },
        decreases j,
    {
        if dot == 0 && file_name.get_char(j - 1) == '.' {
            dot = j - 1;
        }
        j = j - 1;
    }
    let stem_to: usize = if dot > 0 {
        proof {
            lemma_stem_end(file_name@, dot as int + 1);
        }
        dot
    } else {
        proof {
            if len > 1 {
                lemma_stem_end_none(file_name@, 1);
            }
        }
        len
    };
    let stem = file_name.substring_char(0, stem_to);
    let slen = stem.unicode_len();
    let mut start: usize = 0;
    while start < slen && (stem.get_char(start) == '[' || stem.get_char(start) == ']')
        invariant
            slen == stem@.len(),
            start <= slen,
            forall|m: int| 0 <= m < start ==> is_bracket(#[trigger] stem@[m]),
        decreases slen - start,
    {
        start = start + 1;
    }
    let mut end: usize = slen;
    while end > start && (stem.get_char(end - 1) == '[' || stem.get_char(end - 1) == ']')
        invariant
            slen == stem@.len(),
            start <= end <= slen,
            forall|m: int| 0 <= m < start ==> is_bracket(#[trigger] stem@[m]),
            start == slen || !is_bracket(stem@[start as int]),
            forall|m: int| end <= m < slen ==> is_bracket(#[trigger] stem@[m]),
        decreases end,
    {
        end = end - 1;
    }
    proof {
        lemma_leading_brackets(stem@, start as int);
        let t = stem@.skip(start as int);
        assert(forall|m: int| 0 <= m < t.len() ==> t[m] == #[trigger] stem@[m + start]);
        if end == start {
            lemma_trailing_brackets(t, 0);
        } else {
            lemma_trailing_brackets(t, end - start);
        }
        assert(stem@ == file_name@.take(stem_to as int));
        assert(stem@.subrange(start as int, end as int) =~= spec_extract_name(file_name@));
    }
    let trimmed = stem.substring_char(start, end);
    trimmed.to_owned()
}

} // verus!
