//! Support vectors and their sparse text form.

use vstd::prelude::*;

use crate::decimal::{dec_e10, dec_fits, dec_num, dec_valid, parse_decimal, Decimal};
use crate::errors::NrpsError;
use crate::textparse::{
    all_digits, before_char, digits_value, parse_usize, split_at_spaces, split_once_char,
    split_spaces,
};

verus! {

/// Two vectors may only be combined when their lengths agree.
pub fn check_dimensions(first: usize, second: usize) -> (r: Result<(), NrpsError>)
    ensures
        r is Ok <==> first == second,
        first != second ==> r == Err::<(), NrpsError>(
            NrpsError::DimensionMismatch { first, second },
        ),
{
    if first != second {
        return Err(NrpsError::DimensionMismatch { first, second });
    }
    Ok(())
}

/// One term of a trained classifier: a dense vector of exact decimals and
/// its signed weight.
#[derive(Debug)]
pub struct SupportVector {
    values: Vec<Decimal>,
    pub yalpha: Decimal,
}

impl SupportVector {
    /// The dense vector.
    pub closed spec fn spec_values(self) -> Seq<Decimal> {
        self.values@
    }

    /// The signed weight.
    pub closed spec fn spec_yalpha(self) -> Decimal {
        self.yalpha
    }

    pub fn new(values: Vec<Decimal>, yalpha: Decimal) -> (r: Self)
        ensures
            r.spec_values() == values@,
            r.spec_yalpha() == yalpha,
    {
        SupportVector { values, yalpha }
    }

    /// The dense vector.
    pub fn values(&self) -> (r: &Vec<Decimal>)
        ensures
            r@ == self.spec_values(),
    {
        &self.values
    }

    /// The number of components.
    pub fn dim(&self) -> (r: usize)
        ensures
            r == self.spec_values().len(),
    {
        self.values.len()
    }
}

/// The whitespace-separated pieces of a support-vector line.
pub open spec fn sv_parts(line: Seq<char>) -> Seq<Seq<char>> {
    split_at_spaces(line)
}

/// The index part of an `index:value` pair.
pub open spec fn tok_idx_str(t: Seq<char>) -> Seq<char> {
    before_char(t, ':')
}

/// The value part of an `index:value` pair.
pub open spec fn tok_val_str(t: Seq<char>) -> Seq<char> {
    t.skip(tok_idx_str(t).len() as int + 1)
}

/// A well-formed pair: a one-based index within the declared dimension,
/// a colon, and a decimal value the library can hold.
pub open spec fn token_ok(t: Seq<char>, dim: int) -> bool {
    &&& t.contains(':')
    &&& all_digits(tok_idx_str(t))
    &&& digits_value(tok_idx_str(t)) <= usize::MAX
    &&& 1 <= digits_value(tok_idx_str(t)) <= dim
    &&& dec_valid(tok_val_str(t))
    &&& dec_fits(tok_val_str(t))
}

/// The pieces that are read: everything from `from` up to the first piece
/// that is exactly `#`, which starts a trailing comment.
pub open spec fn effective_end(parts: Seq<Seq<char>>, from: int) -> int
    decreases parts.len() - from,
{
    if from < 0 || from >= parts.len() {
        parts.len() as int
    } else if parts[from] == seq!['#'] {
        from
    } else {
        effective_end(parts, from + 1)
    }
}

/// A well-formed support-vector line against a declared dimension: a
/// weight, then `index:value` pairs up to an optional comment.
pub open spec fn sv_line_ok(line: Seq<char>, dim: int) -> bool {
    let parts = sv_parts(line);
    &&& parts.len() >= 2
    &&& dec_valid(parts[0])
    &&& dec_fits(parts[0])
    &&& forall|k: int| 1 <= k < effective_end(parts, 1) ==> token_ok(#[trigger] parts[k], dim)
}

/// The pair that last assigned component `j`, scanning pieces `1` up to
/// (not including) `end`.
pub open spec fn last_assign(parts: Seq<Seq<char>>, end: int, j: int) -> Option<Seq<char>>
    decreases end,
{
    if end <= 1 {
        None
    } else if digits_value(tok_idx_str(parts[end - 1])) == j + 1 {
        Some(parts[end - 1])
    } else {
        last_assign(parts, end - 1, j)
    }
}

/// What a parsed component holds: the value of the pair that last
/// assigned it, or exactly zero if no pair did.
pub open spec fn component_matches(
    parts: Seq<Seq<char>>,
    end: int,
    j: int,
    d: Decimal,
) -> bool {
    match last_assign(parts, end, j) {
        Some(t) => d.denotes(dec_num(tok_val_str(t)), dec_e10(tok_val_str(t))),
        None => d == Decimal::spec_decimal(0, 0),
    }
}

/// What a parsed support vector holds for a given line and dimension:
/// the weight is the line's first piece, and each component is the value
/// of the pair that last assigned it, or zero.
pub open spec fn sv_matches(sv: SupportVector, line: Seq<char>, dim: int) -> bool {
    let parts = sv_parts(line);
    &&& sv.spec_yalpha().denotes(dec_num(parts[0]), dec_e10(parts[0]))
    &&& sv.spec_values().len() == dim
    &&& forall|j: int|
        0 <= j < dim ==> component_matches(
            parts,
            effective_end(parts, 1),
            j,
            #[trigger] sv.spec_values()[j],
        )
}

/// The errors a malformed support-vector line produces: the whole line
/// for a structural fault, an index part for a bad index, the weight or a
/// value part for a bad number.
pub open spec fn sv_err_matches(e: NrpsError, line: Seq<char>) -> bool {
    let parts = sv_parts(line);
    ||| (e matches NrpsError::InvalidFeatureLine(m) && m@ == line)
    ||| (e matches NrpsError::FloatParserError(m) && (m@ == parts[0] || exists|k: int|
        1 <= k < parts.len() && m@ == tok_val_str(#[trigger] parts[k])))
    ||| (e matches NrpsError::IntParserError(m) && exists|k: int|
        1 <= k < parts.len() && (m@ == #[trigger] parts[k] || m@ == tok_idx_str(parts[k])))
}

impl SupportVector {
    /// Parses one sparse support-vector line of the model format:
    /// `<weight> <idx1>:<val1> <idx2>:<val2> ... [# comment]`.  Indices
    /// are one-based into a dense vector of the declared dimension;
    /// components no pair assigns are zero; indices outside
    /// `[1, dimension]`, missing colons and malformed numbers are fatal.
    pub fn from_line(line: String, dimension: usize) -> (r: Result<Self, NrpsError>)
        ensures
            r is Ok <==> sv_line_ok(line@, dimension as int),
            r matches Ok(sv) ==> sv_matches(sv, line@, dimension as int),
            r matches Err(e) ==> sv_err_matches(e, line@),
    {
        let parts = split_spaces(line.as_str());
        let n = parts.len();
        if n < 2 {
            return Err(NrpsError::InvalidFeatureLine(line));
        }
        proof {
            assert(parts.deep_view()[0] == parts@[0]@);
        }
        let yalpha = match parse_decimal(parts[0].as_str()) {
            Ok(d) => d,
            Err(()) => {
                return Err(NrpsError::FloatParserError(parts[0].clone()));
            },
        };
        let mut values: Vec<Decimal> = Vec::with_capacity(dimension);
        while values.len() < dimension
            invariant
                values@.len() <= dimension,
                forall|j: int|
                    0 <= j < values@.len() ==> #[trigger] values@[j] == Decimal::spec_decimal(
                        0,
                        0,
                    ),
            decreases dimension - values@.len(),
        {
            values.push(Decimal::new(0, 0));
        }
        let hash = String::from_str("#");
        proof {
            reveal_strlit("#");
            assert(hash@ =~= seq!['#']);
        }
        let ghost ya = yalpha;
        let mut t: usize = 1;
        while t < n
            invariant
                n == parts@.len(),
                n == sv_parts(line@).len(),
                2 <= n,
                parts.deep_view() == sv_parts(line@),
                hash@ == seq!['#'],
                1 <= t <= n,
                dimension <= usize::MAX,
                values@.len() == dimension,
                dec_valid(sv_parts(line@)[0]),
                dec_fits(sv_parts(line@)[0]),
                yalpha == ya,
                ya.denotes(dec_num(sv_parts(line@)[0]), dec_e10(sv_parts(line@)[0])),
                forall|k: int|
                    1 <= k < t ==> (#[trigger] sv_parts(line@)[k]) != seq!['#'] && token_ok(
                        sv_parts(line@)[k],
                        dimension as int,
                    ),
                forall|j: int|
                    0 <= j < dimension ==> component_matches(
                        sv_parts(line@),
                        t as int,
                        j,
                        #[trigger] values@[j],
                    ),
            decreases n - t,
        {
            let token = &parts[t];
            proof {
                assert(parts.deep_view()[t as int] == parts@[t as int]@);
                if token@ != seq!['#'] {
                    lemma_effective_end_past(sv_parts(line@), 1, t as int);
                }
            }
            if *token == hash {
                proof {
                    lemma_effective_end_stops(sv_parts(line@), 1, t as int);
                }
                let sv = SupportVector { values, yalpha };
                return Ok(sv);
            }
            match split_once_char(token.as_str(), ':') {
                None => {
                    // the whole piece should have been `index:value`; the
                    // index is read first, so a piece without a colon
                    // fails on its digits or on the missing value
                    match parse_usize(token.as_str()) {
                        Ok(_) => {
                            return Err(NrpsError::InvalidFeatureLine(line));
                        },
                        Err(()) => {
                            proof {
                                lemma_no_colon_idx(token@);
                            }
                            return Err(NrpsError::IntParserError(token.clone()));
                        },
                    }
                },
                Some((a, b)) => {
                    let idx = match parse_usize(a) {
                        Ok(v) => v,
                        Err(()) => {
                            return Err(NrpsError::IntParserError(String::from_str(a)));
                        },
                    };
                    if idx == 0 || idx > dimension {
                        return Err(NrpsError::InvalidFeatureLine(line));
                    }
                    let value = match parse_decimal(b) {
                        Ok(d) => d,
                        Err(()) => {
                            return Err(NrpsError::FloatParserError(String::from_str(b)));
                        },
                    };
                    let ghost before = values@;
                    values[idx - 1] = value;
                    proof {
                        assert(values@ == before.update(idx - 1, value));
                        assert forall|j: int| 0 <= j < dimension implies component_matches(
                            sv_parts(line@),
                            t as int + 1,
                            j,
                            #[trigger] values@[j],
                        ) by {
                            assert(last_assign(sv_parts(line@), t as int + 1, j) == (if digits_value(
                                tok_idx_str(sv_parts(line@)[t as int]),
                            ) == j + 1 {
                                Some(sv_parts(line@)[t as int])
                            } else {
                                last_assign(sv_parts(line@), t as int, j)
                            }));
                        }
                    }
                },
            }
            t = t + 1;
        }
        proof {
            lemma_effective_end_all(sv_parts(line@), 1);
        }
        let sv = SupportVector { values, yalpha };
        Ok(sv)
    }
}

/// A piece without a colon is its own index part.
proof fn lemma_no_colon_idx(t: Seq<char>)
    requires
        !t.contains(':'),
    ensures
        tok_idx_str(t) == t,
    decreases t.len(),
{
    if t.len() > 0 {
        assert(t[0] != ':');
        lemma_no_colon_idx(t.skip(1));
        assert(forall|m: int| 0 <= m < t.len() - 1 ==> t.skip(1)[m] == #[trigger] t[m + 1]);
        if t.skip(1).contains(':') {
            let m = choose|m: int| 0 <= m < t.skip(1).len() && t.skip(1)[m] == ':';
            assert(t[m + 1] == ':');
        }
        assert(before_char(t, ':') == seq![t[0]] + before_char(t.skip(1), ':'));
        assert(seq![t[0]] + t.skip(1) =~= t);
    }
}

/// While no piece up to `through` is `#`, the read pieces extend past
/// `through`.
proof fn lemma_effective_end_past(parts: Seq<Seq<char>>, from: int, through: int)
    requires
        0 <= from <= through < parts.len(),
        forall|k: int| from <= k <= through ==> (#[trigger] parts[k]) != seq!['#'],
    ensures
        effective_end(parts, from) > through,
    decreases through - from,
{
    if from < through {
        lemma_effective_end_past(parts, from + 1, through);
    } else {
        lemma_effective_end_ge(parts, from + 1);
    }
}

/// The read pieces never end before the starting point.
proof fn lemma_effective_end_ge(parts: Seq<Seq<char>>, from: int)
    requires
        0 <= from <= parts.len(),
    ensures
        effective_end(parts, from) >= from,
    decreases parts.len() - from,
{
    if from < parts.len() && parts[from] != seq!['#'] {
        lemma_effective_end_ge(parts, from + 1);
    }
}

/// If no earlier piece is `#` and piece `stop` is, the read pieces end
/// exactly at `stop`.
proof fn lemma_effective_end_stops(parts: Seq<Seq<char>>, from: int, stop: int)
    requires
        1 <= from <= stop < parts.len(),
        parts[stop] == seq!['#'],
        forall|k: int| from <= k < stop ==> (#[trigger] parts[k]) != seq!['#'],
    ensures
        effective_end(parts, from) == stop,
    decreases stop - from,
{
    if from < stop {
        lemma_effective_end_stops(parts, from + 1, stop);
    }
}

/// If no piece from `from` on is `#`, every piece is read.
proof fn lemma_effective_end_all(parts: Seq<Seq<char>>, from: int)
    requires
        0 <= from,
        forall|k: int| from <= k < parts.len() ==> (#[trigger] parts[k]) != seq!['#'],
    ensures
        effective_end(parts, from) == parts.len(),
    decreases parts.len() - from,
{
    if from < parts.len() {
        lemma_effective_end_all(parts, from + 1);
    }
}

} // verus!
