//! Substrate prediction for adenylation-domain signatures.
//!
//! The library combines a bank of pretrained binary kernel-machine
//! classifiers with a nearest-neighbour matcher over a curated database of
//! known signatures.  Everything that computes on plain values lives here,
//! with verified contracts; file discovery, configuration loading and the
//! floating-point kernel arithmetic live in the surrounding application.

use vstd::prelude::*;

pub mod config;
pub mod decimal;
pub mod encodings;
mod errors;
pub mod predictors;
pub mod svm;
pub mod textparse;

pub use errors::NrpsError;

verus! {

/// The tab-separated fields of one query line.
pub open spec fn domain_fields(line: Seq<char>) -> Seq<Seq<char>> {
    textparse::split_at_char(line, '\t')
}

/// A query line is well formed when it has at least two tab-separated
/// fields and its first field is exactly 34 symbols long.
pub open spec fn domain_line_ok(line: Seq<char>) -> bool {
    domain_fields(line).len() >= 2 && domain_fields(line)[0].len() == 34
}

/// The identifier a query line declares: its second field, or, when a
/// third field is present, the third and second fields joined by an
/// underscore.
pub open spec fn domain_name(line: Seq<char>) -> Seq<char> {
    let fields = domain_fields(line);
    if fields.len() == 2 {
        fields[1]
    } else {
        fields[2] + seq!['_'] + fields[1]
    }
}

/// Parses one query line into a query record.  The line must hold the
/// 34-symbol signature and an identifier, tab-separated; anything else is
/// rejected with a signature error carrying the line.
pub fn parse_domain(line: String) -> (r: Result<predictors::predictions::ADomain, NrpsError>)
    ensures
        domain_line_ok(line@) ==> (r matches Ok(d) && {
            &&& d.spec_aa34()@ == domain_fields(line@)[0]
            &&& d.spec_name()@ == domain_name(line@)
            &&& forall|c: predictors::predictions::PredictionCategory| !d.has_category(c)
            &&& d.stach_view() == Seq::<predictors::predictions::StachPrediction>::empty()
        }),
        !domain_line_ok(line@) ==> (r matches Err(NrpsError::SignatureError(m)) && m@ == line@),
{
    let parts = textparse::split_char(line.as_str(), '\t');
    if parts.len() < 2 {
        return Err(NrpsError::SignatureError(line));
    }
    proof {
        assert(parts.deep_view()[0] == parts@[0]@);
    }
    if parts[0].as_str().unicode_len() != 34 {
        return Err(NrpsError::SignatureError(line));
    }
    let name = if parts.len() == 2 {
        proof {
            assert(parts.deep_view()[1] == parts@[1]@);
        }
        parts[1].clone()
    } else {
        proof {
            assert(parts.deep_view()[1] == parts@[1]@);
            assert(parts.deep_view()[2] == parts@[2]@);
            reveal_strlit("_");
        }
        let mut joined = parts[2].clone();
        joined.append("_");
        joined.append(parts[1].as_str());
        proof {
            assert(joined@ =~= domain_name(line@));
        }
        joined
    };
    let aa34 = parts[0].clone();
    Ok(predictors::predictions::ADomain::new(name, aa34))
}

/// A line that trims to nothing is skipped rather than parsed.
pub open spec fn domain_line_blank(line: Seq<char>) -> bool {
    textparse::spec_trim(line).len() == 0
}

/// The lines of a batch that are parsed: those that do not trim to
/// nothing.
pub open spec fn kept_lines(lines: Seq<Seq<char>>) -> Seq<Seq<char>> {
    lines.filter(|l: Seq<char>| !domain_line_blank(l))
}

/// Parses a batch of query lines: each line is trimmed, blank lines are
/// skipped, and the first malformed line aborts the batch.
pub fn parse_domain_lines(lines: &Vec<String>) -> (r: Result<
    Vec<predictors::predictions::ADomain>,
    NrpsError,
>)
    ensures
        r is Ok <==> (forall|i: int|
            0 <= i < lines@.len() ==> {
                let l = #[trigger] lines.deep_view()[i];
                domain_line_blank(l) || domain_line_ok(textparse::spec_trim(l))
            }),
        r matches Ok(v) ==> {
            let kept = kept_lines(lines.deep_view());
            &&& v@.len() == kept.len()
            &&& forall|k: int|
                0 <= k < v@.len() ==> {
                    let l = textparse::spec_trim(#[trigger] kept[k]);
                    &&& v@[k].spec_aa34()@ == domain_fields(l)[0]
                    &&& v@[k].spec_name()@ == domain_name(l)
                    &&& forall|c: predictors::predictions::PredictionCategory|
                        !v@[k].has_category(c)
                    &&& v@[k].stach_view() == Seq::<
                        predictors::predictions::StachPrediction,
                    >::empty()
                }
        },
        r matches Err(e) ==> exists|i: int|
            {
                let l = #[trigger] lines.deep_view()[i];
                &&& 0 <= i < lines@.len()
                &&& !domain_line_blank(l)
                &&& !domain_line_ok(textparse::spec_trim(l))
                &&& forall|j: int|
                    0 <= j < i ==> {
                        let lj = #[trigger] lines.deep_view()[j];
                        domain_line_blank(lj) || domain_line_ok(textparse::spec_trim(lj))
                    }
                &&& (e matches NrpsError::SignatureError(m) && m@ == textparse::spec_trim(l))
            },
{
    broadcast use vstd::seq_lib::group_filter_ensures;
    broadcast use Seq::lemma_filter_push;

    let mut domains: Vec<predictors::predictions::ADomain> = Vec::new();
    let n = lines.len();
    let mut i: usize = 0;
    proof {
        assert(lines.deep_view().take(0) =~= Seq::<Seq<char>>::empty());
        assert(kept_lines(Seq::<Seq<char>>::empty()) =~= Seq::<Seq<char>>::empty());
    }
    while i < n
        invariant
            n == lines@.len(),
            i <= n,
            forall|j: int|
                0 <= j < i ==> {
                    let lj = #[trigger] lines.deep_view()[j];
                    domain_line_blank(lj) || domain_line_ok(textparse::spec_trim(lj))
                },
            domains@.len() == kept_lines(lines.deep_view().take(i as int)).len(),
            forall|k: int|
                0 <= k < domains@.len() ==> {
                    let l = textparse::spec_trim(
                        #[trigger] kept_lines(lines.deep_view().take(i as int))[k],
                    );
                    &&& domains@[k].spec_aa34()@ == domain_fields(l)[0]
                    &&& domains@[k].spec_name()@ == domain_name(l)
                    &&& forall|c: predictors::predictions::PredictionCategory|
                        !domains@[k].has_category(c)
                    &&& domains@[k].stach_view() == Seq::<
                        predictors::predictions::StachPrediction,
                    >::empty()
                },
        decreases n - i,
    {
        let ghost prefix = lines.deep_view().take(i as int);
        let ghost kept_prefix = kept_lines(prefix);
        let trimmed = textparse::trim(lines[i].as_str());
        proof {
            assert(lines.deep_view()[i as int] == lines@[i as int]@);
            assert(lines.deep_view().take(i as int + 1) =~= prefix.push(
                lines.deep_view()[i as int],
            ));
            assert(prefix.push(lines.deep_view()[i as int]).drop_last() =~= prefix);
        }
        if trimmed.unicode_len() == 0 {
            proof {
                reveal(Seq::filter);
                assert(domain_line_blank(lines.deep_view()[i as int]));
                assert(kept_lines(lines.deep_view().take(i as int + 1)) =~= kept_prefix);
            }
            i = i + 1;
            continue ;
        }
        let line = trimmed.to_owned();
        match parse_domain(line) {
            Ok(d) => {
                domains.push(d);
            },
            Err(e) => {
                return Err(e);
            },
        }
        proof {
            reveal(Seq::filter);
            assert(!domain_line_blank(lines.deep_view()[i as int]));
            assert(kept_lines(lines.deep_view().take(i as int + 1)) =~= kept_prefix.push(
                lines.deep_view()[i as int],
            ));
        }
        i = i + 1;
    }
    proof {
        assert(lines.deep_view().take(n as int) =~= lines.deep_view());
    }
    Ok(domains)
}

} // verus!
