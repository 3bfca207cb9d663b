//! Nearest-neighbour matching of a query signature against the curated
//! reference database, using a two-tier Hamming-distance criterion over the
//! 10-symbol sub-window and the full 34-symbol window.

use vstd::prelude::*;

use crate::errors::NrpsError;
use crate::predictors::predictions::{
    best_of, sorted_desc, stach_sorted_desc, wf_scores, wf_stach, ADomain, Prediction,
    PredictionCategory, PredictionList, Score, StachPrediction, StachPredictionList,
};
use crate::textparse::{spec_trim, split_at_char, split_char, trim};
use vstd::multiset::Multiset;

verus! {

/// Counts the positions at which the first `n` characters of `a` and `b`
/// differ.
pub open spec fn hamming_upto(a: Seq<char>, b: Seq<char>, n: int) -> int
    decreases n,
{
    if n <= 0 {
        0
    } else {
        hamming_upto(a, b, n - 1) + if a[n - 1] != b[n - 1] {
            1int
        } else {
            0int
        }
    }
}

/// Positional mismatch count between two strings, taken over the shorter
/// of the two lengths.
pub open spec fn hamming(a: Seq<char>, b: Seq<char>) -> int {
    hamming_upto(a, b, vstd::math::min(a.len() as int, b.len() as int))
}

/// Hamming distance: the number of positions at which the two strings
/// disagree, over the shorter of the two lengths.
pub fn hamming_dist(a: &String, b: &String) -> (r: usize)
    ensures
        r == hamming(a@, b@),
        r <= a@.len() && r <= b@.len(),
{
    let a_str = a.as_str();
    let b_str = b.as_str();
    let a_len = a_str.unicode_len();
    let b_len = b_str.unicode_len();
    let n = if a_len < b_len {
        a_len
    } else {
        b_len
    };
    let mut count: usize = 0;
    let mut i: usize = 0;
    while i < n
        invariant
            a_str@ == a@,
            b_str@ == b@,
            n == vstd::math::min(a@.len() as int, b@.len() as int),
            i <= n,
            count == hamming_upto(a@, b@, i as int),
            count <= i,
        decreases n - i,
    {
        if a_str.get_char(i) != b_str.get_char(i) {
            count = count + 1;
        }
        i = i + 1;
    }
    count
}

/// Hamming distance is symmetric.
pub proof fn lemma_hamming_symmetric(a: Seq<char>, b: Seq<char>)
    ensures
        hamming(a, b) == hamming(b, a),
{
    lemma_hamming_upto_symmetric(a, b, vstd::math::min(a.len() as int, b.len() as int));
}

proof fn lemma_hamming_upto_symmetric(a: Seq<char>, b: Seq<char>, n: int)
    ensures
        hamming_upto(a, b, n) == hamming_upto(b, a, n),
    decreases n,
{
    if n > 0 {
        lemma_hamming_upto_symmetric(a, b, n - 1);
    }
}

/// The Hamming distance of a string to itself is zero.
pub proof fn lemma_hamming_self(a: Seq<char>)
    ensures
        hamming(a, a) == 0,
{
    lemma_hamming_upto_self(a, a.len() as int);
}

proof fn lemma_hamming_upto_self(a: Seq<char>, n: int)
    ensures
        hamming_upto(a, a, n) == 0,
    decreases n,
{
    if n > 0 {
        lemma_hamming_upto_self(a, n - 1);
    }
}

/// The positions, within the compared length, at which the two strings
/// disagree.
pub open spec fn mismatch_positions(a: Seq<char>, b: Seq<char>) -> Set<int> {
    Set::new(
        |i: int| 0 <= i < vstd::math::min(a.len() as int, b.len() as int) && a[i] != b[i],
    )
}

/// The Hamming distance is exactly the number of differing positions.
pub proof fn lemma_hamming_counts_mismatches(a: Seq<char>, b: Seq<char>)
    ensures
        mismatch_positions(a, b).finite(),
        hamming(a, b) == mismatch_positions(a, b).len(),
{
    let n = vstd::math::min(a.len() as int, b.len() as int);
    lemma_hamming_counts_upto(a, b, n);
    assert(Set::new(|i: int| 0 <= i < n && a[i] != b[i]) =~= mismatch_positions(a, b));
}

proof fn lemma_hamming_counts_upto(a: Seq<char>, b: Seq<char>, n: int)
    requires
        0 <= n,
    ensures
        Set::new(|i: int| 0 <= i < n && a[i] != b[i]).finite(),
        hamming_upto(a, b, n) == Set::new(|i: int| 0 <= i < n && a[i] != b[i]).len(),
    decreases n,
{
    let s = Set::new(|i: int| 0 <= i < n && a[i] != b[i]);
    if n == 0 {
        assert(s =~= Set::<int>::empty());
    } else {
        lemma_hamming_counts_upto(a, b, n - 1);
        let prev = Set::new(|i: int| 0 <= i < n - 1 && a[i] != b[i]);
        if a[n - 1] != b[n - 1] {
            assert(s =~= prev.insert(n - 1));
            assert(!prev.contains(n - 1));
            vstd::set::axiom_set_insert_finite(prev, n - 1);
            vstd::set::axiom_set_insert_len(prev, n - 1);
        } else {
            assert(s =~= prev);
        }
    }
}

/// The 10-symbol sub-window of a 34-symbol signature: the residues at the
/// fixed positions 5, 6, 9, 12, 14, 16, 21, 29 and 30, followed by the
/// sentinel symbol `K`.
pub open spec fn extracted_aa10(s: Seq<char>) -> Seq<char> {
    seq![s[5], s[6], s[9], s[12], s[14], s[16], s[21], s[29], s[30], 'K']
}

/// Projects the 10-symbol sub-window out of a full 34-symbol signature.
/// Any other length is rejected with a signature error carrying the input.
pub fn extract_aa10(aa34: &String) -> (r: Result<String, NrpsError>)
    ensures
        aa34@.len() == 34 ==> (r matches Ok(s) && s@ == extracted_aa10(aa34@) && s@.len() == 10),
        aa34@.len() != 34 ==> (r matches Err(NrpsError::SignatureError(m)) && m@ == aa34@),
{
    let s = aa34.as_str();
    if s.unicode_len() != 34 {
        return Err(NrpsError::SignatureError(aa34.clone()));
    }
    let mut aa10 = String::new();
    aa10.append(s.substring_char(5, 7));
    aa10.append(s.substring_char(9, 10));
    aa10.append(s.substring_char(12, 13));
    aa10.append(s.substring_char(14, 15));
    aa10.append(s.substring_char(16, 17));
    aa10.append(s.substring_char(21, 22));
    aa10.append(s.substring_char(29, 31));
    aa10.append("K");
    proof {
        reveal_strlit("K");
        assert(aa10@ =~= extracted_aa10(aa34@));
    }
    Ok(aa10)
}

/// The fraction of positions that match: `matches / len`.
pub fn similarity(matches: usize, len: usize) -> (r: Score)
    requires
        0 < len <= 0x7fff_ffff,
        matches <= 0x7fff_ffff,
    ensures
        r.num() == matches,
        r.den() == len,
        r.wf(),
        r == Score::spec_score(matches as int, len as int),
{
    Score::new(matches as i64, len as i64)
}

/// Numerator of the combined score
/// `p / pl - (1 - s / sl) / 10` over the denominator `10 * pl * sl`.
pub open spec fn combined_score_num(p: int, pl: int, s: int, sl: int) -> int {
    10 * p * sl - pl * sl + pl * s
}

/// The combined candidate score: the primary-window similarity, with the
/// secondary-window disagreement subtracted as a penalty of at most a
/// tenth of the score's weight.
pub fn calculate_score(
    primary_matches: usize,
    primary_len: usize,
    secondary_matches: usize,
    secondary_len: usize,
) -> (r: Score)
    requires
        0 < primary_len <= 100_000,
        0 < secondary_len <= 100_000,
        primary_matches <= 100_000,
        secondary_matches <= 100_000,
    ensures
        r.num() == combined_score_num(
            primary_matches as int,
            primary_len as int,
            secondary_matches as int,
            secondary_len as int,
        ),
        r.den() == 10 * primary_len * secondary_len,
        r.wf(),
        r == Score::spec_score(
            combined_score_num(
                primary_matches as int,
                primary_len as int,
                secondary_matches as int,
                secondary_len as int,
            ),
            10 * primary_len * secondary_len,
        ),
{
    let p = primary_matches as i64;
    let pl = primary_len as i64;
    let s = secondary_matches as i64;
    let sl = secondary_len as i64;
    proof {
        assert(0 < 10 * pl * sl <= 100_000_000_000i64 && -100_000_000_000i64 <= 10 * p * sl
            <= 100_000_000_000i64 && 0 <= pl * sl <= 100_000_000_000i64 && 0 <= pl * s
            <= 100_000_000_000i64) by (nonlinear_arith)
            requires
                0 < pl <= 100_000,
                0 < sl <= 100_000,
                0 <= p <= 100_000,
                0 <= s <= 100_000,
        ;
    }
    let num = 10 * p * sl - pl * sl + pl * s;
    let den = 10 * pl * sl;
    Score::new(num, den)
}

/// One row of the reference database: the two signature windows and the
/// substrate the row votes for.
#[derive(Debug, PartialEq)]
pub struct StachelhausSignature {
    pub aa10: String,
    pub aa34: String,
    pub winner: String,
}

impl Clone for StachelhausSignature {
    fn clone(&self) -> (r: Self)
        ensures
            r == *self,
    {
        StachelhausSignature {
            aa10: self.aa10.clone(),
            aa34: self.aa34.clone(),
            winner: self.winner.clone(),
        }
    }
}

/// The tab-separated fields of a database row, after trimming.
pub open spec fn sig_fields(line: Seq<char>) -> Seq<Seq<char>> {
    split_at_char(spec_trim(line), '\t')
}

/// A database row is well formed when it has exactly five fields.
pub open spec fn sig_line_ok(line: Seq<char>) -> bool {
    sig_fields(line).len() == 5
}

/// The concatenation of a row's fields, used to identify a malformed row.
pub open spec fn joined(parts: Seq<Seq<char>>) -> Seq<char>
    decreases parts.len(),
{
    if parts.len() == 0 {
        Seq::empty()
    } else {
        parts[0] + joined(parts.skip(1))
    }
}

/// Parses the reference database, one row per line.  Each row must hold
/// exactly five tab-separated fields: the 10-symbol window, the 34-symbol
/// window, and the substrate label in the fourth field.  The first
/// malformed row aborts the parse with a signature error carrying the
/// row's fields run together.
pub fn parse_sigs(lines: &Vec<String>) -> (r: Result<Vec<StachelhausSignature>, NrpsError>)
    ensures
        r is Ok <==> (forall|i: int|
            0 <= i < lines@.len() ==> sig_line_ok(#[trigger] lines.deep_view()[i])),
        r matches Ok(v) ==> {
            &&& v@.len() == lines@.len()
            &&& forall|i: int|
                0 <= i < v@.len() ==> {
                    &&& (#[trigger] v@[i]).aa10@ == sig_fields(lines.deep_view()[i])[0]
                    &&& v@[i].aa34@ == sig_fields(lines.deep_view()[i])[1]
                    &&& v@[i].winner@ == sig_fields(lines.deep_view()[i])[3]
                }
        },
        r matches Err(e) ==> exists|i: int|
            {
                &&& 0 <= i < lines@.len()
                &&& !sig_line_ok(#[trigger] lines.deep_view()[i])
                &&& forall|j: int| 0 <= j < i ==> sig_line_ok(#[trigger] lines.deep_view()[j])
                &&& (e matches NrpsError::SignatureError(m) && m@ == joined(
                    sig_fields(lines.deep_view()[i]),
                ))
            },
{
    let mut signatures: Vec<StachelhausSignature> = Vec::with_capacity(2500);
    let n = lines.len();
    let mut i: usize = 0;
    while i < n
        invariant
            n == lines@.len(),
            i <= n,
            signatures@.len() == i,
            forall|j: int| 0 <= j < i ==> sig_line_ok(#[trigger] lines.deep_view()[j]),
            forall|j: int|
                0 <= j < i ==> {
                    &&& (#[trigger] signatures@[j]).aa10@ == sig_fields(lines.deep_view()[j])[0]
                    &&& signatures@[j].aa34@ == sig_fields(lines.deep_view()[j])[1]
                    &&& signatures@[j].winner@ == sig_fields(lines.deep_view()[j])[3]
                },
        decreases n - i,
    {
        let trimmed = trim(lines[i].as_str());
        let parts = split_char(trimmed, '\t');
        proof {
            assert(parts.deep_view() == sig_fields(lines.deep_view()[i as int]));
        }
        if parts.len() != 5 {
            let mut message = String::new();
            let mut k: usize = 0;
            proof {
                assert(parts.deep_view().skip(0) =~= parts.deep_view());
            }
            while k < parts.len()
                invariant
                    parts.deep_view() == sig_fields(lines.deep_view()[i as int]),
                    k <= parts@.len(),
                    message@ + joined(parts.deep_view().skip(k as int)) =~= joined(
                        parts.deep_view(),
                    ),
                decreases parts@.len() - k,
            {
                let ghost prev = message@;
                message.append(parts[k].as_str());
                proof {
                    assert(parts.deep_view().skip(k as int)[0] == parts.deep_view()[k as int]);
                    assert(parts.deep_view().skip(k as int).skip(1) =~= parts.deep_view().skip(
                        k as int + 1,
                    ));
                }
                k = k + 1;
            }
            proof {
                assert(parts.deep_view().skip(parts@.len() as int) =~= Seq::<Seq<char>>::empty());
                assert(message@ =~= joined(parts.deep_view()));
            }
            return Err(NrpsError::SignatureError(message));
        }
        proof {
            assert(parts.deep_view()[0] == parts@[0]@);
            assert(parts.deep_view()[1] == parts@[1]@);
            assert(parts.deep_view()[3] == parts@[3]@);
        }
        let sig = StachelhausSignature {
            aa10: parts[0].clone(),
            aa34: parts[1].clone(),
            winner: parts[3].clone(),
        };
        signatures.push(sig);
        i = i + 1;
    }
    Ok(signatures)
}

/// How many of the query sub-window's positions agree with the row's
/// primary window.
pub open spec fn primary_matches(q10: Seq<char>, sig: StachelhausSignature) -> int {
    q10.len() - hamming(q10, sig.aa10@)
}

/// How many of the query full window's positions agree with the row's
/// secondary window.
pub open spec fn secondary_matches(q34: Seq<char>, sig: StachelhausSignature) -> int {
    q34.len() - hamming(q34, sig.aa34@)
}

/// One candidate the scan records: the row and its two match counts.
pub ghost struct TrailItem {
    pub sig: StachelhausSignature,
    pub p: int,
    pub s: int,
}

/// The candidates the scan records from row `i` on, entering with the
/// running maxima `b10` and `b34`: a row beating the primary maximum is
/// recorded and resets both maxima; a row tying the primary maximum and
/// beating the secondary one is recorded and raises the secondary
/// maximum; every other row is discarded.
pub open spec fn trail_from(
    sigs: Seq<StachelhausSignature>,
    i: int,
    q10: Seq<char>,
    q34: Seq<char>,
    b10: int,
    b34: int,
) -> Seq<TrailItem>
    decreases sigs.len() - i,
{
    if i < 0 || i >= sigs.len() {
        Seq::empty()
    } else {
        let p = primary_matches(q10, sigs[i]);
        let s = secondary_matches(q34, sigs[i]);
        if p > b10 {
            seq![TrailItem { sig: sigs[i], p, s }] + trail_from(sigs, i + 1, q10, q34, p, s)
        } else if p == b10 && s > b34 {
            seq![TrailItem { sig: sigs[i], p, s }] + trail_from(sigs, i + 1, q10, q34, b10, s)
        } else {
            trail_from(sigs, i + 1, q10, q34, b10, b34)
        }
    }
}

/// The full improvement trail of one query over the whole database, with
/// the fixed significance threshold of more than 6 matching primary
/// positions.
pub open spec fn matcher_trail(
    sigs: Seq<StachelhausSignature>,
    q10: Seq<char>,
    q34: Seq<char>,
) -> Seq<TrailItem> {
    trail_from(sigs, 0, q10, q34, 6, 6)
}

/// The ranked-store candidate one recorded row produces.
pub open spec fn item_prediction(item: TrailItem) -> Prediction {
    Prediction {
        name: item.sig.winner,
        score: Score::spec_score(combined_score_num(item.p, 10, item.s, 34), 3400),
    }
}

/// The detail record one recorded row produces.
pub open spec fn item_detail(item: TrailItem) -> StachPrediction {
    StachPrediction {
        name: item.sig.winner,
        aa10_score: Score::spec_score(item.p, 10),
        aa10_sig: item.sig.aa10,
        aa34_score: Score::spec_score(item.s, item.sig.aa34@.len() as int),
        aa34_sig: item.sig.aa34,
    }
}

/// The ranked-store candidates of a trail.
pub open spec fn trail_predictions(tr: Seq<TrailItem>) -> Seq<Prediction> {
    tr.map_values(|it: TrailItem| item_prediction(it))
}

/// The detail records of a trail.
pub open spec fn trail_details(tr: Seq<TrailItem>) -> Seq<StachPrediction> {
    tr.map_values(|it: TrailItem| item_detail(it))
}

/// Every database row's secondary window is non-empty and of machine
/// length; its length is a score denominator.
pub open spec fn sigs_wf(sigs: Seq<StachelhausSignature>) -> bool {
    forall|i: int| 0 <= i < sigs.len() ==> 0 < (#[trigger] sigs[i]).aa34@.len() <= 0x7fff_ffff
}

/// What one matched query record looks like afterwards: the detail list
/// holds exactly the trail's records; the reference-matcher category holds
/// its previous candidates plus the top-scored trail candidates; nothing
/// else changed.
pub open spec fn matched_domain(
    old_d: ADomain,
    new_d: ADomain,
    sigs: Seq<StachelhausSignature>,
) -> bool {
    let q34 = old_d.spec_aa34()@;
    let tr = matcher_trail(sigs, extracted_aa10(q34), q34);
    &&& new_d.spec_name() == old_d.spec_name()
    &&& new_d.spec_aa34() == old_d.spec_aa34()
    &&& new_d.stach_view().to_multiset() == trail_details(tr).to_multiset()
    &&& stach_sorted_desc(new_d.stach_view())
    &&& tr.len() == 0 ==> {
        &&& forall|c: PredictionCategory|
            #[trigger] new_d.has_category(c) == old_d.has_category(c)
        &&& forall|c: PredictionCategory|
            old_d.has_category(c) ==> #[trigger] new_d.category_list(c) == old_d.category_list(c)
    }
    &&& tr.len() > 0 ==> {
        &&& new_d.has_category(PredictionCategory::Stachelhaus)
        &&& new_d.category_list(PredictionCategory::Stachelhaus).to_multiset() == (if old_d.has_category(
            PredictionCategory::Stachelhaus,
        ) {
            old_d.category_list(PredictionCategory::Stachelhaus).to_multiset()
        } else {
            Multiset::<Prediction>::empty()
        }).add(best_of(trail_predictions(tr).to_multiset()))
        &&& sorted_desc(new_d.category_list(PredictionCategory::Stachelhaus))
        &&& forall|c: PredictionCategory|
            c != PredictionCategory::Stachelhaus ==> #[trigger] new_d.has_category(c)
                == old_d.has_category(c)
        &&& forall|c: PredictionCategory|
            c != PredictionCategory::Stachelhaus && old_d.has_category(c)
                ==> #[trigger] new_d.category_list(c) == old_d.category_list(c)
    }
}

/// Unfolding one recorded row out of a trail's candidate multisets.
proof fn lemma_trail_unfold(item: TrailItem, rest: Seq<TrailItem>)
    ensures
        trail_predictions(seq![item] + rest).to_multiset() == trail_predictions(
            rest,
        ).to_multiset().insert(item_prediction(item)),
        trail_details(seq![item] + rest).to_multiset() == trail_details(
            rest,
        ).to_multiset().insert(item_detail(item)),
{
    broadcast use vstd::seq_lib::group_to_multiset_ensures;
    broadcast use vstd::multiset::group_multiset_axioms;

    assert(trail_predictions(seq![item] + rest) =~= seq![item_prediction(item)]
        + trail_predictions(rest));
    vstd::seq_lib::lemma_multiset_commutative(
        seq![item_prediction(item)],
        trail_predictions(rest),
    );
    assert(seq![item_prediction(item)].to_multiset() =~= Multiset::<Prediction>::empty().insert(
        item_prediction(item),
    )) by {
        assert(seq![item_prediction(item)] =~= Seq::<Prediction>::empty().push(
            item_prediction(item),
        ));
        assert(Seq::<Prediction>::empty().to_multiset() =~= Multiset::<Prediction>::empty());
    }
    assert(trail_predictions(seq![item] + rest).to_multiset() =~= trail_predictions(
        rest,
    ).to_multiset().insert(item_prediction(item)));
    assert(trail_details(seq![item] + rest) =~= seq![item_detail(item)] + trail_details(rest));
    vstd::seq_lib::lemma_multiset_commutative(seq![item_detail(item)], trail_details(rest));
    assert(seq![item_detail(item)].to_multiset() =~= Multiset::<StachPrediction>::empty().insert(
        item_detail(item),
    )) by {
        assert(seq![item_detail(item)] =~= Seq::<StachPrediction>::empty().push(
            item_detail(item),
        ));
        assert(Seq::<StachPrediction>::empty().to_multiset() =~= Multiset::<
            StachPrediction,
        >::empty());
    }
    assert(trail_details(seq![item] + rest).to_multiset() =~= trail_details(
        rest,
    ).to_multiset().insert(item_detail(item)));
}

/// Runs the matcher for one query record against the whole database.
pub fn predict_domain(domain: &mut ADomain, signatures: &Vec<StachelhausSignature>) -> (r: Result<
    (),
    NrpsError,
>)
    requires
        sigs_wf(signatures@),
    ensures
        old(domain).spec_aa34()@.len() == 34 ==> (r is Ok && matched_domain(
            *old(domain),
            *final(domain),
            signatures@,
        )),
        old(domain).spec_aa34()@.len() != 34 ==> (r matches Err(NrpsError::SignatureError(m))
            && m@ == old(domain).spec_aa34()@ && *final(domain) == *old(domain)),
{
    let aa10 = match extract_aa10(domain.aa34_str()) {
        Ok(s) => s,
        Err(e) => {
            return Err(e);
        },
    };
    let q34 = domain.aa34_str().clone();
    let ghost q10v = aa10@;
    let ghost q34v = q34@;
    let ghost full_preds = trail_predictions(matcher_trail(signatures@, q10v, q34v)).to_multiset();
    let ghost full_details = trail_details(matcher_trail(signatures@, q10v, q34v)).to_multiset();
    let mut best10: usize = 6;  // a hit needs more than 6 matching primary positions
    let mut best34: usize = 6;
    let mut plist = PredictionList::new();
    let mut stach = StachPredictionList::new();
    let n = signatures.len();
    let mut si: usize = 0;
    proof {
        broadcast use vstd::seq_lib::group_to_multiset_ensures;
        broadcast use vstd::multiset::group_multiset_axioms;

        assert(plist@.to_multiset() =~= Multiset::<Prediction>::empty());
        assert(stach@.to_multiset() =~= Multiset::<StachPrediction>::empty());
        assert(full_preds =~= plist@.to_multiset().add(
            trail_predictions(trail_from(signatures@, 0, q10v, q34v, 6, 6)).to_multiset(),
        ));
        assert(full_details =~= stach@.to_multiset().add(
            trail_details(trail_from(signatures@, 0, q10v, q34v, 6, 6)).to_multiset(),
        ));
    }
    while si < n
        invariant
            n == signatures@.len(),
            si <= n,
            sigs_wf(signatures@),
            aa10@ == q10v,
            q34@ == q34v,
            q10v.len() == 10,
            q34v.len() == 34,
            6 <= best10 <= 10,
            best34 <= 34,
            full_preds == trail_predictions(matcher_trail(signatures@, q10v, q34v)).to_multiset(),
            full_details == trail_details(matcher_trail(signatures@, q10v, q34v)).to_multiset(),
            full_preds == plist@.to_multiset().add(
                trail_predictions(
                    trail_from(signatures@, si as int, q10v, q34v, best10 as int, best34 as int),
                ).to_multiset(),
            ),
            full_details == stach@.to_multiset().add(
                trail_details(
                    trail_from(signatures@, si as int, q10v, q34v, best10 as int, best34 as int),
                ).to_multiset(),
            ),
            sorted_desc(plist@),
            wf_scores(plist@),
            stach_sorted_desc(stach@),
            wf_stach(stach@),
        decreases n - si,
    {
        let sig = &signatures[si];
        let h10 = hamming_dist(&aa10, &sig.aa10);
        let aa10_matches = 10 - h10;
        let h34 = hamming_dist(&q34, &sig.aa34);
        let aa34_matches = 34 - h34;
        proof {
            assert(aa10_matches == primary_matches(q10v, signatures@[si as int]));
            assert(aa34_matches == secondary_matches(q34v, signatures@[si as int]));
        }
        let ghost item = TrailItem {
            sig: signatures@[si as int],
            p: aa10_matches as int,
            s: aa34_matches as int,
        };
        let ghost before_tr = trail_from(
            signatures@,
            si as int,
            q10v,
            q34v,
            best10 as int,
            best34 as int,
        );
        if aa10_matches > best10 || (aa10_matches == best10 && aa34_matches > best34) {
            let score = calculate_score(aa10_matches, 10, aa34_matches, 34);
            let pred = Prediction { name: sig.winner.clone(), score };
            proof {
                assert(pred == item_prediction(item));
            }
            plist.add(pred);
            let sig_aa34_len = sig.aa34.as_str().unicode_len();
            let detail = StachPrediction {
                name: sig.winner.clone(),
                aa10_score: similarity(aa10_matches, 10),
                aa10_sig: sig.aa10.clone(),
                aa34_score: similarity(aa34_matches, sig_aa34_len),
                aa34_sig: sig.aa34.clone(),
            };
            proof {
                assert(detail == item_detail(item));
            }
            stach.add(detail);
            let ghost after_tr = if aa10_matches > best10 {
                trail_from(
                    signatures@,
                    si as int + 1,
                    q10v,
                    q34v,
                    aa10_matches as int,
                    aa34_matches as int,
                )
            } else {
                trail_from(
                    signatures@,
                    si as int + 1,
                    q10v,
                    q34v,
                    best10 as int,
                    aa34_matches as int,
                )
            };
            proof {
                assert(before_tr == seq![item] + after_tr);
                lemma_trail_unfold(item, after_tr);
                assert(full_preds =~= plist@.to_multiset().add(
                    trail_predictions(after_tr).to_multiset(),
                ));
                assert(full_details =~= stach@.to_multiset().add(
                    trail_details(after_tr).to_multiset(),
                ));
            }
            if aa10_matches > best10 {
                best10 = aa10_matches;
                best34 = aa34_matches;
            } else {
                best34 = aa34_matches;
            }
        } else {
            proof {
                assert(before_tr == trail_from(
                    signatures@,
                    si as int + 1,
                    q10v,
                    q34v,
                    best10 as int,
                    best34 as int,
                ));
            }
        }
        si = si + 1;
    }
    let ghost tr = matcher_trail(signatures@, q10v, q34v);
    proof {
        broadcast use vstd::seq_lib::group_to_multiset_ensures;
        broadcast use vstd::multiset::group_multiset_axioms;

        assert(trail_from(signatures@, n as int, q10v, q34v, best10 as int, best34 as int)
            =~= Seq::<TrailItem>::empty());
        assert(trail_predictions(Seq::<TrailItem>::empty()) =~= Seq::<Prediction>::empty());
        assert(trail_details(Seq::<TrailItem>::empty()) =~= Seq::<StachPrediction>::empty());
        assert(Seq::<Prediction>::empty().to_multiset() =~= Multiset::<Prediction>::empty());
        assert(Seq::<StachPrediction>::empty().to_multiset() =~= Multiset::<
            StachPrediction,
        >::empty());
        assert(plist@.to_multiset() =~= full_preds);
        assert(stach@.to_multiset() =~= full_details);
        assert(plist@.len() == trail_predictions(tr).len()) by {
            assert(plist@.to_multiset().len() == trail_predictions(tr).to_multiset().len());
        }
        assert(plist@.len() == tr.len());
    }
    let best = plist.get_best();
    proof {
        if plist@.len() > 0 {
            crate::predictors::predictions::lemma_best_prefix(plist@, best@.len() as int);
            assert(best@.to_multiset() == best_of(full_preds));
        } else {
            assert(best@ =~= Seq::<Prediction>::empty());
        }
        assert(wf_scores(best@)) by {
            assert(forall|j: int|
                0 <= j < best@.len() ==> best@[j] == plist@.subrange(0, best@.len() as int)[j]);
        }
    }
    let ghost base = if old(domain).has_category(PredictionCategory::Stachelhaus) {
        old(domain).category_list(PredictionCategory::Stachelhaus).to_multiset()
    } else {
        Multiset::<Prediction>::empty()
    };
    let m = best.len();
    let mut k: usize = 0;
    while k < m
        invariant
            m == best@.len(),
            k <= m,
            wf_scores(best@),
            domain.spec_name() == old(domain).spec_name(),
            domain.spec_aa34() == old(domain).spec_aa34(),
            domain.stach_view() == old(domain).stach_view(),
            base == (if old(domain).has_category(PredictionCategory::Stachelhaus) {
                old(domain).category_list(PredictionCategory::Stachelhaus).to_multiset()
            } else {
                Multiset::<Prediction>::empty()
            }),
            k == 0 ==> *domain == *old(domain),
            k > 0 ==> {
                &&& domain.has_category(PredictionCategory::Stachelhaus)
                &&& domain.category_list(PredictionCategory::Stachelhaus).to_multiset()
                    == base.add(best@.take(k as int).to_multiset())
                &&& sorted_desc(domain.category_list(PredictionCategory::Stachelhaus))
            },
            forall|c: PredictionCategory|
                c != PredictionCategory::Stachelhaus ==> #[trigger] domain.has_category(c) == old(
                    domain,
                ).has_category(c),
            forall|c: PredictionCategory|
                c != PredictionCategory::Stachelhaus && old(domain).has_category(c)
                    ==> #[trigger] domain.category_list(c) == old(domain).category_list(c),
        decreases m - k,
    {
        broadcast use vstd::seq_lib::group_to_multiset_ensures;
        broadcast use vstd::multiset::group_multiset_axioms;

        let ghost cat_before = if domain.has_category(PredictionCategory::Stachelhaus) {
            domain.category_list(PredictionCategory::Stachelhaus).to_multiset()
        } else {
            Multiset::<Prediction>::empty()
        };
        let p = best[k].clone();
        domain.add(PredictionCategory::Stachelhaus, p);
        proof {
            assert(best@.take(k as int + 1) =~= best@.take(k as int).push(best@[k as int]));
            if k == 0 {
                assert(best@.take(0) =~= Seq::<Prediction>::empty());
                assert(Seq::<Prediction>::empty().to_multiset() =~= Multiset::<
                    Prediction,
                >::empty());
                assert(domain.category_list(PredictionCategory::Stachelhaus).to_multiset()
                    =~= base.add(best@.take(1).to_multiset()));
            } else {
                assert(domain.category_list(PredictionCategory::Stachelhaus).to_multiset()
                    =~= base.add(best@.take(k as int + 1).to_multiset()));
            }
        }
        k = k + 1;
    }
    domain.set_stach_predictions(stach);
    proof {
        if tr.len() > 0 {
            assert(m > 0);
            assert(best@.take(m as int) =~= best@);
        } else {
            assert(m == 0);
        }
    }
    Ok(())
}

/// Runs the matcher for every query record, in order; the first record
/// whose full signature is not exactly 34 symbols aborts the run, leaving
/// it and every later record untouched.
pub fn predict(domains: &mut Vec<ADomain>, signatures: Vec<StachelhausSignature>) -> (r: Result<
    (),
    NrpsError,
>)
    requires
        sigs_wf(signatures@),
    ensures
        final(domains)@.len() == old(domains)@.len(),
        (r is Ok) <==> (forall|i: int|
            0 <= i < old(domains)@.len() ==> (#[trigger] old(domains)@[i]).spec_aa34()@.len()
                == 34),
        r is Ok ==> forall|i: int|
            0 <= i < old(domains)@.len() ==> matched_domain(
                #[trigger] old(domains)@[i],
                final(domains)@[i],
                signatures@,
            ),
        r matches Err(e) ==> exists|i: int|
            {
                &&& 0 <= i < old(domains)@.len()
                &&& (#[trigger] old(domains)@[i]).spec_aa34()@.len() != 34
                &&& forall|j: int|
                    0 <= j < i ==> (#[trigger] old(domains)@[j]).spec_aa34()@.len() == 34
                &&& (e matches NrpsError::SignatureError(m) && m@ == old(
                    domains,
                )@[i].spec_aa34()@)
                &&& forall|j: int|
                    0 <= j < i ==> matched_domain(
                        #[trigger] old(domains)@[j],
                        final(domains)@[j],
                        signatures@,
                    )
                &&& forall|j: int|
                    i <= j < old(domains)@.len() ==> final(domains)@[j] == #[trigger] old(
                        domains,
                    )@[j]
            },
{
    let n = domains.len();
    let mut i: usize = 0;
    while i < n
        invariant
            n == domains@.len(),
            n == old(domains)@.len(),
            i <= n,
            sigs_wf(signatures@),
            forall|j: int|
                0 <= j < i ==> (#[trigger] old(domains)@[j]).spec_aa34()@.len() == 34,
            forall|j: int|
                0 <= j < i ==> matched_domain(
                    #[trigger] old(domains)@[j],
                    domains@[j],
                    signatures@,
                ),
            forall|j: int| i <= j < n ==> domains@[j] == #[trigger] old(domains)@[j],
        decreases n - i,
    {
        let ghost before = domains@;
        let mut d = domains.remove(i);
        let res = predict_domain(&mut d, &signatures);
        domains.insert(i, d);
        proof {
            assert(domains@ =~= before.update(i as int, domains@[i as int]));
        }
        match res {
            Ok(()) => {},
            Err(e) => {
                proof {
                    let gi = i as int;
                    assert(old(domains)@[gi].spec_aa34()@.len() != 34);
                    assert(domains@[gi] == old(domains)@[gi]);
                    assert((e matches NrpsError::SignatureError(m) && m@ == old(
                        domains,
                    )@[gi].spec_aa34()@));
                    assert(forall|j: int|
                        gi <= j < old(domains)@.len() ==> domains@[j] == #[trigger] old(
                            domains,
                        )@[j]);
                }
                return Err(e);
            },
        }
        i = i + 1;
    }
    Ok(())
}

} // verus!

