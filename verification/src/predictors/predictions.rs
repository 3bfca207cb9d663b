//! Candidate predictions and the ranked stores that hold them.
//!
//! Scores are exact rationals: every score the matcher produces is a ratio
//! of small integers, and keeping them exact lets the sorting order and the
//! tie-inclusive retrieval rule be stated and proved precisely.

use vstd::prelude::*;
use vstd::multiset::Multiset;
use vstd::seq_lib::to_multiset_insert;

verus! {

/// An exact rational score.  The denominator is always positive, so the
/// usual cross-multiplication comparison is a total order on values.
#[derive(Debug, Clone, Copy, PartialEq)]
pub struct Score {
    num: i64,
    den: i64,
}

impl Score {
    /// Numerator.
    pub closed spec fn num(self) -> int {
        self.num as int
    }

    /// Denominator.
    pub closed spec fn den(self) -> int {
        self.den as int
    }

    /// A score is well formed when its denominator is positive; every
    /// constructor establishes this.
    pub open spec fn wf(self) -> bool {
        self.den() > 0
    }

    /// `a <= b` as rational values.
    pub open spec fn spec_le(a: Score, b: Score) -> bool {
        a.num() * b.den() <= b.num() * a.den()
    }

    /// `a < b` as rational values.
    pub open spec fn spec_lt(a: Score, b: Score) -> bool {
        a.num() * b.den() < b.num() * a.den()
    }

    /// `a == b` as rational values.
    pub open spec fn spec_eq(a: Score, b: Score) -> bool {
        a.num() * b.den() == b.num() * a.den()
    }

    /// The score value with the given parts, for use in specifications.
    pub closed spec fn spec_score(num: int, den: int) -> Score {
        Score { num: num as i64, den: den as i64 }
    }

    /// `spec_score` returns exactly the given parts whenever they fit the
    /// machine words.
    pub proof fn lemma_spec_score(num: int, den: int)
        requires
            i64::MIN <= num <= i64::MAX,
            i64::MIN <= den <= i64::MAX,
        ensures
            Score::spec_score(num, den).num() == num,
            Score::spec_score(num, den).den() == den,
    {
    }

    pub fn new(num: i64, den: i64) -> (r: Score)
        requires
            den > 0,
        ensures
            r.num() == num,
            r.den() == den,
            r.wf(),
            r == Score::spec_score(num as int, den as int),
    {
        Score { num, den }
    }

    pub fn num_val(&self) -> (r: i64)
        ensures
            r == self.num(),
    {
        self.num
    }

    pub fn den_val(&self) -> (r: i64)
        ensures
            r == self.den(),
    {
        self.den
    }

    /// Compares two scores as rational values.
    pub fn le(&self, other: &Score) -> (r: bool)
        ensures
            r == Score::spec_le(*self, *other),
    {
        let a = self.num as i128;
        let b = other.den as i128;
        let c = other.num as i128;
        let d = self.den as i128;
        proof {
            lemma_i64_products_fit(a, b);
            lemma_i64_products_fit(c, d);
        }
        a * b <= c * d
    }

    /// The comparison is total.
    pub proof fn lemma_le_total(a: Score, b: Score)
        ensures
            Score::spec_le(a, b) || Score::spec_le(b, a),
    {
    }

    /// The comparison is transitive on well-formed scores.
    pub proof fn lemma_le_trans(a: Score, b: Score, c: Score)
        requires
            a.wf(),
            b.wf(),
            c.wf(),
            Score::spec_le(a, b),
            Score::spec_le(b, c),
        ensures
            Score::spec_le(a, c),
    {
        assert(Score::spec_le(a, c)) by (nonlinear_arith)
            requires
                a.num() * b.den() <= b.num() * a.den(),
                b.num() * c.den() <= c.num() * b.den(),
                a.den() > 0,
                b.den() > 0,
                c.den() > 0,
        ;
    }
}

/// Products of two `i64`-sized factors stay well inside `i128`.
proof fn lemma_i64_products_fit(a: i128, b: i128)
    requires
        -0x8000_0000_0000_0000 <= a <= 0x7fff_ffff_ffff_ffff,
        -0x8000_0000_0000_0000 <= b <= 0x7fff_ffff_ffff_ffff,
    ensures
        i128::MIN <= a * b <= i128::MAX,
{
    assert(i128::MIN <= a * b <= i128::MAX) by (nonlinear_arith)
        requires
            -0x8000_0000_0000_0000 <= a <= 0x7fff_ffff_ffff_ffff,
            -0x8000_0000_0000_0000 <= b <= 0x7fff_ffff_ffff_ffff,
    ;
}

/// The classification bucket a model belongs to: model generation and
/// cluster granularity, the fungal-specific variant, or the dedicated
/// reference-matcher category.  A pure lookup key.
#[derive(Debug, Clone, Copy, Eq, Hash, PartialEq, Structural)]
pub enum PredictionCategory {
    ThreeClusterV3,
    LargeClusterV3,
    SmallClusterV3,
    SingleV3,
    Stachelhaus,
    ThreeClusterV2,
    ThreeClusterFungalV2,
    LargeClusterV2,
    SmallClusterV2,
    SingleV2,
    LargeClusterV1,
    SmallClusterV1,
}

/// One classifier's or the matcher's vote for one substrate.
#[derive(Debug, PartialEq)]
pub struct Prediction {
    pub name: String,
    pub score: Score,
}

impl Clone for Prediction {
    fn clone(&self) -> (r: Self)
        ensures
            r == *self,
    {
        Prediction { name: self.name.clone(), score: self.score }
    }
}

/// Descending order by score.
pub open spec fn sorted_desc(s: Seq<Prediction>) -> bool {
    forall|i: int, j: int|
        0 <= i <= j < s.len() ==> Score::spec_le(#[trigger] s[j].score, #[trigger] s[i].score)
}

/// Every stored score is well formed.
pub open spec fn wf_scores(s: Seq<Prediction>) -> bool {
    forall|i: int| 0 <= i < s.len() ==> (#[trigger] s[i].score).wf()
}

/// A candidate list kept sorted descending by score after every insertion.
#[derive(Debug, PartialEq)]
pub struct PredictionList {
    predictions: Vec<Prediction>,
}

impl View for PredictionList {
    type V = Seq<Prediction>;

    closed spec fn view(&self) -> Seq<Prediction> {
        self.predictions@
    }
}

impl PredictionList {
    #[verifier::type_invariant]
    spec fn wf(self) -> bool {
        sorted_desc(self.predictions@) && wf_scores(self.predictions@)
    }

    pub fn new() -> (r: Self)
        ensures
            r@ == Seq::<Prediction>::empty(),
    {
        let predictions = Vec::with_capacity(80);
        PredictionList { predictions }
    }

    pub fn len(&self) -> (r: usize)
        ensures
            r == self@.len(),
    {
        self.predictions.len()
    }

    /// Inserts one candidate, keeping the list sorted descending by score.
    pub fn add(&mut self, prediction: Prediction)
        requires
            prediction.score.wf(),
        ensures
            final(self)@.to_multiset() == old(self)@.to_multiset().insert(prediction),
            final(self)@.len() == old(self)@.len() + 1,
            sorted_desc(final(self)@),
            wf_scores(final(self)@),
    {
        proof {
            use_type_invariant(&*self);
        }
        let ghost orig = self.predictions@;
        let mut preds: Vec<Prediction> = Vec::new();
        core::mem::swap(&mut preds, &mut self.predictions);
        let mut pos: usize = 0;
        while pos < preds.len() && prediction.score.le(&preds[pos].score)
            invariant
                preds@ == orig,
                pos <= preds@.len(),
                forall|j: int|
                    0 <= j < pos ==> Score::spec_le(prediction.score, #[trigger] preds@[j].score),
            decreases preds@.len() - pos,
        {
            pos = pos + 1;
        }
        proof {
            to_multiset_insert(orig, pos as int, prediction);
            orig.insert_ensures(pos as int, prediction);
            assert forall|i: int, j: int|
                0 <= i <= j < orig.insert(pos as int, prediction).len() implies Score::spec_le(
                orig.insert(pos as int, prediction)[j].score,
                orig.insert(pos as int, prediction)[i].score,
            ) by {
                let s = orig.insert(pos as int, prediction);
                if pos < orig.len() {
                    Score::lemma_le_total(prediction.score, orig[pos as int].score);
                }
                if i == j {
                } else if j < pos {
                } else if i > pos {
                } else if i == pos && j == pos {
                } else if i == pos {
                    // s[i] is the new element, s[j] is orig[j - 1] with j - 1 >= pos
                    Score::lemma_le_trans(s[j].score, orig[pos as int].score, prediction.score);
                } else if j == pos {
                    // s[j] is the new element, s[i] is orig[i] with i < pos
                } else {
                    // i < pos < j: orig[j - 1] <= orig[pos] < prediction <= orig[i]
                    Score::lemma_le_trans(s[j].score, orig[pos as int].score, prediction.score);
                    Score::lemma_le_trans(s[j].score, prediction.score, s[i].score);
                }
            }
        }
        preds.insert(pos, prediction);
        self.predictions = preds;
    }

    /// The extent of the tie-inclusive best-`count` prefix: at least
    /// `min(count, len)` entries, extended over every later entry whose
    /// score equals the `count`-th one.
    pub open spec fn best_n_extent(s: Seq<Prediction>, count: int, e: int) -> bool {
        if count <= 0 || s.len() == 0 {
            e == 0
        } else if count >= s.len() {
            e == s.len()
        } else {
            &&& count <= e <= s.len()
            &&& forall|j: int|
                count <= j < e ==> Score::spec_eq(#[trigger] s[j].score, s[count - 1].score)
            &&& e < s.len() ==> Score::spec_lt(s[e].score, s[count - 1].score)
        }
    }

    /// The best `count` entries, extended over ties with the last of them:
    /// every later entry whose score is not strictly below the `count`-th
    /// entry's score is included too.
    pub fn get_best_n(&self, count: usize) -> (r: Vec<Prediction>)
        ensures
            r@ == self@.subrange(0, r@.len() as int),
            Self::best_n_extent(self@, count as int, r@.len() as int),
            sorted_desc(self@),
            wf_scores(self@),
    {
        proof {
            use_type_invariant(self);
        }
        let mut result: Vec<Prediction> = Vec::with_capacity(count);
        let len = self.predictions.len();
        if count == 0 || len == 0 {
            proof {
                assert(result@ =~= self@.subrange(0, 0));
            }
            return result;
        }
        let slice_end = if count < len {
            count
        } else {
            len
        };
        let mut k: usize = 0;
        while k < slice_end
            invariant
                slice_end <= self@.len(),
                k <= slice_end,
                result@ =~= self@.subrange(0, k as int),
            decreases slice_end - k,
        {
            let p = &self.predictions[k];
            result.push(p.clone());
            proof {
                assert(result@ =~= self@.subrange(0, k as int + 1));
            }
            k = k + 1;
        }
        if count >= len {
            return result;
        }
        let mut k: usize = count;
        while k < len
            invariant
                1 <= count <= k <= len,
                len == self@.len(),
                count < len,
                sorted_desc(self@),
                wf_scores(self@),
                result@ =~= self@.subrange(0, k as int),
                forall|j: int|
                    count <= j < k ==> Score::spec_eq(
                        #[trigger] self@[j].score,
                        self@[count - 1].score,
                    ),
            decreases len - k,
        {
            let p = &self.predictions[k];
            let pivot = &self.predictions[count - 1];
            if !pivot.score.le(&p.score) {
                // strictly below the pivot: the tie run has ended
                return result;
            }
            result.push(p.clone());
            proof {
                assert(result@ =~= self@.subrange(0, k as int + 1));
            }
            k = k + 1;
        }
        result
    }

    /// The single best entry, with any entries tied with it.
    pub fn get_best(&self) -> (r: Vec<Prediction>)
        ensures
            r@ == self@.subrange(0, r@.len() as int),
            Self::best_n_extent(self@, 1, r@.len() as int),
            sorted_desc(self@),
            wf_scores(self@),
    {
        self.get_best_n(1)
    }
}

/// The matcher's richer record for one candidate: the substrate name, the
/// similarity of each signature window, and the matched reference windows.
#[derive(Debug, PartialEq)]
pub struct StachPrediction {
    pub name: String,
    pub aa10_score: Score,
    pub aa10_sig: String,
    pub aa34_score: Score,
    pub aa34_sig: String,
}

impl Clone for StachPrediction {
    fn clone(&self) -> (r: Self)
        ensures
            r == *self,
    {
        StachPrediction {
            name: self.name.clone(),
            aa10_score: self.aa10_score,
            aa10_sig: self.aa10_sig.clone(),
            aa34_score: self.aa34_score,
            aa34_sig: self.aa34_sig.clone(),
        }
    }
}

impl StachPrediction {
    /// Both window scores are well formed.
    pub open spec fn wf(self) -> bool {
        self.aa10_score.wf() && self.aa34_score.wf()
    }

    /// Ranking: by primary-window score, ties broken by secondary-window
    /// score.
    pub open spec fn spec_le(a: StachPrediction, b: StachPrediction) -> bool {
        ||| Score::spec_lt(a.aa10_score, b.aa10_score)
        ||| (Score::spec_eq(a.aa10_score, b.aa10_score) && Score::spec_le(
            a.aa34_score,
            b.aa34_score,
        ))
    }

    /// The ranking is total.
    pub proof fn lemma_le_total(a: StachPrediction, b: StachPrediction)
        ensures
            StachPrediction::spec_le(a, b) || StachPrediction::spec_le(b, a),
    {
    }

    /// The ranking is transitive on well-formed records.
    pub proof fn lemma_le_trans(a: StachPrediction, b: StachPrediction, c: StachPrediction)
        requires
            a.wf(),
            b.wf(),
            c.wf(),
            StachPrediction::spec_le(a, b),
            StachPrediction::spec_le(b, c),
        ensures
            StachPrediction::spec_le(a, c),
    {
        let a10 = a.aa10_score;
        let b10 = b.aa10_score;
        let c10 = c.aa10_score;
        Score::lemma_le_trans(a10, b10, c10);
        if Score::spec_eq(a10, b10) && Score::spec_eq(b10, c10) {
            Score::lemma_le_trans(a.aa34_score, b.aa34_score, c.aa34_score);
            Score::lemma_le_trans(c10, b10, a10);
        } else {
            // at least one primary comparison is strict, so the combined
            // comparison is strict too
            if Score::spec_le(c10, a10) {
                Score::lemma_le_trans(b10, c10, a10);
                Score::lemma_le_trans(c10, a10, b10);
                assert(false);
            }
        }
    }

    /// Compares two records in ranking order.
    pub fn le(&self, other: &StachPrediction) -> (r: bool)
        ensures
            r == StachPrediction::spec_le(*self, *other),
    {
        let self_lt = !other.aa10_score.le(&self.aa10_score);
        let eq = self.aa10_score.le(&other.aa10_score) && other.aa10_score.le(&self.aa10_score);
        self_lt || (eq && self.aa34_score.le(&other.aa34_score))
    }
}

/// Descending ranking order.
pub open spec fn stach_sorted_desc(s: Seq<StachPrediction>) -> bool {
    forall|i: int, j: int|
        0 <= i <= j < s.len() ==> StachPrediction::spec_le(#[trigger] s[j], #[trigger] s[i])
}

/// Every stored record is well formed.
pub open spec fn wf_stach(s: Seq<StachPrediction>) -> bool {
    forall|i: int| 0 <= i < s.len() ==> (#[trigger] s[i]).wf()
}

/// The matcher's detail list, kept sorted descending by (primary score,
/// secondary score) after every insertion.
#[derive(Debug, PartialEq)]
pub struct StachPredictionList {
    predictions: Vec<StachPrediction>,
}

impl View for StachPredictionList {
    type V = Seq<StachPrediction>;

    closed spec fn view(&self) -> Seq<StachPrediction> {
        self.predictions@
    }
}

impl StachPredictionList {
    #[verifier::type_invariant]
    spec fn wf(self) -> bool {
        stach_sorted_desc(self.predictions@) && wf_stach(self.predictions@)
    }

    pub fn new() -> (r: Self)
        ensures
            r@ == Seq::<StachPrediction>::empty(),
    {
        let predictions = Vec::with_capacity(5);
        StachPredictionList { predictions }
    }

    pub fn len(&self) -> (r: usize)
        ensures
            r == self@.len(),
    {
        self.predictions.len()
    }

    /// Inserts one record, keeping the list sorted descending in ranking
    /// order.
    pub fn add(&mut self, prediction: StachPrediction)
        requires
            prediction.wf(),
        ensures
            final(self)@.to_multiset() == old(self)@.to_multiset().insert(prediction),
            final(self)@.len() == old(self)@.len() + 1,
            stach_sorted_desc(final(self)@),
            wf_stach(final(self)@),
    {
        proof {
            use_type_invariant(&*self);
        }
        let ghost orig = self.predictions@;
        let mut preds: Vec<StachPrediction> = Vec::new();
        core::mem::swap(&mut preds, &mut self.predictions);
        let mut pos: usize = 0;
        while pos < preds.len() && prediction.le(&preds[pos])
            invariant
                preds@ == orig,
                pos <= preds@.len(),
                forall|j: int|
                    0 <= j < pos ==> StachPrediction::spec_le(prediction, #[trigger] preds@[j]),
            decreases preds@.len() - pos,
        {
            pos = pos + 1;
        }
        proof {
            to_multiset_insert(orig, pos as int, prediction);
            orig.insert_ensures(pos as int, prediction);
            assert forall|i: int, j: int|
                0 <= i <= j < orig.insert(pos as int, prediction).len() implies StachPrediction::spec_le(
                orig.insert(pos as int, prediction)[j],
                orig.insert(pos as int, prediction)[i],
            ) by {
                let s = orig.insert(pos as int, prediction);
                if pos < orig.len() {
                    StachPrediction::lemma_le_total(prediction, orig[pos as int]);
                }
                if i == j {
                } else if j < pos {
                } else if i > pos {
                } else if i == pos && j == pos {
                } else if i == pos {
                    StachPrediction::lemma_le_trans(s[j], orig[pos as int], prediction);
                } else if j == pos {
                } else {
                    StachPrediction::lemma_le_trans(s[j], orig[pos as int], prediction);
                    StachPrediction::lemma_le_trans(s[j], prediction, s[i]);
                }
            }
        }
        preds.insert(pos, prediction);
        self.predictions = preds;
    }

    /// The extent of the tie-inclusive best-`count` prefix.  Ties at the
    /// cutoff are decided by the primary-window score alone.
    pub open spec fn best_n_extent(s: Seq<StachPrediction>, count: int, e: int) -> bool {
        if count <= 0 || s.len() == 0 {
            e == 0
        } else if count >= s.len() {
            e == s.len()
        } else {
            &&& count <= e <= s.len()
            &&& forall|j: int|
                count <= j < e ==> Score::spec_eq(
                    (#[trigger] s[j]).aa10_score,
                    s[count - 1].aa10_score,
                )
            &&& e < s.len() ==> Score::spec_lt(s[e].aa10_score, s[count - 1].aa10_score)
        }
    }

    /// The best `count` records, extended over every later record whose
    /// primary-window score is not strictly below the `count`-th one's.
    pub fn get_best_n(&self, count: usize) -> (r: Vec<StachPrediction>)
        ensures
            r@ == self@.subrange(0, r@.len() as int),
            Self::best_n_extent(self@, count as int, r@.len() as int),
            stach_sorted_desc(self@),
            wf_stach(self@),
    {
        proof {
            use_type_invariant(self);
        }
        let mut result: Vec<StachPrediction> = Vec::with_capacity(count);
        let len = self.predictions.len();
        if count == 0 || len == 0 {
            proof {
                assert(result@ =~= self@.subrange(0, 0));
            }
            return result;
        }
        let slice_end = if count < len {
            count
        } else {
            len
        };
        let mut k: usize = 0;
        while k < slice_end
            invariant
                slice_end <= self@.len(),
                k <= slice_end,
                result@ =~= self@.subrange(0, k as int),
            decreases slice_end - k,
        {
            let p = &self.predictions[k];
            result.push(p.clone());
            proof {
                assert(result@ =~= self@.subrange(0, k as int + 1));
            }
            k = k + 1;
        }
        if count >= len {
            return result;
        }
        let mut k: usize = count;
        while k < len
            invariant
                1 <= count <= k <= len,
                len == self@.len(),
                count < len,
                stach_sorted_desc(self@),
                wf_stach(self@),
                result@ =~= self@.subrange(0, k as int),
                forall|j: int|
                    count <= j < k ==> Score::spec_eq(
                        (#[trigger] self@[j]).aa10_score,
                        self@[count - 1].aa10_score,
                    ),
            decreases len - k,
        {
            let p = &self.predictions[k];
            let pivot = &self.predictions[count - 1];
            if !pivot.aa10_score.le(&p.aa10_score) {
                // strictly below the pivot: the tie run has ended
                return result;
            }
            result.push(p.clone());
            proof {
                assert(result@ =~= self@.subrange(0, k as int + 1));
            }
            k = k + 1;
        }
        result
    }

    /// The single best record, with any records tied with it.
    pub fn get_best(&self) -> (r: Vec<StachPrediction>)
        ensures
            r@ == self@.subrange(0, r@.len() as int),
            Self::best_n_extent(self@, 1, r@.len() as int),
            stach_sorted_desc(self@),
            wf_stach(self@),
    {
        self.get_best_n(1)
    }
}

/// No category appears twice.
pub open spec fn keys_unique(s: Seq<(PredictionCategory, PredictionList)>) -> bool {
    forall|i: int, j: int| 0 <= i < j < s.len() ==> (#[trigger] s[i]).0 != (#[trigger] s[j]).0
}

/// Whether some entry carries `c`.
pub open spec fn has_key(s: Seq<(PredictionCategory, PredictionList)>, c: PredictionCategory) -> bool {
    exists|i: int| 0 <= i < s.len() && (#[trigger] s[i]).0 == c
}

/// The index of the entry carrying `c`.
pub open spec fn key_index(s: Seq<(PredictionCategory, PredictionList)>, c: PredictionCategory) -> int {
    choose|i: int| 0 <= i < s.len() && (#[trigger] s[i]).0 == c
}

proof fn lemma_key_index(
    s: Seq<(PredictionCategory, PredictionList)>,
    c: PredictionCategory,
    i: int,
)
    requires
        keys_unique(s),
        0 <= i < s.len(),
        s[i].0 == c,
    ensures
        has_key(s, c),
        key_index(s, c) == i,
{
    assert(has_key(s, c));
    let j = key_index(s, c);
    assert(0 <= j < s.len() && s[j].0 == c);
}

/// One query record: its identifier, the full 34-symbol signature, the
/// per-category candidate lists, and the matcher's detail records.
#[derive(Debug, PartialEq)]
pub struct ADomain {
    pub name: String,
    pub aa34: String,
    predictions: Vec<(PredictionCategory, PredictionList)>,
    stach_predictions: StachPredictionList,
}

impl ADomain {
    #[verifier::type_invariant]
    spec fn wf(self) -> bool {
        keys_unique(self.predictions@)
    }

    /// Whether any candidate was recorded under `c`.
    pub closed spec fn has_category(self, c: PredictionCategory) -> bool {
        has_key(self.predictions@, c)
    }

    /// The candidate list recorded under `c`.
    pub closed spec fn category_list(self, c: PredictionCategory) -> Seq<Prediction> {
        self.predictions@[key_index(self.predictions@, c)].1@
    }

    /// The matcher's detail records.
    pub closed spec fn stach_view(self) -> Seq<StachPrediction> {
        self.stach_predictions@
    }

    /// The query's identifier.
    pub closed spec fn spec_name(self) -> String {
        self.name
    }

    /// The query's full signature.
    pub closed spec fn spec_aa34(self) -> String {
        self.aa34
    }

    pub fn new(name: String, aa34: String) -> (r: Self)
        ensures
            r.spec_name() == name,
            r.spec_aa34() == aa34,
            forall|c: PredictionCategory| !r.has_category(c),
            r.stach_view() == Seq::<StachPrediction>::empty(),
    {
        ADomain {
            name,
            aa34,
            predictions: Vec::new(),
            stach_predictions: StachPredictionList::new(),
        }
    }

    /// Records one candidate under `category`, creating the category's
    /// list if this is its first candidate.
    pub fn add(&mut self, category: PredictionCategory, prediction: Prediction)
        requires
            prediction.score.wf(),
        ensures
            final(self).spec_name() == old(self).spec_name(),
            final(self).spec_aa34() == old(self).spec_aa34(),
            final(self).stach_view() == old(self).stach_view(),
            final(self).has_category(category),
            final(self).category_list(category).to_multiset() == (if old(self).has_category(
                category,
            ) {
                old(self).category_list(category).to_multiset()
            } else {
                Multiset::<Prediction>::empty()
            }).insert(prediction),
            sorted_desc(final(self).category_list(category)),
            wf_scores(final(self).category_list(category)),
            forall|c: PredictionCategory|
                c != category ==> #[trigger] final(self).has_category(c) == old(self).has_category(
                    c,
                ),
            forall|c: PredictionCategory|
                c != category && old(self).has_category(c)
                    ==> #[trigger] final(self).category_list(c) == old(self).category_list(c),
    {
        proof {
            use_type_invariant(&*self);
        }
        let ghost orig = self.predictions@;
        let mut preds: Vec<(PredictionCategory, PredictionList)> = Vec::new();
        core::mem::swap(&mut preds, &mut self.predictions);
        let n = preds.len();
        let mut i: usize = 0;
        while i < n && preds[i].0 != category
            invariant
                preds@ == orig,
                n == orig.len(),
                i <= n,
                forall|j: int| 0 <= j < i ==> (#[trigger] orig[j]).0 != category,
            decreases n - i,
        {
            i = i + 1;
        }
        if i < n {
            proof {
                lemma_key_index(orig, category, i as int);
            }
            let entry = preds.remove(i);
            let (cat, mut list) = entry;
            list.add(prediction);
            preds.insert(i, (cat, list));
            proof {
                assert(preds@ =~= orig.update(i as int, preds@[i as int]));
                lemma_key_index(preds@, category, i as int);
                assert forall|c: PredictionCategory|
                    c != category && has_key(orig, c) implies #[trigger] has_key(preds@, c)
                    && preds@[key_index(preds@, c)].1@ == orig[key_index(orig, c)].1@ by {
                    let j = key_index(orig, c);
                    lemma_key_index(preds@, c, j);
                }
                assert forall|c: PredictionCategory|
                    c != category && has_key(preds@, c) implies #[trigger] has_key(orig, c) by {
                    let j = key_index(preds@, c);
                    lemma_key_index(orig, c, j);
                }
            }
            self.predictions = preds;
            proof {
                assert forall|c: PredictionCategory|
                    c != category && old(self).has_category(c) implies #[trigger] self.category_list(
                    c,
                ) == old(self).category_list(c) by {
                    let j = key_index(orig, c);
                    lemma_key_index(preds@, c, j);
                }
                assert forall|c: PredictionCategory| c != category implies #[trigger] self.has_category(
                    c,
                ) == old(self).has_category(c) by {
                    if has_key(orig, c) {
                        lemma_key_index(preds@, c, key_index(orig, c));
                    }
                    if has_key(preds@, c) {
                        lemma_key_index(orig, c, key_index(preds@, c));
                    }
                }
            }
        } else {
            let mut plist = PredictionList::new();
            plist.add(prediction);
            let ghost plist_view = plist@;
            preds.push((category, plist));
            proof {
                lemma_key_index(preds@, category, orig.len() as int);
                assert(plist_view.to_multiset() =~= Multiset::<Prediction>::empty().insert(
                    prediction,
                )) by {
                    broadcast use vstd::seq_lib::group_to_multiset_ensures;

                    assert(Seq::<Prediction>::empty().to_multiset() =~= Multiset::<
                        Prediction,
                    >::empty());
                    assert(Seq::<Prediction>::empty().push(prediction).to_multiset()
                        =~= Multiset::<Prediction>::empty().insert(prediction));
                }
                assert forall|c: PredictionCategory|
                    c != category && has_key(orig, c) implies #[trigger] has_key(preds@, c)
                    && preds@[key_index(preds@, c)].1@ == orig[key_index(orig, c)].1@ by {
                    let j = key_index(orig, c);
                    lemma_key_index(preds@, c, j);
                }
                assert forall|c: PredictionCategory|
                    c != category && has_key(preds@, c) implies #[trigger] has_key(orig, c) by {
                    let j = key_index(preds@, c);
                    assert(0 <= j < orig.len());
                    lemma_key_index(orig, c, j);
                }
            }
            self.predictions = preds;
            proof {
                assert forall|c: PredictionCategory|
                    c != category && old(self).has_category(c) implies #[trigger] self.category_list(
                    c,
                ) == old(self).category_list(c) by {
                    let j = key_index(orig, c);
                    lemma_key_index(preds@, c, j);
                }
                assert forall|c: PredictionCategory| c != category implies #[trigger] self.has_category(
                    c,
                ) == old(self).has_category(c) by {
                    if has_key(orig, c) {
                        lemma_key_index(preds@, c, key_index(orig, c));
                    }
                    if has_key(preds@, c) {
                        let j = key_index(preds@, c);
                        assert(preds@[j].0 == c && c != category);
                        assert(j != orig.len());
                        lemma_key_index(orig, c, j);
                    }
                }
            }
        }
    }

    /// The tie-inclusive best `count` candidates under `category`; empty
    /// when the category holds none.
    pub fn get_best_n(&self, category: &PredictionCategory, count: usize) -> (r: Vec<Prediction>)
        ensures
            self.has_category(*category) ==> {
                &&& r@ == self.category_list(*category).subrange(0, r@.len() as int)
                &&& PredictionList::best_n_extent(
                    self.category_list(*category),
                    count as int,
                    r@.len() as int,
                )
                &&& sorted_desc(self.category_list(*category))
            },
            !self.has_category(*category) ==> r@ == Seq::<Prediction>::empty(),
    {
        proof {
            use_type_invariant(self);
        }
        let n = self.predictions.len();
        let mut i: usize = 0;
        while i < n && self.predictions[i].0 != *category
            invariant
                n == self.predictions@.len(),
                i <= n,
                forall|j: int| 0 <= j < i ==> (#[trigger] self.predictions@[j]).0 != *category,
            decreases n - i,
        {
            i = i + 1;
        }
        if i < n {
            proof {
                lemma_key_index(self.predictions@, *category, i as int);
            }
            self.predictions[i].1.get_best_n(count)
        } else {
            proof {
                assert(!has_key(self.predictions@, *category));
            }
            Vec::new()
        }
    }

    /// Every candidate recorded under `category`, best first; empty when
    /// the category holds none.
    pub fn get_all(&self, category: &PredictionCategory) -> (r: Vec<Prediction>)
        ensures
            self.has_category(*category) ==> r@ == self.category_list(*category),
            !self.has_category(*category) ==> r@ == Seq::<Prediction>::empty(),
    {
        proof {
            use_type_invariant(self);
        }
        let n = self.predictions.len();
        let mut i: usize = 0;
        while i < n && self.predictions[i].0 != *category
            invariant
                n == self.predictions@.len(),
                i <= n,
                forall|j: int| 0 <= j < i ==> (#[trigger] self.predictions@[j]).0 != *category,
            decreases n - i,
        {
            i = i + 1;
        }
        if i < n {
            proof {
                lemma_key_index(self.predictions@, *category, i as int);
            }
            let list = &self.predictions[i].1;
            let m = list.len();
            let all = list.get_best_n(m);
            proof {
                assert(all@ =~= self.category_list(*category));
            }
            return all;
        }
        proof {
            assert(!has_key(self.predictions@, *category));
        }
        Vec::new()
    }

    /// The query's full signature.
    pub fn aa34_str(&self) -> (r: &String)
        ensures
            r == self.spec_aa34(),
    {
        &self.aa34
    }

    /// The query's identifier.
    pub fn name_str(&self) -> (r: &String)
        ensures
            r == self.spec_name(),
    {
        &self.name
    }

    /// The matcher's detail records for this query.
    pub fn stach_predictions(&self) -> (r: &StachPredictionList)
        ensures
            r@ == self.stach_view(),
    {
        &self.stach_predictions
    }

    /// Replaces the matcher's detail records.
    pub fn set_stach_predictions(&mut self, predictions: StachPredictionList)
        ensures
            final(self).spec_name() == old(self).spec_name(),
            final(self).spec_aa34() == old(self).spec_aa34(),
            final(self).stach_view() == predictions@,
            forall|c: PredictionCategory|
                #[trigger] final(self).has_category(c) == old(self).has_category(c),
            forall|c: PredictionCategory|
                old(self).has_category(c)
                    ==> #[trigger] final(self).category_list(c) == old(self).category_list(c),
    {
        proof {
            use_type_invariant(&*self);
        }
        self.stach_predictions = predictions;
    }
}

/// The character of one decimal digit.
pub open spec fn digit_char(d: int) -> char {
    "0123456789"@[d]
}

/// The decimal digits of a non-negative number, most significant first.
pub open spec fn dec_digits(n: int) -> Seq<char>
    decreases n,
{
    if n < 10 {
        seq![digit_char(n)]
    } else {
        dec_digits(n / 10).push(digit_char(n % 10))
    }
}

/// `num / den` in hundredths, rounded half away from zero.
pub open spec fn rounded_hundredths(num: int, den: int) -> int {
    (200 * num + den) / (2 * den)
}

/// A non-negative score printed with two decimal places.
pub open spec fn spec_format_two_dp(num: int, den: int) -> Seq<char> {
    let h = rounded_hundredths(num, den);
    dec_digits(h / 100) + seq!['.'] + seq![digit_char((h % 100) / 10), digit_char(h % 10)]
}

fn digits_string(n: u128) -> (r: String)
    ensures
        r@ == dec_digits(n as int),
    decreases n,
{
    proof {
        reveal_strlit("0123456789");
    }
    if n < 10 {
        let d = n as usize;
        "0123456789".substring_char(d, d + 1).to_owned()
    } else {
        let mut s = digits_string(n / 10);
        let d = (n % 10) as usize;
        s.append("0123456789".substring_char(d, d + 1));
        proof {
            assert(s@ =~= dec_digits(n as int));
        }
        s
    }
}

/// Prints a non-negative score with two decimal places, rounding half
/// away from zero.
pub fn format_two_dp(score: &Score) -> (r: String)
    requires
        score.wf(),
        score.num() >= 0,
    ensures
        r@ == spec_format_two_dp(score.num(), score.den()),
{
    let num = score.num_val() as i128;
    let den = score.den_val() as i128;
    let h = (200 * num + den) / (2 * den);
    proof {
        assert(h >= 0) by (nonlinear_arith)
            requires
                num >= 0,
                den > 0,
                h == (200 * num + den) / (2 * den),
        ;
    }
    let mut out = digits_string((h / 100) as u128);
    proof {
        reveal_strlit(".");
        reveal_strlit("0123456789");
    }
    out.append(".");
    let d1 = ((h % 100) / 10) as usize;
    let d2 = (h % 10) as usize;
    out.append("0123456789".substring_char(d1, d1 + 1));
    out.append("0123456789".substring_char(d2, d2 + 1));
    proof {
        assert(out@ =~= spec_format_two_dp(score.num(), score.den()));
    }
    out
}

/// Pieces joined by a bar.
pub open spec fn join_bar(parts: Seq<Seq<char>>) -> Seq<char>
    decreases parts.len(),
{
    if parts.len() == 0 {
        Seq::empty()
    } else if parts.len() == 1 {
        parts[0]
    } else {
        parts[0] + seq!['|'] + join_bar(parts.skip(1))
    }
}

proof fn lemma_join_bar_push(parts: Seq<Seq<char>>, x: Seq<char>)
    ensures
        join_bar(parts.push(x)) == if parts.len() == 0 {
            x
        } else {
            join_bar(parts) + seq!['|'] + x
        },
    decreases parts.len(),
{
    if parts.len() == 0 {
        assert(parts.push(x)[0] == x);
        assert(join_bar(parts.push(x)) == x);
    } else {
        lemma_join_bar_push(parts.skip(1), x);
        assert(parts.push(x).skip(1) =~= parts.skip(1).push(x));
        assert(parts.push(x)[0] == parts[0]);
        if parts.len() == 1 {
            assert(join_bar(parts.push(x)) =~= join_bar(parts) + seq!['|'] + x);
        } else {
            assert(join_bar(parts.push(x)) =~= join_bar(parts) + seq!['|'] + x);
        }
    }
}

/// The matcher's detail table for one query: the best records' substrate
/// names, primary-window scores and secondary-window scores, each column
/// bar-joined, the columns tab-separated.
pub open spec fn spec_to_table(best: Seq<StachPrediction>) -> Seq<char> {
    join_bar(best.map_values(|p: StachPrediction| p.name@)) + seq!['\t'] + join_bar(
        best.map_values(
            |p: StachPrediction| spec_format_two_dp(p.aa10_score.num(), p.aa10_score.den()),
        ),
    ) + seq!['\t'] + join_bar(
        best.map_values(
            |p: StachPrediction| spec_format_two_dp(p.aa34_score.num(), p.aa34_score.den()),
        ),
    )
}

impl StachPredictionList {
    /// Renders the best records, ties included, as one report row.
    pub fn to_table(&self) -> (r: String)
        requires
            forall|i: int|
                0 <= i < self@.len() ==> (#[trigger] self@[i]).aa10_score.num() >= 0
                    && self@[i].aa34_score.num() >= 0,
        ensures
            exists|e: int|
                {
                    &&& #[trigger] Self::best_n_extent(self@, 1, e)
                    &&& r@ == spec_to_table(self@.subrange(0, e))
                },
    {
        let best = self.get_best();
        let ghost bestv = best@;
        let n = best.len();
        let mut names = String::new();
        let mut aa10s = String::new();
        let mut aa34s = String::new();
        proof {
            reveal_strlit("|");
            assert(bestv.take(0) =~= Seq::<StachPrediction>::empty());
            assert(bestv.take(0).map_values(|p: StachPrediction| p.name@)
                =~= Seq::<Seq<char>>::empty());
        }
        let mut k: usize = 0;
        while k < n
            invariant
                n == bestv.len(),
                best@ == bestv,
                k <= n,
                forall|i: int|
                    0 <= i < bestv.len() ==> (#[trigger] bestv[i]).aa10_score.num() >= 0
                        && bestv[i].aa34_score.num() >= 0 && bestv[i].aa10_score.wf()
                        && bestv[i].aa34_score.wf(),
                names@ == join_bar(bestv.take(k as int).map_values(|p: StachPrediction| p.name@)),
                aa10s@ == join_bar(
                    bestv.take(k as int).map_values(
                        |p: StachPrediction| spec_format_two_dp(
                            p.aa10_score.num(),
                            p.aa10_score.den(),
                        ),
                    ),
                ),
                aa34s@ == join_bar(
                    bestv.take(k as int).map_values(
                        |p: StachPrediction| spec_format_two_dp(
                            p.aa34_score.num(),
                            p.aa34_score.den(),
                        ),
                    ),
                ),
            decreases n - k,
        {
            proof {
                reveal_strlit("|");
            }
            if k > 0 {
                names.append("|");
                aa10s.append("|");
                aa34s.append("|");
            }
            let p = &best[k];
            names.append(p.name.as_str());
            let f10 = format_two_dp(&p.aa10_score);
            aa10s.append(f10.as_str());
            let f34 = format_two_dp(&p.aa34_score);
            aa34s.append(f34.as_str());
            proof {
                let names_map = |p: StachPrediction| p.name@;
                let aa10_map = |p: StachPrediction|
                    spec_format_two_dp(p.aa10_score.num(), p.aa10_score.den());
                let aa34_map = |p: StachPrediction|
                    spec_format_two_dp(p.aa34_score.num(), p.aa34_score.den());
                assert(bestv.take(k as int + 1) =~= bestv.take(k as int).push(bestv[k as int]));
                assert(bestv.take(k as int).push(bestv[k as int]).map_values(names_map)
                    =~= bestv.take(k as int).map_values(names_map).push(
                    names_map(bestv[k as int]),
                ));
                assert(bestv.take(k as int).push(bestv[k as int]).map_values(aa10_map)
                    =~= bestv.take(k as int).map_values(aa10_map).push(aa10_map(bestv[k as int])));
                assert(bestv.take(k as int).push(bestv[k as int]).map_values(aa34_map)
                    =~= bestv.take(k as int).map_values(aa34_map).push(aa34_map(bestv[k as int])));
                lemma_join_bar_push(bestv.take(k as int).map_values(names_map), names_map(bestv[k as int]));
                lemma_join_bar_push(bestv.take(k as int).map_values(aa10_map), aa10_map(bestv[k as int]));
                lemma_join_bar_push(bestv.take(k as int).map_values(aa34_map), aa34_map(bestv[k as int]));
                assert(bestv.take(k as int).map_values(names_map).len() == k);
            }
            k = k + 1;
        }
        proof {
            reveal_strlit("\t");
            assert(bestv.take(n as int) =~= bestv);
        }
        let mut table = names;
        table.append("\t");
        table.append(aa10s.as_str());
        table.append("\t");
        table.append(aa34s.as_str());
        proof {
            assert(bestv =~= self@.subrange(0, bestv.len() as int));
            assert(table@ =~= spec_to_table(self@.subrange(0, bestv.len() as int)));
        }
        table
    }
}

/// `sc` is at least the score of every candidate in `ms`.
pub open spec fn is_top_score(ms: Multiset<Prediction>, sc: Score) -> bool {
    forall|q: Prediction| #[trigger] ms.count(q) > 0 ==> Score::spec_le(q.score, sc)
}

/// The candidates of `ms` whose score no other candidate exceeds.
pub open spec fn best_of(ms: Multiset<Prediction>) -> Multiset<Prediction> {
    ms.filter(|p: Prediction| is_top_score(ms, p.score))
}

/// In a sorted well-formed list, the tie-inclusive best-1 prefix holds
/// exactly the top-scored candidates.
pub proof fn lemma_best_prefix(s: Seq<Prediction>, e: int)
    requires
        sorted_desc(s),
        wf_scores(s),
        s.len() > 0,
        1 <= e <= s.len(),
        forall|j: int| 1 <= j < e ==> Score::spec_eq((#[trigger] s[j]).score, s[0].score),
        e < s.len() ==> Score::spec_lt(s[e].score, s[0].score),
    ensures
        s.subrange(0, e).to_multiset() == best_of(s.to_multiset()),
{
    broadcast use vstd::seq_lib::group_to_multiset_ensures;
    broadcast use vstd::multiset::group_multiset_axioms;

    let pre = s.subrange(0, e);
    let suf = s.subrange(e, s.len() as int);
    assert(s =~= pre + suf);
    vstd::seq_lib::lemma_multiset_commutative(pre, suf);
    let ms = s.to_multiset();
    assert(ms.count(s[0]) > 0) by {
        assert(s.contains(s[0]));
    }
    assert forall|q: Prediction| #[trigger] ms.count(q) > 0 implies Score::spec_le(
        q.score,
        s[0].score,
    ) && q.score.wf() by {
        assert(s.contains(q));
        let idx = choose|idx: int| 0 <= idx < s.len() && s[idx] == q;
        assert(Score::spec_le(s[idx].score, s[0].score));
    }
    assert forall|q: Prediction| #[trigger] pre.to_multiset().count(q) > 0 implies is_top_score(
        ms,
        q.score,
    ) by {
        assert(pre.contains(q));
        let idx = choose|idx: int| 0 <= idx < pre.len() && pre[idx] == q;
        assert(Score::spec_eq(q.score, s[0].score) || q == s[0]);
        assert forall|r: Prediction| #[trigger] ms.count(r) > 0 implies Score::spec_le(
            r.score,
            q.score,
        ) by {
            Score::lemma_le_trans(r.score, s[0].score, q.score);
        }
    }
    assert forall|q: Prediction| #[trigger] suf.to_multiset().count(q) > 0 implies !is_top_score(
        ms,
        q.score,
    ) by {
        assert(suf.contains(q));
        let idx = choose|idx: int| 0 <= idx < suf.len() && suf[idx] == q;
        assert(suf[idx] == s[e + idx]);
        assert(Score::spec_le(s[e + idx].score, s[e].score));
        if Score::spec_le(s[0].score, q.score) {
            Score::lemma_le_trans(s[0].score, q.score, s[e].score);
            assert(false);
        }
        assert(!Score::spec_le(s[0].score, q.score));
    }
    assert forall|q: Prediction| #[trigger] best_of(ms).count(q) == pre.to_multiset().count(
        q,
    ) by {
        if pre.to_multiset().count(q) > 0 {
            assert(is_top_score(ms, q.score));
            assert(suf.to_multiset().count(q) == 0);
            assert(ms.count(q) == pre.to_multiset().count(q));
        } else {
            if suf.to_multiset().count(q) > 0 {
                assert(!is_top_score(ms, q.score));
            }
        }
    }
    assert(pre.to_multiset() =~= best_of(ms));
}

} // verus!
