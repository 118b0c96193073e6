//! Choosing, among candidate images, the one that a template matches best.
//!
//! Each candidate is scored by the largest normalized correlation that the
//! template reaches anywhere on it. Candidates are looked at in order; the
//! first to reach a score holds it against later ones that only equal it,
//! and a candidate that reaches a near-certain score ends the search.

use vstd::prelude::*;
use crate::error::MatchError;
use crate::grid::flatten;
use vstd::arithmetic::div_mod::lemma_fundamental_div_mod_converse;
use crate::coefficient::lemma_normed_score_in_range;
use crate::identity::{is_crop, lemma_crop_scores_one};
use crate::image::{Image, ImageView, lemma_cell_index};
use crate::matching::{SCORE_SCALE, fits_inside, method_rows, match_template, template_energy};
use crate::sample::value;
use crate::search::lemma_cell_location;
use crate::method::MatchTemplateMethod;
use crate::sample::Sample;
use crate::search::{Extremes, flat};

verus! {

/// The score from which on a match counts as near-certain: 0.99 on the
/// fixed-point scale of normalized scores.
pub const NEAR_CERTAIN: i64 = 990_000;

/// Where a classification stands: the best candidate so far, its score,
/// and how many candidates were looked at.
#[derive(Clone, Copy, Debug, PartialEq, Eq)]
pub struct BestMatcherResult {
    /// The index of the best candidate so far, and 0 while no candidate
    /// could be scored.
    pub index: usize,
    /// The score of that candidate, and `None` while no candidate could be
    /// scored.
    pub score: Option<i64>,
    /// The number of candidates looked at.
    pub evaluated: usize,
}

impl BestMatcherResult {
    /// Whether the best score is near-certain, so that no further candidate
    /// is looked at.
    pub open spec fn certain(self) -> bool {
        self.score is Some && self.score->Some_0 >= NEAR_CERTAIN
    }

    /// Whether a candidate with the score `v` takes the lead: it is the
    /// first to be scored, or scores strictly higher than the best so far.
    pub open spec fn leads(self, v: i64) -> bool {
        self.score is None || v > self.score->Some_0
    }

    /// The state after a candidate with the score `score` has been looked
    /// at; `None` stands for a candidate that could not be scored, and
    /// never takes the lead. Once the best score is near-certain, nothing
    /// changes any more.
    pub open spec fn step(self, score: Option<i64>) -> BestMatcherResult {
        if self.certain() {
            self
        } else if score is Some && self.leads(score->Some_0) {
            BestMatcherResult {
                index: self.evaluated,
                score,
                evaluated: (self.evaluated + 1) as usize,
            }
        } else {
            BestMatcherResult { evaluated: (self.evaluated + 1) as usize, ..self }
        }
    }

    /// The state before any candidate has been looked at.
    pub fn start() -> (r: BestMatcherResult)
        ensures
            r == select(Seq::<Option<i64>>::empty(), 0),
    {
        BestMatcherResult { index: 0, score: None, evaluated: 0 }
    }

    /// Whether the search is over.
    pub fn is_certain(&self) -> (r: bool)
        ensures
            r == self.certain(),
    {
        match self.score {
            Some(best) => best >= NEAR_CERTAIN,
            None => false,
        }
    }

    /// Takes in the score of the next candidate.
    pub fn observe(self, score: Option<i64>) -> (r: BestMatcherResult)
        requires
            self.evaluated < usize::MAX,
        ensures
            r == self.step(score),
    {
        if self.is_certain() {
            return self;
        }
        let leads = match (score, self.score) {
            (Some(v), Some(best)) => v > best,
            (Some(_), None) => true,
            (None, _) => false,
        };
        if leads {
            BestMatcherResult { index: self.evaluated, score, evaluated: self.evaluated + 1 }
        } else {
            BestMatcherResult {
                index: self.index,
                score: self.score,
                evaluated: self.evaluated + 1,
            }
        }
    }
}

/// The state after the first `k` of the candidates' scores have been taken
/// in, in order. Before any candidate could be scored there is no best
/// score, and the index is 0.
pub open spec fn select(scores: Seq<Option<i64>>, k: int) -> BestMatcherResult
    decreases k,
{
    if k <= 0 {
        BestMatcherResult { index: 0, score: None, evaluated: 0 }
    } else {
        select(scores, k - 1).step(scores[k - 1])
    }
}

/// The largest defined value among the first `k` cells, and `i64::MIN`
/// where none is defined.
pub open spec fn seq_max(data: Seq<Sample>, k: int) -> i64
    decreases k,
{
    if k <= 0 {
        i64::MIN
    } else {
        let rest = seq_max(data, k - 1);
        match data[k - 1] {
            Some(v) => if v > rest {
                v
            } else {
                rest
            },
            None => rest,
        }
    }
}

/// Whether some cell is defined.
pub open spec fn has_defined(data: Seq<Sample>) -> bool {
    exists|j: int| 0 <= j < data.len() && (#[trigger] data[j]) is Some
}

/// The score of a candidate against a template: the largest normalized
/// correlation that the template reaches on it. There is none where the
/// template has no cells or does not lie inside the candidate, and none
/// where the score is undefined at every offset.
pub open spec fn candidate_score(candidate: ImageView, template: ImageView) -> Option<i64> {
    if fits_inside(template, candidate) {
        let rows = method_rows(MatchTemplateMethod::CCOEFF_NORMED, candidate, template);
        let width = candidate.width - template.width + 1;
        let data = flatten(rows, width);
        if has_defined(data) {
            Some(seq_max(data, data.len() as int))
        } else {
            None
        }
    } else {
        None
    }
}

/// `seq_max` bounds every defined cell and, unless it is `i64::MIN`, is the
/// value of one.
pub proof fn lemma_seq_max(data: Seq<Sample>, k: int)
    requires
        0 <= k <= data.len(),
    ensures
        forall|j: int| 0 <= j < k && data[j] is Some ==> (#[trigger] data[j])->Some_0 <= seq_max(data, k),
        seq_max(data, k) > i64::MIN ==> exists|j: int|
            0 <= j < k && #[trigger] data[j] == Some(seq_max(data, k)),
    decreases k,
{
    if k > 0 {
        lemma_seq_max(data, k - 1);
        let rest = seq_max(data, k - 1);
        if seq_max(data, k) > i64::MIN {
            if data[k - 1] is Some && data[k - 1]->Some_0 > rest {
                assert(data[k - 1] == Some(seq_max(data, k)));
            } else {
                let j = choose|j: int| 0 <= j < k - 1 && #[trigger] data[j] == Some(rest);
                assert(data[j] == Some(seq_max(data, k)));
            }
        }
    }
}

/// Whether `e` holds the extremes of a grid of plain numbers `width`
/// wide: its smallest and its largest value, each with the column and row
/// of the first cell, row by row, that holds it.
pub open spec fn is_plain_extremes(e: Extremes, cells: Seq<i64>, width: nat) -> bool {
    let at_min = flat(e.min_value_location, width);
    let at_max = flat(e.max_value_location, width);
    &&& forall|j: int| 0 <= j < cells.len() ==> e.min_value <= #[trigger] cells[j] <= e.max_value
    &&& 0 <= at_min < cells.len() && cells[at_min] == e.min_value
    &&& forall|j: int| 0 <= j < at_min ==> #[trigger] cells[j] != e.min_value
    &&& 0 <= at_max < cells.len() && cells[at_max] == e.max_value
    &&& forall|j: int| 0 <= j < at_max ==> #[trigger] cells[j] != e.max_value
    &&& e.min_value_location.0 < width
    &&& e.max_value_location.0 < width
}

/// `imageproc::template_matching::find_extremes`, on the image that
/// `image::ImageBuffer::from_raw` makes of `cells`: the smallest and the
/// largest pixel, each with the column and row of the first pixel, row by
/// row, that holds it. It panics on an image without pixels, which the
/// precondition rules out.
#[verifier::external_body]
fn image_extremes(cells: Vec<i64>, width: u32, height: u32) -> (r: Extremes)
    requires
        width > 0,
        height > 0,
        cells@.len() == width * height,
    ensures
        is_plain_extremes(r, cells@, width as nat),
{
    let buffer =
        image::ImageBuffer::<image::Luma<i64>, Vec<i64>>::from_raw(width, height, cells).unwrap();
    let found = imageproc::template_matching::find_extremes(&buffer);
    Extremes {
        max_value: found.max_value,
        min_value: found.min_value,
        max_value_location: found.max_value_location,
        min_value_location: found.min_value_location,
    }
}

/// The number that stands for a cell where the largest is looked for: its
/// value, and `i64::MIN` for an undefined cell.
pub open spec fn floor_value(cell: Sample) -> i64 {
    match cell {
        Some(v) => v,
        None => i64::MIN,
    }
}

/// The largest of the numbers that stand for the cells is `seq_max`.
pub proof fn lemma_plain_maximum(data: Seq<Sample>, plain: Seq<i64>, m: i64, k: int)
    requires
        plain.len() == data.len(),
        forall|j: int| 0 <= j < data.len() ==> #[trigger] plain[j] == floor_value(data[j]),
        forall|j: int| 0 <= j < plain.len() ==> #[trigger] plain[j] <= m,
        0 <= k < plain.len(),
        plain[k] == m,
    ensures
        m == seq_max(data, data.len() as int),
{
    lemma_seq_max(data, data.len() as int);
    let s = seq_max(data, data.len() as int);
    if s > i64::MIN {
        let j = choose|j: int| 0 <= j < data.len() && #[trigger] data[j] == Some(s);
        assert(plain[j] == s);
    }
    if data[k] is Some {
        assert(data[k]->Some_0 <= s);
    }
}

/// The cells of an image are its rows, one after another.
pub proof fn lemma_data_is_flat_rows(v: ImageView)
    requires
        v.wf(),
    ensures
        v.data =~= flatten(v.rows(), v.width as int),
        v.rows().len() * v.width == v.data.len(),
{
    let w = v.width as int;
    let h = v.height as int;
    assert(h * w == w * h) by (nonlinear_arith);
    assert forall|k: int| 0 <= k < v.data.len() implies v.data[k] == flatten(v.rows(), w)[k] by {
        crate::search::lemma_cell_location(k, w, h);
    }
}

/// Scores a candidate against a template.
pub fn best_score(candidate: &Image, template: &Image) -> (r: Option<i64>)
    ensures
        r == candidate_score(candidate@, template@),
{
    match match_template(candidate, template, MatchTemplateMethod::CCOEFF_NORMED) {
        Ok(grid) => {
            let width: u32 = grid.width();
            let height: u32 = grid.height();
            let data = grid.data();
            let n: usize = data.len();
            let mut plain: Vec<i64> = Vec::new();
            let mut any: bool = false;
            let mut i: usize = 0;
            while i < n
                invariant
                    n == data@.len(),
                    i <= n,
                    plain@.len() == i,
                    forall|j: int| 0 <= j < i ==> #[trigger] plain@[j] == floor_value(data@[j]),
                    any <==> has_defined(data@.take(i as int)),
                decreases n - i,
            {
                proof {
                    let before = data@.take(i as int);
                    let after = data@.take(i + 1);
                    assert(forall|j: int| 0 <= j < i ==> before[j] == after[j]);
                    assert(after[i as int] == data@[i as int]);
                    if has_defined(before) {
                        let j = choose|j: int| 0 <= j < before.len() && (#[trigger] before[j]) is Some;
                        assert(after[j] is Some);
                    }
                    if has_defined(after) && data@[i as int] is None {
                        let j = choose|j: int| 0 <= j < after.len() && (#[trigger] after[j]) is Some;
                        assert(before[j] is Some);
                    }
                }
                match data[i] {
                    Some(v) => {
                        plain.push(v);
                        any = true;
                    },
                    None => {
                        plain.push(i64::MIN);
                    },
                }
                i = i + 1;
            }
            proof {
                assert(data@.take(n as int) =~= data@);
                lemma_data_is_flat_rows(grid@);
            }
            if !any {
                return None;
            }
            let ghost cells = plain@;
            let extremes = image_extremes(plain, width, height);
            proof {
                lemma_plain_maximum(
                    grid@.data,
                    cells,
                    extremes.max_value,
                    flat(extremes.max_value_location, width as nat),
                );
            }
            Some(extremes.max_value)
        },
        Err(_) => None,
    }
}

/// Picks the best of the candidates from their scores, taken in order.
/// An empty list is refused.
pub fn select_best(scores: &Vec<Option<i64>>) -> (r: Result<BestMatcherResult, MatchError>)
    ensures
        scores@.len() == 0 ==> r == Err::<BestMatcherResult, MatchError>(MatchError::NoCandidates),
        scores@.len() > 0 ==> r == Ok::<BestMatcherResult, MatchError>(
            select(scores@, scores@.len() as int),
        ),
{
    let n: usize = scores.len();
    if n == 0 {
        return Err(MatchError::NoCandidates);
    }
    let mut state = BestMatcherResult::start();
    let mut i: usize = 0;
    while i < n && !state.is_certain()
        invariant
            n == scores@.len(),
            i <= n,
            state == select(scores@, i as int),
            !state.certain() ==> state.evaluated == i,
            state.evaluated <= i,
        decreases n - i,
    {
        state = state.observe(scores[i]);
        i = i + 1;
    }
    proof {
        lemma_select_stays(scores@, i as int, n as int);
    }
    Ok(state)
}

/// Once the best score is near-certain, further candidates change nothing.
pub proof fn lemma_select_stays(scores: Seq<Option<i64>>, i: int, k: int)
    requires
        0 <= i <= k,
        select(scores, i).certain() || i == k,
    ensures
        select(scores, k) == select(scores, i),
    decreases k - i,
{
    if i < k {
        lemma_select_stays(scores, i, k - 1);
    }
}

/// The best candidate is one of those that could be scored: wherever
/// there is a best score, it is the score of the candidate at the index.
/// Where no candidate could be scored, the index is 0.
pub proof fn lemma_select_index(scores: Seq<Option<i64>>, k: int)
    requires
        0 <= k <= scores.len(),
        k <= usize::MAX,
    ensures
        select(scores, k).evaluated <= k,
        !select(scores, k).certain() ==> select(scores, k).evaluated == k,
        k > 0 ==> select(scores, k).index < k,
        select(scores, k).score is Some ==> select(scores, k).index < select(scores, k).evaluated
            && scores[select(scores, k).index as int] == select(scores, k).score,
        select(scores, k).score is None ==> select(scores, k).index == 0 && forall|j: int|
            0 <= j < k ==> (#[trigger] scores[j]) is None,
    decreases k,
{
    if k > 0 {
        lemma_select_index(scores, k - 1);
    }
}

/// Whether a score stays below the near-certain mark.
pub open spec fn uncertain(score: Option<i64>) -> bool {
    score is None || score->Some_0 < NEAR_CERTAIN
}

/// While no score is near-certain, every candidate is looked at, and the
/// best is the first to hold the highest of the scores, whatever their
/// sign.
pub proof fn lemma_select_without_exit(scores: Seq<Option<i64>>, k: int)
    requires
        0 <= k <= scores.len(),
        k <= usize::MAX,
        forall|j: int| 0 <= j < k ==> uncertain(#[trigger] scores[j]),
    ensures
        !select(scores, k).certain(),
        select(scores, k).evaluated == k,
        forall|j: int|
            0 <= j < k && scores[j] is Some ==> select(scores, k).score is Some && (
            #[trigger] scores[j])->Some_0 <= select(scores, k).score->Some_0,
        select(scores, k).score is Some ==> {
            &&& 0 <= select(scores, k).index < k
            &&& scores[select(scores, k).index as int] == select(scores, k).score
            &&& forall|j: int|
                0 <= j < select(scores, k).index && scores[j] is Some ==> (#[trigger] scores[j])->Some_0
                    < select(scores, k).score->Some_0
        },
        select(scores, k).score is None ==> select(scores, k).index == 0,
    decreases k,
{
    if k > 0 {
        lemma_select_without_exit(scores, k - 1);
        assert(uncertain(scores[k - 1]));
    }
}

/// The first candidate with a near-certain score wins, and no candidate
/// after it is looked at.
pub proof fn lemma_first_certain_wins(scores: Seq<Option<i64>>, b: int)
    requires
        0 <= b < scores.len(),
        scores.len() <= usize::MAX,
        scores[b] is Some,
        scores[b]->Some_0 >= NEAR_CERTAIN,
        forall|j: int| 0 <= j < b ==> uncertain(#[trigger] scores[j]),
    ensures
        select(scores, scores.len() as int) == (BestMatcherResult {
            index: b as usize,
            score: scores[b],
            evaluated: (b + 1) as usize,
        }),
{
    lemma_select_without_exit(scores, b);
    let before = select(scores, b);
    assert(select(scores, b + 1) == before.step(scores[b]));
    lemma_select_stays(scores, b + 1, scores.len() as int);
}

/// A candidate that the template was cut from has the score 1, wherever
/// the template's energy is defined and positive.
pub proof fn lemma_crop_candidate_scores_one(
    candidate: ImageView,
    template: ImageView,
    x: int,
    y: int,
)
    requires
        candidate.wf(),
        template.wf(),
        is_crop(template, candidate, x, y),
        template_energy(template) is Some,
        value(template_energy(template)) > 0,
    ensures
        candidate_score(candidate, template) == Some(SCORE_SCALE),
{
    let rows = method_rows(MatchTemplateMethod::CCOEFF_NORMED, candidate, template);
    let gw = candidate.width - template.width + 1;
    let gh = candidate.height - template.height + 1;
    let data = flatten(rows, gw);
    assert(rows.len() * gw == gw * gh) by (nonlinear_arith)
        requires
            rows.len() == gh,
    ;
    let k = y * gw + x;
    lemma_cell_index(x, y, gw, gh);
    lemma_fundamental_div_mod_converse(k, gw, y, x);
    lemma_crop_scores_one(candidate, template, x, y);
    assert(data[k] == Some(SCORE_SCALE));
    lemma_seq_max(data, data.len() as int);
    let best = seq_max(data, data.len() as int);
    assert(best >= SCORE_SCALE) by {
        assert(data[k] is Some);
    }
    let j = choose|j: int| 0 <= j < data.len() && #[trigger] data[j] == Some(best);
    lemma_cell_location(j, gw, gh);
    lemma_normed_score_in_range(candidate, template, j % gw, j / gw);
}

/// Where the template was cut from one of the candidates and no candidate
/// before it reaches a near-certain score, the classification answers with
/// that candidate and the score 1, and looks at no candidate after it.
pub proof fn lemma_classifier_finds_the_crop(
    matcher: BestMatcher,
    template: ImageView,
    b: int,
    x: int,
    y: int,
)
    requires
        0 <= b < matcher.images@.len(),
        matcher.images@.len() <= usize::MAX,
        matcher.images@[b]@.wf(),
        template.wf(),
        is_crop(template, matcher.images@[b]@, x, y),
        template_energy(template) is Some,
        value(template_energy(template)) > 0,
        forall|j: int|
            0 <= j < b ==> uncertain(#[trigger] candidate_score(matcher.images@[j]@, template)),
    ensures
        select(matcher.scores(template), matcher.images@.len() as int) == (BestMatcherResult {
            index: b as usize,
            score: Some(SCORE_SCALE),
            evaluated: (b + 1) as usize,
        }),
{
    let scores = matcher.scores(template);
    lemma_crop_candidate_scores_one(matcher.images@[b]@, template, x, y);
    assert(scores[b] == Some(SCORE_SCALE));
    assert forall|j: int| 0 <= j < b implies uncertain(#[trigger] scores[j]) by {
        assert(uncertain(candidate_score(matcher.images@[j]@, template)));
    }
    lemma_first_certain_wins(scores, b);
}

/// A set of candidate images that templates are classified against.
pub struct BestMatcher {
    /// The candidates, in the order in which they are looked at.
    pub images: Vec<Image>,
}

impl BestMatcher {
    /// The scores of the candidates against a template, in order.
    pub open spec fn scores(&self, template: ImageView) -> Seq<Option<i64>> {
        Seq::new(self.images@.len(), |i: int| candidate_score(self.images@[i]@, template))
    }

    /// A matcher over the given candidates.
    pub fn new(images: Vec<Image>) -> (r: Self)
        ensures
            r.images == images,
    {
        BestMatcher { images }
    }

    /// Classifies the template: scores the candidates in order, up to the
    /// first that reaches a near-certain score, and reports the best of
    /// those that could be scored. An empty set of candidates is refused; a
    /// candidate that the template does not fit inside is passed over.
    /// Where no candidate at all could be scored, the result holds no score
    /// and the index 0.
    pub fn classify(&self, template: &Image) -> (r: Result<BestMatcherResult, MatchError>)
        ensures
            self.images@.len() == 0 ==> r == Err::<BestMatcherResult, MatchError>(
                MatchError::NoCandidates,
            ),
            self.images@.len() > 0 ==> r == Ok::<BestMatcherResult, MatchError>(
                select(self.scores(template@), self.images@.len() as int),
            ),
    {
        let n: usize = self.images.len();
        if n == 0 {
            return Err(MatchError::NoCandidates);
        }
        let ghost scores = self.scores(template@);
        let mut state = BestMatcherResult::start();
        let mut i: usize = 0;
        while i < n && !state.is_certain()
            invariant
                n == self.images@.len(),
                scores == self.scores(template@),
                i <= n,
                state == select(scores, i as int),
                !state.certain() ==> state.evaluated == i,
                state.evaluated <= i,
            decreases n - i,
        {
            let score = best_score(&self.images[i], template);
            state = state.observe(score);
            i = i + 1;
        }
        proof {
            lemma_select_stays(scores, i as int, n as int);
        }
        Ok(state)
    }

    /// The index of the candidate that the template matches best, and 0
    /// where no candidate could be scored.
    pub fn match_with(&self, template: &Image) -> (r: Result<usize, MatchError>)
        ensures
            self.images@.len() == 0 ==> r == Err::<usize, MatchError>(MatchError::NoCandidates),
            self.images@.len() > 0 ==> r == Ok::<usize, MatchError>(
                select(self.scores(template@), self.images@.len() as int).index,
            ),
    {
        match self.classify(template) {
            Ok(result) => Ok(result.index),
            Err(e) => Err(e),
        }
    }
}

} // verus!
