//! Searching a score grid: its extremes, and every match under a threshold.

use vstd::prelude::*;
use vstd::arithmetic::div_mod::{lemma_fundamental_div_mod, lemma_fundamental_div_mod_converse,
    lemma_mod_bound};
use crate::image::{Image, ImageView};
use crate::sample::Sample;

verus! {

/// The smallest and the largest value of a grid, and where they stand.
/// A location is a column and a row.
#[derive(Clone, Copy, Debug, PartialEq, Eq)]
pub struct Extremes {
    /// The largest value.
    pub max_value: i64,
    /// The smallest value.
    pub min_value: i64,
    /// Column and row of the first cell that holds the largest value.
    pub max_value_location: (u32, u32),
    /// Column and row of the first cell that holds the smallest value.
    pub min_value_location: (u32, u32),
}

/// One accepted detection: the column and row of a cell, and its score.
#[derive(Clone, Copy, Debug, PartialEq, Eq)]
pub struct Match {
    /// Column and row of the cell.
    pub location: (u32, u32),
    /// The score in that cell.
    pub value: i64,
}

/// Cell `k` is the first one, row by row, that holds `v`.
pub open spec fn first_at(data: Seq<Sample>, v: i64, k: int) -> bool {
    &&& 0 <= k < data.len()
    &&& data[k] == Some(v)
    &&& forall|j: int| 0 <= j < k ==> data[j] != Some(v)
}

/// `m` is the smallest defined value of `data` and cell `k` the first one
/// that holds it. Where no defined cell lies below `i64::MAX`, `m` is
/// `i64::MAX` and `k` is 0.
pub open spec fn is_minimum(data: Seq<Sample>, m: i64, k: int) -> bool {
    &&& forall|j: int| 0 <= j < data.len() && data[j] is Some ==> m <= (#[trigger] data[j])->Some_0
    &&& if m < i64::MAX {
        first_at(data, m, k)
    } else {
        k == 0
    }
}

/// `m` is the largest defined value of `data` and cell `k` the first one
/// that holds it. Where no defined cell lies above `i64::MIN`, `m` is
/// `i64::MIN` and `k` is 0.
pub open spec fn is_maximum(data: Seq<Sample>, m: i64, k: int) -> bool {
    &&& forall|j: int| 0 <= j < data.len() && data[j] is Some ==> m >= (#[trigger] data[j])->Some_0
    &&& if m > i64::MIN {
        first_at(data, m, k)
    } else {
        k == 0
    }
}

/// The place of a location in the row-by-row order of a grid `width` wide.
pub open spec fn flat(location: (u32, u32), width: nat) -> int {
    location.1 * width + location.0
}

/// Whether `e` holds the extremes of the image: its smallest and largest
/// defined values, each with the column and row of the first cell, row by
/// row, that holds it. An extreme that no cell gave stands at (0, 0).
pub open spec fn is_extremes(e: Extremes, img: ImageView) -> bool {
    &&& is_minimum(img.data, e.min_value, flat(e.min_value_location, img.width))
    &&& is_maximum(img.data, e.max_value, flat(e.max_value_location, img.width))
    &&& e.min_value < i64::MAX ==> e.min_value_location.0 < img.width && e.min_value_location.1
        < img.height
    &&& e.max_value > i64::MIN ==> e.max_value_location.0 < img.width && e.max_value_location.1
        < img.height
    &&& e.min_value == i64::MAX ==> e.min_value_location == (0u32, 0u32)
    &&& e.max_value == i64::MIN ==> e.max_value_location == (0u32, 0u32)
}

/// Finds the smallest and the largest value of a grid and the first cell,
/// row by row, that holds each. Undefined cells are passed over.
pub fn find_extremes(input: &Image) -> (r: Extremes)
    ensures
        is_extremes(r, input@),
{
    let width: u32 = input.width();
    let height: u32 = input.height();
    let data = input.data();
    let n: usize = data.len();
    let mut min_value: i64 = i64::MAX;
    let mut max_value: i64 = i64::MIN;
    let mut min_location: (u32, u32) = (0, 0);
    let mut max_location: (u32, u32) = (0, 0);
    let mut x: u32 = 0;
    let mut y: u32 = 0;
    let mut k: usize = 0;
    assert(n > 0 ==> width > 0 && height > 0) by (nonlinear_arith)
        requires
            n == width * height,
    ;
    while k < n
        invariant
            n == data@.len(),
            n == width * height,
            k <= n,
            k == y * width + x,
            k < n ==> x < width && y < height,
            is_minimum(data@.take(k as int), min_value, flat(min_location, width as nat)),
            is_maximum(data@.take(k as int), max_value, flat(max_location, width as nat)),
            min_value < i64::MAX ==> min_location.0 < width && min_location.1 < height,
            max_value > i64::MIN ==> max_location.0 < width && max_location.1 < height,
            min_value == i64::MAX ==> min_location == (0u32, 0u32),
            max_value == i64::MIN ==> max_location == (0u32, 0u32),
        decreases n - k,
    {
        let ghost before = data@.take(k as int);
        let ghost after = data@.take(k + 1);
        assert(forall|j: int| 0 <= j < k ==> after[j] == before[j]);
        assert(after[k as int] == data@[k as int]);
        match data[k] {
            Some(v) => {
                if v < min_value {
                    min_value = v;
                    min_location = (x, y);
                }
                if v > max_value {
                    max_value = v;
                    max_location = (x, y);
                }
            },
            None => {},
        }
        proof {
            lemma_next_cell(x as int, y as int, width as int, height as int);
        }
        k = k + 1;
        if x + 1 == width {
            x = 0;
            y = y + 1;
        } else {
            x = x + 1;
        }
    }
    assert(data@.take(n as int) =~= data@);
    Extremes {
        max_value,
        min_value,
        max_value_location: max_location,
        min_value_location: min_location,
    }
}

/// Stepping from cell (`x`, `y`) to the next one in row-by-row order.
pub proof fn lemma_next_cell(x: int, y: int, w: int, h: int)
    requires
        0 <= x < w,
        0 <= y < h,
    ensures
        x + 1 == w ==> (y + 1) * w + 0 == y * w + x + 1,
        x + 1 == w && y + 1 < h ==> y * w + x + 1 < w * h,
        x + 1 == w && y + 1 >= h ==> y * w + x + 1 == w * h,
        x + 1 < w ==> y * w + x + 1 < w * h,
        0 <= y * w + x < w * h,
{
    assert((y + 1) * w == y * w + w) by (nonlinear_arith);
    assert(y * w + w <= w * h) by (nonlinear_arith)
        requires
            y + 1 <= h,
            0 <= w,
            0 <= y,
    ;
    assert(0 <= y * w) by (nonlinear_arith)
        requires
            0 <= y,
            0 <= w,
    ;
    if y + 1 >= h {
        assert(y * w + w == w * h) by (nonlinear_arith)
            requires
                y + 1 == h,
        ;
    }
    if y + 1 < h {
        assert(y * w + w + w <= w * h) by (nonlinear_arith)
            requires
                y + 2 <= h,
                0 <= w,
                0 <= y,
        ;
    }
}

/// Whether the match `m` lies within a template's footprint of the cell
/// (`x`, `y`): less than `tw` columns and less than `th` rows away.
pub open spec fn near(m: Match, x: int, y: int, tw: int, th: int) -> bool {
    &&& -tw < m.location.0 - x < tw
    &&& -th < m.location.1 - y < th
}

/// The index of the last match of `ms` that is near the cell (`x`, `y`), or
/// -1 where none is.
pub open spec fn last_near(ms: Seq<Match>, x: int, y: int, tw: int, th: int) -> int
    decreases ms.len(),
{
    if ms.len() == 0 {
        -1
    } else if near(ms.last(), x, y, tw, th) {
        ms.len() - 1
    } else {
        last_near(ms.drop_last(), x, y, tw, th)
    }
}

/// The matches after an accepted cell has been taken in. A cell near an
/// earlier match is the same detection: it takes that match's place if its
/// score is strictly lower, and is dropped if not. A cell near no match is
/// a new match.
pub open spec fn absorb(ms: Seq<Match>, cell: Match, tw: int, th: int) -> Seq<Match> {
    let i = last_near(ms, cell.location.0 as int, cell.location.1 as int, tw, th);
    if i < 0 {
        ms.push(cell)
    } else if cell.value < ms[i].value {
        ms.update(i, cell)
    } else {
        ms
    }
}

/// Whether cell `k` of the image is accepted: defined and below the
/// threshold.
pub open spec fn accepted(img: ImageView, k: int, threshold: i64) -> bool {
    img.data[k] is Some && img.data[k]->Some_0 < threshold
}

/// Cell `k` of the image as a match.
pub open spec fn cell_match(img: ImageView, k: int) -> Match {
    Match {
        location: ((k % (img.width as int)) as u32, (k / (img.width as int)) as u32),
        value: img.data[k]->Some_0,
    }
}

/// The matches found in the first `k` cells of the image, row by row.
pub open spec fn matches_upto(img: ImageView, k: int, tw: int, th: int, threshold: i64) -> Seq<
    Match,
>
    decreases k,
{
    if k <= 0 {
        Seq::empty()
    } else {
        let found = matches_upto(img, k - 1, tw, th, threshold);
        if accepted(img, k - 1, threshold) {
            absorb(found, cell_match(img, k - 1), tw, th)
        } else {
            found
        }
    }
}

/// The accepted cells among the first `k` of the image, row by row.
pub open spec fn accepted_upto(img: ImageView, k: int, threshold: i64) -> Seq<Match>
    decreases k,
{
    if k <= 0 {
        Seq::empty()
    } else {
        let found = accepted_upto(img, k - 1, threshold);
        if accepted(img, k - 1, threshold) {
            found.push(cell_match(img, k - 1))
        } else {
            found
        }
    }
}

fn is_near(m: &Match, x: u32, y: u32, tw: u32, th: u32) -> (r: bool)
    ensures
        r == near(*m, x as int, y as int, tw as int, th as int),
{
    let dx: i64 = m.location.0 as i64 - x as i64;
    let dy: i64 = m.location.1 as i64 - y as i64;
    -(tw as i64) < dx && dx < tw as i64 && -(th as i64) < dy && dy < th as i64
}

/// The index of the last match that is near the cell (`x`, `y`).
fn find_last_near(ms: &Vec<Match>, x: u32, y: u32, tw: u32, th: u32) -> (r: Option<usize>)
    ensures
        match r {
            Some(i) => i == last_near(ms@, x as int, y as int, tw as int, th as int),
            None => last_near(ms@, x as int, y as int, tw as int, th as int) == -1,
        },
        last_near(ms@, x as int, y as int, tw as int, th as int) < ms@.len(),
{
    let mut i: usize = ms.len();
    assert(ms@.take(i as int) =~= ms@);
    while i > 0
        invariant
            i <= ms@.len(),
            last_near(ms@, x as int, y as int, tw as int, th as int) == last_near(
                ms@.take(i as int),
                x as int,
                y as int,
                tw as int,
                th as int,
            ),
        decreases i,
    {
        assert(ms@.take(i as int).drop_last() =~= ms@.take(i - 1));
        i = i - 1;
        if is_near(&ms[i], x, y, tw, th) {
            return Some(i);
        }
    }
    None
}

/// Finds every detection in a grid of scores where lower is better. A cell
/// is accepted where its score is defined and below `threshold`. Accepted
/// cells are taken row by row; one that lies within the template's
/// footprint of an earlier match is the same detection, and the lower score
/// of the two is kept.
pub fn find_matches(input: &Image, template_width: u32, template_height: u32, threshold: i64) -> (r:
    Vec<Match>)
    ensures
        r@ == matches_upto(
            input@,
            input@.data.len() as int,
            template_width as int,
            template_height as int,
            threshold,
        ),
        forall|i: int| 0 <= i < r@.len() ==> is_detection(input@, #[trigger] r@[i], threshold),
{
    let width: u32 = input.width();
    let height: u32 = input.height();
    let data = input.data();
    let n: usize = data.len();
    let mut matches: Vec<Match> = Vec::new();
    let mut x: u32 = 0;
    let mut y: u32 = 0;
    let mut k: usize = 0;
    assert(n > 0 ==> width > 0 && height > 0) by (nonlinear_arith)
        requires
            n == width * height,
    ;
    while k < n
        invariant
            n == data@.len(),
            data@ == input@.data,
            width == input@.width,
            n == width * height,
            k <= n,
            k == y * width + x,
            k < n ==> x < width && y < height,
            matches@ == matches_upto(
                input@,
                k as int,
                template_width as int,
                template_height as int,
                threshold,
            ),
        decreases n - k,
    {
        proof {
            lemma_next_cell(x as int, y as int, width as int, height as int);
            lemma_fundamental_div_mod_converse(k as int, width as int, y as int, x as int);
        }
        match data[k] {
            Some(v) => {
                if v < threshold {
                    let cell = Match { location: (x, y), value: v };
                    assert(cell == cell_match(input@, k as int));
                    match find_last_near(&matches, x, y, template_width, template_height) {
                        Some(i) => {
                            if v < matches[i].value {
                                matches.set(i, cell);
                            }
                        },
                        None => {
                            matches.push(cell);
                        },
                    }
                }
            },
            None => {},
        }
        k = k + 1;
        if x + 1 == width {
            x = 0;
            y = y + 1;
        } else {
            x = x + 1;
        }
    }
    proof {
        lemma_matches_are_detections(
            input@,
            n as int,
            template_width as int,
            template_height as int,
            threshold,
        );
    }
    matches
}

/// Whether `m` is a detection in the image: it names a cell of the image,
/// holds that cell's score, and the score is below the threshold.
pub open spec fn is_detection(img: ImageView, m: Match, threshold: i64) -> bool {
    &&& m.location.0 < img.width
    &&& m.location.1 < img.height
    &&& img.at(m.location.0 as int, m.location.1 as int) == Some(m.value)
    &&& m.value < threshold
}

/// Column and row of cell `k` of a grid: both lie inside the grid, and lead
/// back to `k`.
pub proof fn lemma_cell_location(k: int, w: int, h: int)
    requires
        0 <= k < w * h,
        0 <= w,
        0 <= h,
    ensures
        0 <= k % w < w,
        0 <= k / w < h,
        (k / w) * w + k % w == k,
{
    assert(w > 0) by (nonlinear_arith)
        requires
            0 <= k < w * h,
            0 <= w,
    ;
    lemma_fundamental_div_mod(k, w);
    lemma_mod_bound(k, w);
    let q = k / w;
    assert(w * q == q * w) by (nonlinear_arith);
    assert(0 <= q < h) by (nonlinear_arith)
        requires
            0 <= k < w * h,
            k == q * w + k % w,
            0 <= k % w < w,
            0 < w,
    ;
}

/// An accepted cell, taken as a match, is a detection.
pub proof fn lemma_cell_is_detection(img: ImageView, k: int, threshold: i64)
    requires
        img.wf(),
        img.width <= u32::MAX,
        img.height <= u32::MAX,
        0 <= k < img.data.len(),
        accepted(img, k, threshold),
    ensures
        is_detection(img, cell_match(img, k), threshold),
        flat(cell_match(img, k).location, img.width) == k,
{
    lemma_cell_location(k, img.width as int, img.height as int);
}

/// `last_near` is -1 or an index into the matches, and then that of a match
/// near the cell.
pub proof fn lemma_last_near_bounds(ms: Seq<Match>, x: int, y: int, tw: int, th: int)
    ensures
        -1 <= last_near(ms, x, y, tw, th) < ms.len(),
        last_near(ms, x, y, tw, th) >= 0 ==> near(ms[last_near(ms, x, y, tw, th)], x, y, tw, th),
    decreases ms.len(),
{
    if ms.len() > 0 && !near(ms.last(), x, y, tw, th) {
        lemma_last_near_bounds(ms.drop_last(), x, y, tw, th);
    }
}

/// Every match that the search reports is a detection: a cell of the grid
/// with its own score, below the threshold.
pub proof fn lemma_matches_are_detections(
    img: ImageView,
    k: int,
    tw: int,
    th: int,
    threshold: i64,
)
    requires
        img.wf(),
        img.width <= u32::MAX,
        img.height <= u32::MAX,
        0 <= k <= img.data.len(),
    ensures
        forall|i: int|
            0 <= i < matches_upto(img, k, tw, th, threshold).len() ==> is_detection(
                img,
                #[trigger] matches_upto(img, k, tw, th, threshold)[i],
                threshold,
            ),
    decreases k,
{
    if k > 0 {
        lemma_matches_are_detections(img, k - 1, tw, th, threshold);
        if accepted(img, k - 1, threshold) {
            lemma_cell_is_detection(img, k - 1, threshold);
            let found = matches_upto(img, k - 1, tw, th, threshold);
            let cell = cell_match(img, k - 1);
            lemma_last_near_bounds(
                found,
                cell.location.0 as int,
                cell.location.1 as int,
                tw,
                th,
            );
            let cur = matches_upto(img, k, tw, th, threshold);
            assert(cur == absorb(found, cell, tw, th));
            assert forall|i: int| 0 <= i < cur.len() implies is_detection(
                img,
                #[trigger] cur[i],
                threshold,
            ) by {
                if i < found.len() && cur[i] != cell {
                    assert(cur[i] == found[i]);
                }
            }
        }
    }
}

/// Where no match of `ms` is near a cell, `last_near` finds none.
pub proof fn lemma_none_near(ms: Seq<Match>, x: int, y: int, tw: int, th: int)
    requires
        forall|i: int| 0 <= i < ms.len() ==> !near(#[trigger] ms[i], x, y, tw, th),
    ensures
        last_near(ms, x, y, tw, th) == -1,
    decreases ms.len(),
{
    if ms.len() > 0 {
        assert(!near(ms[ms.len() - 1], x, y, tw, th));
        lemma_none_near(ms.drop_last(), x, y, tw, th);
    }
}

/// Whether `m` is one of the accepted cells among the first `k`.
pub open spec fn is_accepted_cell(img: ImageView, m: Match, k: int, threshold: i64) -> bool {
    exists|j: int| 0 <= j < k && accepted(img, j, threshold) && m == #[trigger] cell_match(img, j)
}

/// Every entry of `accepted_upto` is an accepted cell among the first `k`.
pub proof fn lemma_accepted_entries(img: ImageView, k: int, threshold: i64)
    requires
        0 <= k <= img.data.len(),
    ensures
        forall|i: int|
            0 <= i < accepted_upto(img, k, threshold).len() ==> is_accepted_cell(
                img,
                #[trigger] accepted_upto(img, k, threshold)[i],
                k,
                threshold,
            ),
    decreases k,
{
    if k > 0 {
        lemma_accepted_entries(img, k - 1, threshold);
        let prev = accepted_upto(img, k - 1, threshold);
        let cur = accepted_upto(img, k, threshold);
        assert forall|i: int| 0 <= i < cur.len() implies is_accepted_cell(
            img,
            #[trigger] cur[i],
            k,
            threshold,
        ) by {
            if i < prev.len() {
                assert(is_accepted_cell(img, prev[i], k - 1, threshold));
                let j = choose|j: int|
                    0 <= j < k - 1 && accepted(img, j, threshold) && prev[i]
                        == #[trigger] cell_match(img, j);
                assert(cur[i] == cell_match(img, j));
            } else {
                assert(cur[i] == cell_match(img, k - 1));
            }
        }
    }
}

/// Whether the accepted cells of the image are well separated: no two of
/// them lie within a template's footprint of each other.
pub open spec fn well_separated(img: ImageView, tw: int, th: int, threshold: i64) -> bool {
    forall|a: int, b: int|
        0 <= a < b < img.data.len() && #[trigger] accepted(img, a, threshold) && #[trigger] accepted(
            img,
            b,
            threshold,
        ) ==> !near(
            cell_match(img, a),
            cell_match(img, b).location.0 as int,
            cell_match(img, b).location.1 as int,
            tw,
            th,
        )
}

/// On a grid whose accepted cells are well separated, the search reports
/// each accepted cell as a match of its own, in row-by-row order: as many
/// matches as there are accepted cells.
pub proof fn lemma_separated_cells_all_match(
    img: ImageView,
    k: int,
    tw: int,
    th: int,
    threshold: i64,
)
    requires
        0 <= k <= img.data.len(),
        well_separated(img, tw, th, threshold),
    ensures
        matches_upto(img, k, tw, th, threshold) == accepted_upto(img, k, threshold),
    decreases k,
{
    if k > 0 {
        lemma_separated_cells_all_match(img, k - 1, tw, th, threshold);
        if accepted(img, k - 1, threshold) {
            let found = accepted_upto(img, k - 1, threshold);
            let cell = cell_match(img, k - 1);
            lemma_accepted_entries(img, k - 1, threshold);
            assert forall|i: int| 0 <= i < found.len() implies !near(
                #[trigger] found[i],
                cell.location.0 as int,
                cell.location.1 as int,
                tw,
                th,
            ) by {
                assert(is_accepted_cell(img, found[i], k - 1, threshold));
                let j = choose|j: int|
                    0 <= j < k - 1 && accepted(img, j, threshold) && found[i]
                        == #[trigger] cell_match(img, j);
                assert(accepted(img, j, threshold) && accepted(img, k - 1, threshold));
            }
            lemma_none_near(found, cell.location.0 as int, cell.location.1 as int, tw, th);
        }
    }
}

/// Cells that are not accepted leave the matches as they are.
pub proof fn lemma_skip_rejected(
    img: ImageView,
    lo: int,
    hi: int,
    tw: int,
    th: int,
    threshold: i64,
)
    requires
        0 <= lo <= hi,
        forall|j: int| lo <= j < hi ==> !accepted(img, j, threshold),
    ensures
        matches_upto(img, hi, tw, th, threshold) == matches_upto(img, lo, tw, th, threshold),
    decreases hi - lo,
{
    if lo < hi {
        lemma_skip_rejected(img, lo, hi - 1, tw, th, threshold);
    }
}

/// On a grid with exactly two accepted cells that lie within a template's
/// footprint of each other, the search reports one match: the later cell
/// where its score is strictly lower, the earlier cell where not.
pub proof fn lemma_overlapping_pair_is_one_match(
    img: ImageView,
    a: int,
    b: int,
    tw: int,
    th: int,
    threshold: i64,
)
    requires
        0 <= a < b < img.data.len(),
        forall|j: int|
            0 <= j < img.data.len() ==> (#[trigger] accepted(img, j, threshold) <==> j == a || j
                == b),
        near(
            cell_match(img, a),
            cell_match(img, b).location.0 as int,
            cell_match(img, b).location.1 as int,
            tw,
            th,
        ),
    ensures
        matches_upto(img, img.data.len() as int, tw, th, threshold) == seq![
            if cell_match(img, b).value < cell_match(img, a).value {
                cell_match(img, b)
            } else {
                cell_match(img, a)
            },
        ],
{
    let n = img.data.len() as int;
    let ca = cell_match(img, a);
    let cb = cell_match(img, b);
    lemma_skip_rejected(img, 0, a, tw, th, threshold);
    assert(matches_upto(img, 0, tw, th, threshold) =~= Seq::<Match>::empty());
    assert(accepted(img, a, threshold));
    assert(matches_upto(img, a + 1, tw, th, threshold) =~= seq![ca]);
    lemma_skip_rejected(img, a + 1, b, tw, th, threshold);
    let one = seq![ca];
    assert(one.last() == ca);
    assert(last_near(one, cb.location.0 as int, cb.location.1 as int, tw, th) == 0);
    assert(accepted(img, b, threshold));
    let merged = matches_upto(img, b + 1, tw, th, threshold);
    assert(merged == absorb(one, cb, tw, th));
    assert(merged =~= seq![
        if cb.value < ca.value {
            cb
        } else {
            ca
        },
    ]);
    lemma_skip_rejected(img, b + 1, n, tw, th, threshold);
}

/// The number of groups that have appeared among the accepted cells of the
/// first `k`, where `group` numbers the groups in the order in which their
/// first cells stand.
pub open spec fn groups_seen(img: ImageView, group: spec_fn(int) -> int, k: int, threshold: i64) -> int
    decreases k,
{
    if k <= 0 {
        0
    } else {
        let seen = groups_seen(img, group, k - 1, threshold);
        if accepted(img, k - 1, threshold) && group(k - 1) == seen {
            seen + 1
        } else {
            seen
        }
    }
}

/// Whether the accepted cells of the image fall into groups that `group`
/// numbers in the order in which their first cells stand, such that two
/// accepted cells lie within a template's footprint of each other exactly
/// where they are of one group: each group is one instance of the
/// template, and the instances are well separated.
pub open spec fn grouped(
    img: ImageView,
    group: spec_fn(int) -> int,
    tw: int,
    th: int,
    threshold: i64,
) -> bool {
    &&& forall|k: int|
        0 <= k < img.data.len() && #[trigger] accepted(img, k, threshold) ==> 0 <= group(k)
            <= groups_seen(img, group, k, threshold)
    &&& forall|a: int, b: int|
        0 <= a < b < img.data.len() && #[trigger] accepted(img, a, threshold) && #[trigger] accepted(
            img,
            b,
            threshold,
        ) ==> (near(
            cell_match(img, a),
            cell_match(img, b).location.0 as int,
            cell_match(img, b).location.1 as int,
            tw,
            th,
        ) <==> group(a) == group(b))
}

/// Whether `m` is a cell of group `g` among the first `k`, and holds the
/// lowest score of the accepted cells of that group among them.
pub open spec fn is_best_of_group(
    img: ImageView,
    group: spec_fn(int) -> int,
    m: Match,
    g: int,
    k: int,
    threshold: i64,
) -> bool {
    &&& exists|c: int|
        0 <= c < k && accepted(img, c, threshold) && group(c) == g && m == #[trigger] cell_match(
            img,
            c,
        )
    &&& forall|c: int|
        0 <= c < k && #[trigger] accepted(img, c, threshold) && group(c) == g ==> m.value
            <= img.data[c]->Some_0
}

/// The number of groups seen does not shrink, and the group of an accepted
/// cell has been seen once the cell has been passed.
pub proof fn lemma_groups_seen(
    img: ImageView,
    group: spec_fn(int) -> int,
    c: int,
    k: int,
    threshold: i64,
)
    requires
        0 <= c < k,
    ensures
        groups_seen(img, group, c, threshold) <= groups_seen(img, group, k, threshold),
        accepted(img, c, threshold) && group(c) <= groups_seen(img, group, c, threshold)
            ==> group(c) < groups_seen(img, group, k, threshold),
    decreases k,
{
    if c < k - 1 {
        lemma_groups_seen(img, group, c, k - 1, threshold);
    }
}

/// Where one match is near a cell and none after it is, `last_near` finds
/// that match.
pub proof fn lemma_last_near_is(ms: Seq<Match>, x: int, y: int, tw: int, th: int, g: int)
    requires
        0 <= g < ms.len(),
        near(ms[g], x, y, tw, th),
        forall|i: int| g < i < ms.len() ==> !near(#[trigger] ms[i], x, y, tw, th),
    ensures
        last_near(ms, x, y, tw, th) == g,
    decreases ms.len(),
{
    if g < ms.len() - 1 {
        assert(!near(ms[ms.len() - 1], x, y, tw, th));
        lemma_last_near_is(ms.drop_last(), x, y, tw, th, g);
    }
}

/// Whether `ms` holds one match for each group that has appeared among the
/// first `k` cells, in the order in which the groups appear: match `i` is
/// the cell that holds the lowest score of group `i`.
pub open spec fn one_per_group(
    img: ImageView,
    group: spec_fn(int) -> int,
    ms: Seq<Match>,
    k: int,
    threshold: i64,
) -> bool {
    &&& ms.len() == groups_seen(img, group, k, threshold)
    &&& forall|i: int|
        0 <= i < ms.len() ==> is_best_of_group(img, group, #[trigger] ms[i], i, k, threshold)
}

/// A cell that is not accepted changes nothing.
pub proof fn lemma_group_step_rejected(
    img: ImageView,
    group: spec_fn(int) -> int,
    ms: Seq<Match>,
    c: int,
    threshold: i64,
)
    requires
        0 <= c,
        one_per_group(img, group, ms, c, threshold),
        !accepted(img, c, threshold),
    ensures
        one_per_group(img, group, ms, c + 1, threshold),
{
    assert forall|i: int| 0 <= i < ms.len() implies is_best_of_group(
        img,
        group,
        #[trigger] ms[i],
        i,
        c + 1,
        threshold,
    ) by {
        assert(is_best_of_group(img, group, ms[i], i, c, threshold));
        let a = choose|a: int|
            0 <= a < c && accepted(img, a, threshold) && group(a) == i && ms[i]
                == #[trigger] cell_match(img, a);
        assert(ms[i] == cell_match(img, a));
    }
}

/// The first cell of a new group becomes a match of its own.
pub proof fn lemma_group_step_new(
    img: ImageView,
    group: spec_fn(int) -> int,
    ms: Seq<Match>,
    c: int,
    threshold: i64,
)
    requires
        0 <= c,
        one_per_group(img, group, ms, c, threshold),
        accepted(img, c, threshold),
        group(c) == groups_seen(img, group, c, threshold),
        forall|d: int|
            0 <= d < c && #[trigger] accepted(img, d, threshold) ==> group(d) < groups_seen(
                img,
                group,
                c,
                threshold,
            ),
    ensures
        one_per_group(img, group, ms.push(cell_match(img, c)), c + 1, threshold),
{
    let cur = ms.push(cell_match(img, c));
    assert forall|i: int| 0 <= i < cur.len() implies is_best_of_group(
        img,
        group,
        #[trigger] cur[i],
        i,
        c + 1,
        threshold,
    ) by {
        if i < ms.len() {
            assert(is_best_of_group(img, group, ms[i], i, c, threshold));
            let a = choose|a: int|
                0 <= a < c && accepted(img, a, threshold) && group(a) == i && ms[i]
                    == #[trigger] cell_match(img, a);
            assert(cur[i] == cell_match(img, a));
        } else {
            assert(cur[i] == cell_match(img, c));
        }
    }
}

/// A further cell of a group that has a match takes the match's place
/// where its score is strictly lower, and is dropped where not.
pub proof fn lemma_group_step_old(
    img: ImageView,
    group: spec_fn(int) -> int,
    ms: Seq<Match>,
    c: int,
    threshold: i64,
)
    requires
        0 <= c,
        one_per_group(img, group, ms, c, threshold),
        accepted(img, c, threshold),
        0 <= group(c) < groups_seen(img, group, c, threshold),
    ensures
        one_per_group(
            img,
            group,
            if cell_match(img, c).value < ms[group(c)].value {
                ms.update(group(c), cell_match(img, c))
            } else {
                ms
            },
            c + 1,
            threshold,
        ),
{
    let g = group(c);
    let cell = cell_match(img, c);
    let cur = if cell.value < ms[g].value {
        ms.update(g, cell)
    } else {
        ms
    };
    assert forall|i: int| 0 <= i < cur.len() implies is_best_of_group(
        img,
        group,
        #[trigger] cur[i],
        i,
        c + 1,
        threshold,
    ) by {
        assert(is_best_of_group(img, group, ms[i], i, c, threshold));
        if i == g && cell.value < ms[g].value {
            assert(cur[i] == cell_match(img, c));
        } else {
            let a = choose|a: int|
                0 <= a < c && accepted(img, a, threshold) && group(a) == i && ms[i]
                    == #[trigger] cell_match(img, a);
            assert(cur[i] == cell_match(img, a));
        }
    }
}

/// The matches near an accepted cell: the match of the cell's group, and no
/// other.
pub proof fn lemma_near_is_same_group(
    img: ImageView,
    group: spec_fn(int) -> int,
    ms: Seq<Match>,
    c: int,
    tw: int,
    th: int,
    threshold: i64,
)
    requires
        0 <= c < img.data.len(),
        grouped(img, group, tw, th, threshold),
        one_per_group(img, group, ms, c, threshold),
        accepted(img, c, threshold),
    ensures
        forall|i: int|
            0 <= i < ms.len() ==> (near(
                #[trigger] ms[i],
                cell_match(img, c).location.0 as int,
                cell_match(img, c).location.1 as int,
                tw,
                th,
            ) <==> i == group(c)),
        0 <= group(c) <= groups_seen(img, group, c, threshold),
        forall|d: int|
            0 <= d < c && #[trigger] accepted(img, d, threshold) ==> group(d) < groups_seen(
                img,
                group,
                c,
                threshold,
            ),
{
    let x = cell_match(img, c).location.0 as int;
    let y = cell_match(img, c).location.1 as int;
    assert forall|i: int| 0 <= i < ms.len() implies (near(#[trigger] ms[i], x, y, tw, th) <==> i
        == group(c)) by {
        assert(is_best_of_group(img, group, ms[i], i, c, threshold));
        let a = choose|a: int|
            0 <= a < c && accepted(img, a, threshold) && group(a) == i && ms[i]
                == #[trigger] cell_match(img, a);
        assert(accepted(img, a, threshold) && accepted(img, c, threshold));
    }
    assert forall|d: int| 0 <= d < c && #[trigger] accepted(img, d, threshold) implies group(d)
        < groups_seen(img, group, c, threshold) by {
        lemma_groups_seen(img, group, d, c, threshold);
    }
}

/// On a grid whose accepted cells fall into well-separated groups, the
/// search reports one match for each group, in the order in which the
/// groups first appear: as many matches as there are groups, and for each
/// group the cell that holds its lowest score.
pub proof fn lemma_one_match_per_group(
    img: ImageView,
    group: spec_fn(int) -> int,
    k: int,
    tw: int,
    th: int,
    threshold: i64,
)
    requires
        0 <= k <= img.data.len(),
        grouped(img, group, tw, th, threshold),
    ensures
        one_per_group(img, group, matches_upto(img, k, tw, th, threshold), k, threshold),
    decreases k,
{
    if k > 0 {
        lemma_one_match_per_group(img, group, k - 1, tw, th, threshold);
        let ms = matches_upto(img, k - 1, tw, th, threshold);
        let c = k - 1;
        if accepted(img, c, threshold) {
            let cell = cell_match(img, c);
            let x = cell.location.0 as int;
            let y = cell.location.1 as int;
            lemma_near_is_same_group(img, group, ms, c, tw, th, threshold);
            if group(c) == groups_seen(img, group, c, threshold) {
                lemma_none_near(ms, x, y, tw, th);
                lemma_group_step_new(img, group, ms, c, threshold);
            } else {
                lemma_last_near_is(ms, x, y, tw, th, group(c));
                lemma_group_step_old(img, group, ms, c, threshold);
            }
        } else {
            lemma_group_step_rejected(img, group, ms, c, threshold);
        }
    }
}

} // verus!
