use aah_cv::best_matcher::{best_score, select_best, BestMatcher, BestMatcherResult, NEAR_CERTAIN};
use aah_cv::error::MatchError;
use aah_cv::image::Image;
use aah_cv::matching::{
    ccoeff, ccorr, compose_ccoeff, compose_ccoeff_normed, match_template, normalize, pearson_score,
    template_sums, SCORE_SCALE,
};
use aah_cv::method::MatchTemplateMethod;
use aah_cv::rect::Rect;
use aah_cv::sample::{add_samples, div_sample, isqrt, mul_samples, narrow, sqrt_sample, sub_samples};
use aah_cv::search::{find_extremes, find_matches, Match};
use aah_cv::session::{Dispatch, TemplateMatcher, Upload};

fn image(rows: &[Vec<i64>]) -> Image {
    let height = rows.len() as u32;
    let width = rows[0].len() as u32;
    let mut values: Vec<i64> = Vec::new();
    for row in rows {
        values.extend(row.iter().copied());
    }
    Image::from_values(&values, width, height).unwrap()
}

fn rows_of(image: &Image) -> Vec<Vec<Option<i64>>> {
    let width = image.width() as usize;
    image.data().chunks(width).map(|row| row.to_vec()).collect()
}

fn defined(rows: &[Vec<i64>]) -> Vec<Vec<Option<i64>>> {
    rows.iter().map(|row| row.iter().map(|v| Some(*v)).collect()).collect()
}

fn frame() -> Image {
    image(&[
        vec![0, 12, 11, 20, 16, 22],
        vec![13, 5, 7, 19, 18, 4],
        vec![3, 21, 3, 18, 20, 9],
        vec![16, 14, 22, 17, 22, 14],
        vec![6, 7, 18, 16, 1, 19],
    ])
}

fn template() -> Image {
    image(&[vec![18, 20], vec![17, 22]])
}

#[test]
fn test_template_match() {
    let res = match_template(&frame(), &template(), MatchTemplateMethod::CCOEFF_NORMED).unwrap();
    let extremes = find_extremes(&res);
    assert_eq!(extremes.max_value, 1_000_000);
    assert_eq!(extremes.max_value_location, (3, 2));
    assert_eq!(extremes.min_value, -792_064);
    assert_eq!(extremes.min_value_location, (4, 1));
}

#[test]
fn sum_of_absolute_errors_grid() {
    let res = match_template(&frame(), &template(), MatchTemplateMethod::SumOfAbsoluteErrors).unwrap();
    assert_eq!((res.width(), res.height()), (5, 4));
    assert_eq!(
        rows_of(&res),
        defined(&[
            vec![47, 42, 20, 12, 23],
            vec![35, 49, 30, 6, 32],
            vec![25, 23, 27, 0, 26],
            vec![34, 20, 14, 25, 29],
        ])
    );
}

#[test]
fn sum_of_squared_errors_grid() {
    let res = match_template(&frame(), &template(), MatchTemplateMethod::SumOfSquaredErrors).unwrap();
    assert_eq!(
        rows_of(&res),
        defined(&[
            vec![693, 486, 158, 40, 333],
            vec![447, 715, 334, 10, 434],
            vec![291, 307, 279, 0, 214],
            vec![386, 136, 62, 447, 317],
        ])
    );
}

#[test]
fn cross_correlation_grid() {
    let expected = defined(&[
        vec![571, 675, 1135, 1399, 1122],
        vec![847, 653, 953, 1448, 942],
        vec![1054, 1160, 1162, 1497, 1222],
        vec![824, 1207, 1394, 1040, 1111],
    ]);
    let res = match_template(&frame(), &template(), MatchTemplateMethod::CrossCorrelation).unwrap();
    assert_eq!(rows_of(&res), expected);
    assert_eq!(rows_of(&ccorr(&frame(), &template()).unwrap()), expected);
}

#[test]
fn ccoeff_grid_is_scaled_by_the_template_area() {
    let res = ccoeff(&frame(), &template(), false).unwrap();
    assert_eq!(
        rows_of(&res),
        defined(&[
            vec![-26, 5, 151, -25, -132],
            vec![154, -160, 193, 17, -159],
            vec![58, 20, 28, 59, -117],
            vec![-15, 131, -45, -152, 132],
        ])
    );
    let by_method = match_template(&frame(), &template(), MatchTemplateMethod::CCOEFF).unwrap();
    assert_eq!(rows_of(&by_method), rows_of(&res));
}

#[test]
fn ccoeff_is_the_sum_of_centred_products() {
    let frame_rows: Vec<Vec<i64>> = vec![
        vec![0, 12, 11, 20, 16, 22],
        vec![13, 5, 7, 19, 18, 4],
        vec![3, 21, 3, 18, 20, 9],
        vec![16, 14, 22, 17, 22, 14],
        vec![6, 7, 18, 16, 1, 19],
    ];
    let template_rows: Vec<Vec<i64>> = vec![vec![18, 20], vec![17, 22]];
    let res = aah_cv::ccoeff(&frame(), &template(), false).unwrap();
    let n = 4i64;
    let template_sum: i64 = template_rows.iter().flatten().sum();
    for y in 0..4usize {
        for x in 0..5usize {
            let mut patch_sum = 0i64;
            for j in 0..2 {
                for i in 0..2 {
                    patch_sum += frame_rows[y + j][x + i];
                }
            }
            let mut centred = 0i64;
            for j in 0..2 {
                for i in 0..2 {
                    centred += (n * frame_rows[y + j][x + i] - patch_sum)
                        * (n * template_rows[j][i] - template_sum);
                }
            }
            assert_eq!(res.get(x as u32, y as u32), Ok(Some(centred / n)));
            assert_eq!(centred % n, 0);
        }
    }
}

#[test]
fn ccoeff_normed_grid() {
    let res = ccoeff(&frame(), &template(), true).unwrap();
    assert_eq!(
        rows_of(&res),
        defined(&[
            vec![-159212, 56873, 901995, -550148, -640444],
            vec![703585, -736459, 909638, 667308, -792064],
            vec![287044, 85844, 126989, 1000000, -744136],
            vec![-112935, 769669, -643054, -630841, 534943],
        ])
    );
}

#[test]
fn composition_from_given_correlations() {
    let mask = template().constant_like(Some(1));
    let raw = ccorr(&frame(), &template()).unwrap();
    let sums = ccorr(&frame(), &mask).unwrap();
    let squares = frame().mul(&frame()).unwrap();
    let square_sums = ccorr(&squares, &mask).unwrap();
    assert_eq!(template_sums(&template()), (Some(4), Some(77), Some(59)));
    assert_eq!(sums.get(3, 2), Ok(Some(18 + 20 + 17 + 22)));
    let composed = compose_ccoeff(&raw, &sums, &template()).unwrap();
    assert_eq!(composed.data(), ccoeff(&frame(), &template(), false).unwrap().data());
    assert_eq!(composed.get(3, 2), Ok(Some(4 * 1497 - 77 * 77)));
    let normed = compose_ccoeff_normed(&raw, &sums, &square_sums, &template()).unwrap();
    assert_eq!(normed.data(), ccoeff(&frame(), &template(), true).unwrap().data());
    assert_eq!(
        compose_ccoeff(&raw, &frame(), &template()).err(),
        Some(MatchError::DimensionMismatch)
    );
    assert_eq!(
        compose_ccoeff_normed(&raw, &sums, &frame(), &template()).err(),
        Some(MatchError::DimensionMismatch)
    );
}

#[test]
fn normalized_scores_stay_within_one() {
    let res = ccoeff(&frame(), &template(), true).unwrap();
    for cell in res.data() {
        let v = cell.unwrap();
        assert!((-SCORE_SCALE..=SCORE_SCALE).contains(&v));
    }
}

#[test]
fn flat_patch_has_no_normalized_score() {
    let flat = image(&[vec![5, 5, 5], vec![5, 5, 5], vec![5, 5, 9]]);
    let res = ccoeff(&flat, &template(), true).unwrap();
    assert_eq!(res.data()[0], None);
    assert!(res.data()[3].is_some());
    let flat_template = image(&[vec![4, 4], vec![4, 4]]);
    let res = ccoeff(&frame(), &flat_template, true).unwrap();
    assert!(res.data().iter().all(|cell| cell.is_none()));
    let extremes = find_extremes(&res);
    assert_eq!(extremes.max_value, i64::MIN);
    assert_eq!(extremes.max_value_location, (0, 0));
    assert!(find_matches(&res, 2, 2, 10).is_empty());
}

#[test]
fn self_match_with_an_error_method_is_zero_at_the_origin() {
    for method in [MatchTemplateMethod::SumOfAbsoluteErrors, MatchTemplateMethod::SumOfSquaredErrors] {
        let res = match_template(&frame(), &frame(), method).unwrap();
        assert_eq!((res.width(), res.height()), (1, 1));
        let extremes = find_extremes(&res);
        assert_eq!(extremes.min_value, 0);
        assert_eq!(extremes.min_value_location, (0, 0));
    }
}

#[test]
fn self_match_with_the_normalized_method_is_one_at_the_origin() {
    let res = match_template(&frame(), &frame(), MatchTemplateMethod::CCOEFF_NORMED).unwrap();
    assert_eq!(res.data(), &vec![Some(SCORE_SCALE)]);
    let extremes = find_extremes(&res);
    assert_eq!(extremes.max_value, 1_000_000);
    assert_eq!(extremes.max_value_location, (0, 0));
}

#[test]
fn template_larger_than_frame_is_refused() {
    let small = image(&[vec![1, 2]]);
    for method in [
        MatchTemplateMethod::SumOfAbsoluteErrors,
        MatchTemplateMethod::SumOfSquaredErrors,
        MatchTemplateMethod::CrossCorrelation,
        MatchTemplateMethod::CCOEFF,
        MatchTemplateMethod::CCOEFF_NORMED,
    ] {
        let r = match_template(&small, &template(), method);
        assert_eq!(r.err(), Some(MatchError::DimensionMismatch));
    }
    let empty = Image::new(Vec::new(), 0, 0).unwrap();
    assert_eq!(ccorr(&frame(), &empty).err(), Some(MatchError::DimensionMismatch));
}

#[test]
fn undefined_frame_cell_makes_the_covering_scores_undefined() {
    let mut cells: Vec<Option<i64>> = (0..9).map(Some).collect();
    cells[0] = None;
    let holed = Image::new(cells, 3, 3).unwrap();
    let t = image(&[vec![1, 1], vec![1, 1]]);
    let res = ccorr(&holed, &t).unwrap();
    assert_eq!(res.data(), &vec![None, Some(1 + 2 + 4 + 5), Some(3 + 4 + 6 + 7), Some(4 + 5 + 7 + 8)]);
}

#[test]
fn score_that_does_not_fit_is_undefined() {
    let big = image(&[vec![i64::MAX, i64::MAX]]);
    let t = image(&[vec![1, 1]]);
    assert_eq!(ccorr(&big, &t).unwrap().data(), &vec![None]);
    let t = image(&[vec![1, 0]]);
    assert_eq!(ccorr(&big, &t).unwrap().data(), &vec![Some(i64::MAX)]);
    let low = image(&[vec![i64::MIN, 0]]);
    let high = image(&[vec![i64::MAX, 0]]);
    let r = match_template(&low, &high, MatchTemplateMethod::SumOfAbsoluteErrors).unwrap();
    assert_eq!(r.data(), &vec![None]);
    let r = match_template(&low, &high, MatchTemplateMethod::SumOfSquaredErrors).unwrap();
    assert_eq!(r.data(), &vec![None]);
}

#[test]
fn sample_arithmetic() {
    assert_eq!(add_samples(Some(2), Some(3)), Some(5));
    assert_eq!(add_samples(Some(i64::MAX), Some(1)), None);
    assert_eq!(add_samples(None, Some(1)), None);
    assert_eq!(sub_samples(Some(2), Some(3)), Some(-1));
    assert_eq!(sub_samples(Some(i64::MIN), Some(1)), None);
    assert_eq!(mul_samples(Some(-4), Some(6)), Some(-24));
    assert_eq!(mul_samples(Some(i64::MAX), Some(2)), None);
    assert_eq!(mul_samples(Some(3), None), None);
    assert_eq!(div_sample(Some(7), 2), Some(3));
    assert_eq!(div_sample(Some(-7), 2), Some(-3));
    assert_eq!(div_sample(Some(7), -2), Some(-3));
    assert_eq!(div_sample(Some(7), 0), None);
    assert_eq!(div_sample(Some(i64::MIN), -1), None);
    assert_eq!(sqrt_sample(Some(10)), Some(3));
    assert_eq!(sqrt_sample(Some(16)), Some(4));
    assert_eq!(sqrt_sample(Some(-1)), None);
    assert_eq!(sqrt_sample(None), None);
    assert_eq!(isqrt(0), 0);
    assert_eq!(isqrt(u128::MAX), u64::MAX);
    assert_eq!(narrow(i64::MAX as i128 + 1), None);
    assert_eq!(narrow(-5), Some(-5));
}

#[test]
fn pearson_score_in_fixed_point() {
    assert_eq!(pearson_score(Some(3), Some(4), Some(9)), Some(500_000));
    assert_eq!(pearson_score(Some(-3), Some(4), Some(9)), Some(-500_000));
    assert_eq!(pearson_score(Some(59), Some(59), Some(59)), Some(1_000_000));
    assert_eq!(pearson_score(Some(1), Some(0), Some(9)), None);
    assert_eq!(pearson_score(Some(1), Some(9), Some(-1)), None);
    assert_eq!(pearson_score(None, Some(4), Some(9)), None);
    assert_eq!(pearson_score(Some(1), Some(2), Some(5)), Some(316_227));
    assert_eq!(pearson_score(Some(5), Some(4), Some(7)), Some(944_911));
    assert_eq!(pearson_score(Some(-5), Some(7), Some(4)), Some(-944_911));
    assert_eq!(pearson_score(Some(i64::MAX), Some(i64::MAX), Some(i64::MAX)), Some(1_000_000));
    assert_eq!(pearson_score(Some(i64::MIN + 1), Some(i64::MAX), Some(i64::MAX)), Some(-1_000_000));
    assert_eq!(pearson_score(Some(i64::MAX), Some(1), Some(1)), None);
}

#[test]
fn normalize_divides_cell_by_cell() {
    let numerators = image(&[vec![3, -3], vec![0, 6]]);
    let energies = image(&[vec![4, 4], vec![4, 0]]);
    let res = normalize(&numerators, &energies, Some(9)).unwrap();
    assert_eq!(res.data(), &vec![Some(500_000), Some(-500_000), Some(0), None]);
    let other = image(&[vec![1, 2, 3]]);
    assert_eq!(normalize(&numerators, &other, Some(9)).err(), Some(MatchError::DimensionMismatch));
}

#[test]
fn image_algebra() {
    let a = image(&[vec![1, 2], vec![3, 4]]);
    let b = image(&[vec![10, 20], vec![30, 40]]);
    assert_eq!(a.add(&b).unwrap().data(), &vec![Some(11), Some(22), Some(33), Some(44)]);
    assert_eq!(b.sub(&a).unwrap().data(), &vec![Some(9), Some(18), Some(27), Some(36)]);
    assert_eq!(a.mul(&b).unwrap().data(), &vec![Some(10), Some(40), Some(90), Some(160)]);
    assert_eq!(a.scale(Some(-3)).data(), &vec![Some(-3), Some(-6), Some(-9), Some(-12)]);
    assert_eq!(a.scale(None).data(), &vec![None, None, None, None]);
    assert_eq!(b.div(20).data(), &vec![Some(0), Some(1), Some(1), Some(2)]);
    assert_eq!(b.div(0).data(), &vec![None, None, None, None]);
    assert_eq!(b.sqrt().data(), &vec![Some(3), Some(4), Some(5), Some(6)]);
    assert_eq!(a.constant_like(Some(7)).data(), &vec![Some(7); 4]);
    let sum = a.add(&b).unwrap();
    assert_eq!((sum.width(), sum.height()), (2, 2));
}

#[test]
fn image_algebra_refuses_mismatched_sizes() {
    let a = image(&[vec![1, 2], vec![3, 4]]);
    let wide = image(&[vec![1, 2, 3, 4]]);
    assert_eq!(a.add(&wide).err(), Some(MatchError::DimensionMismatch));
    assert_eq!(a.sub(&wide).err(), Some(MatchError::DimensionMismatch));
    assert_eq!(a.mul(&wide).err(), Some(MatchError::DimensionMismatch));
}

#[test]
fn image_construction() {
    assert_eq!(Image::new(vec![Some(1); 5], 2, 3).err(), Some(MatchError::DimensionMismatch));
    assert_eq!(Image::from_values(&vec![1, 2, 3], 2, 2).err(), Some(MatchError::DimensionMismatch));
    assert_eq!(Image::filled(u32::MAX, 2, Some(0)).err(), Some(MatchError::OutOfBounds));
    let img = Image::filled(3, 2, Some(4)).unwrap();
    assert_eq!(img.data(), &vec![Some(4); 6]);
    let img = image(&[vec![1, 2, 3], vec![4, 5, 6]]);
    assert_eq!(img.get(2, 1), Ok(Some(6)));
    assert_eq!(img.get(0, 1), Ok(Some(4)));
    assert_eq!(img.get(3, 0), Err(MatchError::OutOfBounds));
    assert_eq!(img.get(0, 2), Err(MatchError::OutOfBounds));
}

#[test]
fn extremes_keep_the_first_cell_on_ties() {
    let grid = image(&[vec![5, 1, 9], vec![1, 9, 5]]);
    let extremes = find_extremes(&grid);
    assert_eq!(extremes.min_value, 1);
    assert_eq!(extremes.min_value_location, (1, 0));
    assert_eq!(extremes.max_value, 9);
    assert_eq!(extremes.max_value_location, (2, 0));
}

#[test]
fn extremes_pass_over_undefined_cells() {
    let grid = Image::new(vec![None, Some(4), None, Some(-2)], 2, 2).unwrap();
    let extremes = find_extremes(&grid);
    assert_eq!(extremes.min_value, -2);
    assert_eq!(extremes.min_value_location, (1, 1));
    assert_eq!(extremes.max_value, 4);
    assert_eq!(extremes.max_value_location, (1, 0));
    let empty = Image::new(Vec::new(), 0, 0).unwrap();
    let extremes = find_extremes(&empty);
    assert_eq!(extremes.min_value, i64::MAX);
    assert_eq!(extremes.max_value, i64::MIN);
    assert_eq!(extremes.min_value_location, (0, 0));
}

fn score_grid(width: usize, height: usize, low: &[(usize, usize, i64)]) -> Image {
    let mut values = vec![100i64; width * height];
    for (x, y, v) in low {
        values[y * width + x] = *v;
    }
    Image::from_values(&values, width as u32, height as u32).unwrap()
}

#[test]
fn well_separated_instances_each_give_one_match() {
    let grid = score_grid(10, 10, &[(1, 1, 5), (7, 1, 3), (4, 6, 1)]);
    let matches = find_matches(&grid, 3, 3, 50);
    assert_eq!(
        matches,
        vec![
            Match { location: (1, 1), value: 5 },
            Match { location: (7, 1), value: 3 },
            Match { location: (4, 6), value: 1 },
        ]
    );
}

#[test]
fn overlapping_instances_give_one_match_with_the_better_score() {
    let grid = score_grid(10, 10, &[(2, 2, 5), (3, 3, 4)]);
    assert_eq!(find_matches(&grid, 3, 3, 50), vec![Match { location: (3, 3), value: 4 }]);
    let grid = score_grid(10, 10, &[(2, 2, 4), (3, 3, 5)]);
    assert_eq!(find_matches(&grid, 3, 3, 50), vec![Match { location: (2, 2), value: 4 }]);
    let grid = score_grid(10, 10, &[(2, 2, 4), (3, 3, 4)]);
    assert_eq!(find_matches(&grid, 3, 3, 50), vec![Match { location: (2, 2), value: 4 }]);
}

#[test]
fn each_group_of_accepted_cells_gives_one_match_with_its_lowest_score() {
    let grid = score_grid(12, 6, &[(1, 1, 5), (2, 1, 3), (2, 2, 4), (8, 1, 7), (9, 2, 2)]);
    assert_eq!(
        find_matches(&grid, 3, 3, 50),
        vec![Match { location: (2, 1), value: 3 }, Match { location: (9, 2), value: 2 }]
    );
}

#[test]
fn matches_at_the_edge_of_the_footprint_stay_apart() {
    let grid = score_grid(10, 4, &[(2, 1, 5), (5, 1, 4), (7, 1, 3)]);
    assert_eq!(
        find_matches(&grid, 3, 3, 50),
        vec![Match { location: (2, 1), value: 5 }, Match { location: (7, 1), value: 3 }]
    );
    assert!(find_matches(&grid, 3, 3, 3).is_empty());
    assert_eq!(find_matches(&grid, 3, 3, 4), vec![Match { location: (7, 1), value: 3 }]);
}

#[test]
fn match_and_extremes_as_rectangles() {
    let m = Match { location: (3, 2), value: 0 };
    assert_eq!(Rect::of_match(&m, 2, 2), Rect { x: 3, y: 2, width: 2, height: 2 });
    let res = match_template(&frame(), &template(), MatchTemplateMethod::SumOfSquaredErrors).unwrap();
    let extremes = find_extremes(&res);
    let method = MatchTemplateMethod::SumOfSquaredErrors;
    assert!(method.prefers_minimum());
    assert!(!MatchTemplateMethod::CCOEFF_NORMED.prefers_minimum());
    assert_eq!(Rect::of_best(&extremes, true, 2, 2), Rect { x: 3, y: 2, width: 2, height: 2 });
    assert_eq!(Rect::of_best(&extremes, false, 2, 2), Rect { x: 1, y: 1, width: 2, height: 2 });
    let moved = Rect { x: 3, y: 2, width: 2, height: 2 }.offset(10, 810);
    assert_eq!(moved, Rect { x: 13, y: 812, width: 2, height: 2 });
    let pinned = Rect { x: u32::MAX, y: 2, width: 2, height: 2 }.offset(1, 0);
    assert_eq!(pinned.x, u32::MAX);
}

fn candidates() -> Vec<Image> {
    vec![
        image(&[vec![0, 3, 6, 9], vec![5, 9, 2, 6], vec![10, 4, 9, 3], vec![4, 10, 5, 0]]),
        image(&[vec![0, 7, 1, 8], vec![2, 10, 7, 6], vec![4, 0, 0, 4], vec![6, 3, 6, 2]]),
        image(&[vec![0, 1, 2, 3], vec![3, 9, 15, 4], vec![12, 6, 0, 11], vec![10, 9, 8, 7]]),
    ]
}

#[test]
fn classifier_returns_the_candidate_the_template_was_cut_from() {
    let crop = image(&[vec![10, 7], vec![0, 0]]);
    let all = candidates();
    assert_eq!(best_score(&all[0], &crop), Some(676_494));
    assert_eq!(best_score(&all[1], &crop), Some(1_000_000));
    assert_eq!(best_score(&all[2], &crop), Some(712_314));
    let matcher = BestMatcher::new(all);
    let result = matcher.classify(&crop).unwrap();
    assert_eq!(result.index, 1);
    assert_eq!(result.score, Some(1_000_000));
    assert!(result.score >= Some(NEAR_CERTAIN));
    assert_eq!(result.evaluated, 2);
    assert_eq!(matcher.match_with(&crop), Ok(1));
}

#[test]
fn classifier_without_candidates_is_refused() {
    let matcher = BestMatcher::new(Vec::new());
    assert_eq!(matcher.classify(&template()).err(), Some(MatchError::NoCandidates));
    assert_eq!(matcher.match_with(&template()), Err(MatchError::NoCandidates));
    assert_eq!(select_best(&Vec::new()), Err(MatchError::NoCandidates));
}

#[test]
fn classifier_passes_over_candidates_smaller_than_the_template() {
    let small = image(&[vec![1]]);
    let mut all = vec![small];
    all.extend(candidates());
    assert_eq!(best_score(&all[0], &template()), None);
    let crop = image(&[vec![10, 7], vec![0, 0]]);
    let matcher = BestMatcher::new(all);
    let result = matcher.classify(&crop).unwrap();
    assert_eq!(result, BestMatcherResult { index: 2, score: Some(1_000_000), evaluated: 3 });
}

#[test]
fn selection_keeps_the_first_of_equal_scores() {
    let scores = vec![Some(100), Some(700), None, Some(700), Some(300)];
    assert_eq!(
        select_best(&scores),
        Ok(BestMatcherResult { index: 1, score: Some(700), evaluated: 5 })
    );
    let scores = vec![Some(989_999), Some(990_000), Some(1_000_000)];
    assert_eq!(
        select_best(&scores),
        Ok(BestMatcherResult { index: 1, score: Some(990_000), evaluated: 2 })
    );
    let state = BestMatcherResult::start();
    assert!(!state.is_certain());
    assert_eq!(state.score, None);
    let state = state.observe(Some(995_000));
    assert!(state.is_certain());
    assert_eq!(state.observe(Some(999_000)), state);
}

#[test]
fn selection_takes_the_highest_of_negative_scores() {
    let scores = vec![Some(-500_000), Some(-100_000)];
    assert_eq!(
        select_best(&scores),
        Ok(BestMatcherResult { index: 1, score: Some(-100_000), evaluated: 2 })
    );
    let scores = vec![Some(-5), None, Some(0), Some(-5)];
    assert_eq!(select_best(&scores), Ok(BestMatcherResult { index: 2, score: Some(0), evaluated: 4 }));
    let scores = vec![Some(i64::MIN), Some(i64::MIN)];
    assert_eq!(
        select_best(&scores),
        Ok(BestMatcherResult { index: 0, score: Some(i64::MIN), evaluated: 2 })
    );
}

#[test]
fn selection_never_answers_with_a_candidate_that_was_passed_over() {
    let scores = vec![None, Some(-500_000)];
    assert_eq!(
        select_best(&scores),
        Ok(BestMatcherResult { index: 1, score: Some(-500_000), evaluated: 2 })
    );
    let scores = vec![None, None, None];
    assert_eq!(select_best(&scores), Ok(BestMatcherResult { index: 0, score: None, evaluated: 3 }));
    let small = image(&[vec![1]]);
    let anti = image(&[vec![9, 1], vec![1, 9]]);
    let pattern = image(&[vec![1, 9], vec![9, 1]]);
    let flat = image(&[vec![4, 4], vec![4, 4]]);
    assert_eq!(best_score(&small, &pattern), None);
    assert_eq!(best_score(&anti, &pattern), Some(-1_000_000));
    assert_eq!(best_score(&anti, &flat), None);
    let matcher = BestMatcher::new(vec![small, anti]);
    assert_eq!(
        matcher.classify(&pattern),
        Ok(BestMatcherResult { index: 1, score: Some(-1_000_000), evaluated: 2 })
    );
    assert_eq!(matcher.match_with(&pattern), Ok(1));
}

#[test]
fn score_is_the_coefficient_to_one_unit_of_the_scale() {
    let frame = image(&[vec![0, 0, 1]]);
    let pattern = image(&[vec![1, 2, 4]]);
    let res = ccoeff(&frame, &pattern, true).unwrap();
    assert_eq!(res.data(), &vec![Some(944_911)]);
    let frame = image(&[vec![0, 0, 10]]);
    let pattern = image(&[vec![10, 20, 40]]);
    let res = ccoeff(&frame, &pattern, true).unwrap();
    assert_eq!(res.data(), &vec![Some(944_911)]);
}

#[test]
fn classifier_is_not_ended_by_a_score_short_of_near_certain() {
    let a = image(&[vec![0, 0, 1]]);
    let b = image(&[vec![1, 2, 4]]);
    let c = image(&[vec![4, 2, 1]]);
    let pattern = image(&[vec![1, 2, 4]]);
    assert_eq!(best_score(&a, &pattern), Some(944_911));
    let matcher = BestMatcher::new(vec![a, b, c]);
    assert_eq!(
        matcher.classify(&pattern),
        Ok(BestMatcherResult { index: 1, score: Some(1_000_000), evaluated: 2 })
    );
    assert_eq!(matcher.match_with(&pattern), Ok(1));
}

#[test]
fn session_reuses_buffers_for_equal_sizes() {
    let mut matcher = TemplateMatcher::new();
    assert_eq!(matcher.pending_result(), None);
    let first = matcher
        .match_template((1920, 1080), (64, 48), MatchTemplateMethod::SumOfSquaredErrors)
        .unwrap();
    assert_eq!(
        first,
        Dispatch {
            discard_pending: false,
            compile: Some(MatchTemplateMethod::SumOfSquaredErrors),
            input: Upload::Create,
            template: Upload::Create,
            rebuild_outputs: true,
            result_size: (1857, 1033),
            result_bytes: 1857 * 1033 * 4,
            workgroups: (117, 65, 1),
        }
    );
    assert_eq!(first.created(), 4);
    assert_eq!(matcher.pending_result(), Some((1857, 1033)));
    let second = matcher
        .match_template((1920, 1080), (64, 48), MatchTemplateMethod::SumOfSquaredErrors)
        .unwrap();
    assert_eq!(
        second,
        Dispatch {
            discard_pending: true,
            compile: None,
            input: Upload::Overwrite,
            template: Upload::Overwrite,
            rebuild_outputs: false,
            result_size: (1857, 1033),
            result_bytes: 1857 * 1033 * 4,
            workgroups: (117, 65, 1),
        }
    );
}

#[test]
fn session_reallocates_once_when_the_template_size_changes() {
    let mut matcher = TemplateMatcher::new();
    matcher.match_template((100, 80), (10, 10), MatchTemplateMethod::CrossCorrelation).unwrap();
    let changed =
        matcher.match_template((100, 80), (12, 10), MatchTemplateMethod::CrossCorrelation).unwrap();
    assert_eq!(changed.input, Upload::Overwrite);
    assert_eq!(changed.template, Upload::Create);
    assert!(changed.rebuild_outputs);
    assert_eq!(changed.created(), 3);
    assert_eq!(changed.compile, None);
    assert_eq!(changed.result_size, (89, 71));
    assert_eq!(changed.workgroups, (6, 5, 1));
    let again =
        matcher.match_template((100, 80), (12, 10), MatchTemplateMethod::SumOfAbsoluteErrors).unwrap();
    assert_eq!(again.input, Upload::Overwrite);
    assert_eq!(again.template, Upload::Overwrite);
    assert!(!again.rebuild_outputs);
    assert_eq!(again.created(), 0);
    assert_eq!(again.compile, Some(MatchTemplateMethod::SumOfAbsoluteErrors));
}

#[test]
fn session_refuses_what_it_cannot_dispatch() {
    let mut matcher = TemplateMatcher::new();
    for method in [MatchTemplateMethod::CCOEFF, MatchTemplateMethod::CCOEFF_NORMED] {
        assert_eq!(
            matcher.match_template((10, 10), (2, 2), method),
            Err(MatchError::UnsupportedMethod)
        );
        assert_eq!(method.entry_point(), Err(MatchError::UnsupportedMethod));
    }
    assert_eq!(
        matcher.match_template((10, 10), (11, 2), MatchTemplateMethod::CrossCorrelation),
        Err(MatchError::DimensionMismatch)
    );
    assert_eq!(
        matcher.match_template((10, 10), (0, 2), MatchTemplateMethod::CrossCorrelation),
        Err(MatchError::DimensionMismatch)
    );
    assert_eq!(
        matcher.match_template((u32::MAX, u32::MAX), (1, 1), MatchTemplateMethod::CrossCorrelation),
        Err(MatchError::OutOfBounds)
    );
    assert_eq!(matcher.pending_result(), None);
    assert_eq!(MatchTemplateMethod::SumOfAbsoluteErrors.entry_point(), Ok("main_sae"));
    assert_eq!(MatchTemplateMethod::SumOfSquaredErrors.entry_point(), Ok("main_sse"));
    assert_eq!(MatchTemplateMethod::CrossCorrelation.entry_point(), Ok("main_cc"));
}

#[test]
fn session_hands_out_the_collected_grid() {
    let mut matcher = TemplateMatcher::new();
    assert!(matcher.wait_for_result(Some(vec![Some(1)])).is_none());
    matcher.match_template((3, 2), (2, 2), MatchTemplateMethod::CrossCorrelation).unwrap();
    let grid = matcher.wait_for_result(Some(vec![Some(7), Some(9)])).unwrap();
    assert_eq!((grid.width(), grid.height()), (2, 1));
    assert_eq!(grid.data(), &vec![Some(7), Some(9)]);
    assert_eq!(matcher.pending_result(), None);
    assert!(matcher.wait_for_result(Some(vec![Some(7), Some(9)])).is_none());
}

#[test]
fn failed_readback_yields_no_grid() {
    let mut matcher = TemplateMatcher::new();
    matcher.match_template((3, 2), (2, 2), MatchTemplateMethod::CrossCorrelation).unwrap();
    assert!(matcher.wait_for_result(None).is_none());
    assert_eq!(matcher.pending_result(), None);
    matcher.match_template((3, 2), (2, 2), MatchTemplateMethod::CrossCorrelation).unwrap();
    assert!(matcher.wait_for_result(Some(vec![Some(7)])).is_none());
    assert_eq!(matcher.pending_result(), None);
    matcher.match_template((3, 2), (2, 2), MatchTemplateMethod::CrossCorrelation).unwrap();
    assert!(matcher.wait_for_result(Some(vec![Some(7), Some(9), Some(1)])).is_none());
    assert_eq!(matcher.pending_result(), None);
}
