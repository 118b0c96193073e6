use aah_cv::error::MatchError;
use aah_cv::grid::Grid;
use aah_cv::matching::{ccoeff, ccorr};
use aah_cv::template_matching::{
    find_extremes, integral_arr2, match_template, normalize_correlation, square_sum_arr2f32,
    squared, subsum_from_integral_arrf32, subsum_from_integral_arrf64,
};

fn grid(rows: &[Vec<i64>]) -> Grid {
    let mut cells: Vec<Option<i64>> = Vec::new();
    for row in rows {
        cells.extend(row.iter().map(|v| Some(*v)));
    }
    Grid::from_shape_vec(rows.len(), rows[0].len(), cells).unwrap()
}

fn rows_of(grid: &Grid) -> Vec<Vec<Option<i64>>> {
    let (rows, cols) = grid.dim();
    (0..rows).map(|y| (0..cols).map(|x| grid.get(y, x).unwrap()).collect()).collect()
}

fn defined(rows: &[Vec<i64>]) -> Vec<Vec<Option<i64>>> {
    rows.iter().map(|row| row.iter().map(|v| Some(*v)).collect()).collect()
}

fn frame_rows() -> Vec<Vec<i64>> {
    vec![
        vec![0, 12, 11, 20, 16, 22],
        vec![13, 5, 7, 19, 18, 4],
        vec![3, 21, 3, 18, 20, 9],
        vec![16, 14, 22, 17, 22, 14],
        vec![6, 7, 18, 16, 1, 19],
    ]
}

#[test]
fn test_integral() {
    let mat = Grid::from_shape_vec(5, 5, vec![Some(1); 25]).unwrap();
    let integral = integral_arr2(&mat);
    println!("{:?}", rows_of(&integral));
    for y in 0..5 {
        for x in 0..5 {
            assert_eq!(integral.get(y, x), Ok(Some((x as i64 + 1) * (y as i64 + 1))));
        }
    }
    let res = subsum_from_integral_arrf32(&integral, 2, 2, 3, 3);
    assert_eq!(res, Ok(Some(9)));
    let res = subsum_from_integral_arrf32(&integral, 0, 2, 2, 2);
    assert_eq!(res, Ok(Some(4)));
    let res = subsum_from_integral_arrf32(&integral, 0, 0, 2, 2);
    assert_eq!(res, Ok(Some(4)));
}

#[test]
fn rectangle_sum_over_ones_is_the_area() {
    let n = 7usize;
    let mat = Grid::from_shape_vec(n, n, vec![Some(1); n * n]).unwrap();
    let integral = integral_arr2(&mat);
    for y in 0..n {
        for x in 0..n {
            for h in 0..=(n - y) {
                for w in 0..=(n - x) {
                    let area = (w * h) as i64;
                    assert_eq!(subsum_from_integral_arrf32(&integral, x, y, w, h), Ok(Some(area)));
                    assert_eq!(
                        subsum_from_integral_arrf64(&integral, x, y, w, h),
                        Ok(Some(area as i128))
                    );
                }
            }
        }
    }
}

#[test]
fn integral_of_a_frame() {
    let mat = grid(&frame_rows());
    let integral = integral_arr2(&mat);
    assert_eq!(
        rows_of(&integral),
        defined(&[
            vec![0, 12, 23, 43, 59, 81],
            vec![13, 30, 48, 87, 121, 147],
            vec![16, 54, 75, 132, 186, 221],
            vec![32, 84, 127, 201, 277, 326],
            vec![38, 97, 158, 248, 325, 393],
        ])
    );
    assert_eq!(rows_of(&mat), defined(&frame_rows()));
    assert_eq!(integral.dim(), (5, 6));
    assert_eq!(subsum_from_integral_arrf32(&integral, 2, 1, 3, 3), Ok(Some(146)));
}

#[test]
fn rectangle_past_the_table_is_refused() {
    let integral = integral_arr2(&grid(&frame_rows()));
    assert_eq!(subsum_from_integral_arrf32(&integral, 4, 0, 3, 1), Err(MatchError::OutOfBounds));
    assert_eq!(subsum_from_integral_arrf32(&integral, 0, 3, 1, 3), Err(MatchError::OutOfBounds));
    assert_eq!(subsum_from_integral_arrf64(&integral, 7, 0, 0, 0), Err(MatchError::OutOfBounds));
    assert_eq!(
        subsum_from_integral_arrf64(&integral, usize::MAX, 0, 2, 1),
        Err(MatchError::OutOfBounds)
    );
    assert_eq!(subsum_from_integral_arrf32(&integral, 6, 5, 0, 0), Ok(Some(0)));
}

#[test]
fn integral_is_undefined_from_an_undefined_cell_on() {
    let cells = vec![Some(1), Some(2), Some(3), Some(4), None, Some(6), Some(7), Some(8), Some(9)];
    let mat = Grid::from_shape_vec(3, 3, cells).unwrap();
    let integral = integral_arr2(&mat);
    assert_eq!(
        rows_of(&integral),
        vec![
            vec![Some(1), Some(3), Some(6)],
            vec![Some(5), None, None],
            vec![Some(12), None, None],
        ]
    );
    assert_eq!(subsum_from_integral_arrf32(&integral, 0, 0, 3, 1), Ok(Some(6)));
    assert_eq!(subsum_from_integral_arrf32(&integral, 1, 1, 2, 2), Ok(None));
    assert_eq!(subsum_from_integral_arrf64(&integral, 0, 2, 1, 1), Ok(Some(7)));
}

#[test]
fn integral_is_undefined_where_the_sum_does_not_fit() {
    let mat = Grid::from_shape_vec(1, 3, vec![Some(i64::MAX), Some(1), Some(-1)]).unwrap();
    let integral = integral_arr2(&mat);
    assert_eq!(rows_of(&integral), vec![vec![Some(i64::MAX), None, None]]);
    let table = Grid::from_shape_vec(1, 2, vec![Some(i64::MIN), Some(i64::MAX)]).unwrap();
    assert_eq!(subsum_from_integral_arrf32(&table, 1, 0, 1, 1), Ok(None));
    assert_eq!(
        subsum_from_integral_arrf64(&table, 1, 0, 1, 1),
        Ok(Some(i64::MAX as i128 - i64::MIN as i128))
    );
}

#[test]
fn grid_holds_its_cells_row_by_row() {
    let g = grid(&[vec![1, 2, 3], vec![4, 5, 6]]);
    assert_eq!(g.dim(), (2, 3));
    assert_eq!(g.get(0, 2), Ok(Some(3)));
    assert_eq!(g.get(1, 0), Ok(Some(4)));
    assert_eq!(g.get(2, 0), Err(MatchError::OutOfBounds));
    assert_eq!(g.get(0, 3), Err(MatchError::OutOfBounds));
    assert_eq!(
        Grid::from_shape_vec(2, 2, vec![Some(1); 3]).err(),
        Some(MatchError::DimensionMismatch)
    );
    let image = g.to_image().unwrap();
    assert_eq!((image.width(), image.height()), (3, 2));
    assert_eq!(image.data(), &vec![Some(1), Some(2), Some(3), Some(4), Some(5), Some(6)]);
    let back = Grid::from_image(&image).unwrap();
    assert_eq!(rows_of(&back), rows_of(&g));
}

#[test]
fn squares_and_their_sum() {
    let g = grid(&[vec![1, -2], vec![3, 4]]);
    assert_eq!(rows_of(&squared(&g)), defined(&[vec![1, 4], vec![9, 16]]));
    assert_eq!(rows_of(&g), defined(&[vec![1, -2], vec![3, 4]]));
    assert_eq!(square_sum_arr2f32(&g), Ok(Some(30)));
    assert_eq!(square_sum_arr2f32(&grid(&frame_rows())), Ok(Some(6545)));
    let huge = Grid::from_shape_vec(1, 1, vec![Some(i64::MAX)]).unwrap();
    assert_eq!(square_sum_arr2f32(&huge), Ok(None));
}

#[test]
fn extremes_of_a_grid() {
    let g = grid(&[vec![5, 1, 9], vec![1, 9, 5]]);
    let extremes = find_extremes(&g).unwrap();
    assert_eq!(extremes.min_value, 1);
    assert_eq!(extremes.min_value_location, (1, 0));
    assert_eq!(extremes.max_value, 9);
    assert_eq!(extremes.max_value_location, (2, 0));
}

#[test]
fn normalized_match_agrees_with_the_composed_coefficient() {
    let image = grid(&frame_rows());
    let kernel = grid(&[vec![18, 20], vec![17, 22]]);
    let res = match_template(&image, &kernel).unwrap();
    assert_eq!(res.dim(), (4, 5));
    assert_eq!(
        rows_of(&res),
        defined(&[
            vec![-159212, 56873, 901995, -550148, -640444],
            vec![703585, -736459, 909638, 667308, -792064],
            vec![287044, 85844, 126989, 1000000, -744136],
            vec![-112935, 769669, -643054, -630841, 534943],
        ])
    );
    let frame = image.to_image().unwrap();
    let template = kernel.to_image().unwrap();
    let composed = ccoeff(&frame, &template, true).unwrap();
    let flat: Vec<Option<i64>> = rows_of(&res).into_iter().flatten().collect();
    assert_eq!(&flat, composed.data());
    let extremes = find_extremes(&res).unwrap();
    assert_eq!(extremes.max_value, 1_000_000);
    assert_eq!(extremes.max_value_location, (3, 2));
}

#[test]
fn normalized_score_does_not_depend_on_the_scale() {
    let image = grid(&[vec![0, 0, 1]]);
    let kernel = grid(&[vec![1, 2, 4]]);
    assert_eq!(rows_of(&match_template(&image, &kernel).unwrap()), vec![vec![Some(944_911)]]);
    let image = grid(&[vec![0, 0, 10]]);
    let kernel = grid(&[vec![10, 20, 40]]);
    assert_eq!(rows_of(&match_template(&image, &kernel).unwrap()), vec![vec![Some(944_911)]]);
    let image = grid(&[vec![3, 3, 4]]);
    let kernel = grid(&[vec![8, 9, 11]]);
    assert_eq!(rows_of(&match_template(&image, &kernel).unwrap()), vec![vec![Some(944_911)]]);
}

#[test]
fn normalization_of_given_correlations() {
    let image = grid(&frame_rows());
    let kernel = grid(&[vec![18, 20], vec![17, 22]]);
    let frame = image.to_image().unwrap();
    let template = kernel.to_image().unwrap();
    let raw = Grid::from_image(&ccorr(&frame, &template).unwrap()).unwrap();
    let res = normalize_correlation(raw, &image, &kernel).unwrap();
    assert_eq!(rows_of(&res), rows_of(&match_template(&image, &kernel).unwrap()));
    let wrong = Grid::from_shape_vec(2, 2, vec![Some(0); 4]).unwrap();
    assert_eq!(
        normalize_correlation(wrong, &image, &kernel).err(),
        Some(MatchError::DimensionMismatch)
    );
}

#[test]
fn kernel_larger_than_the_image_is_refused() {
    let image = grid(&[vec![1, 2]]);
    let kernel = grid(&[vec![18, 20], vec![17, 22]]);
    assert_eq!(match_template(&image, &kernel).err(), Some(MatchError::DimensionMismatch));
    let empty = Grid::from_shape_vec(0, 0, Vec::new()).unwrap();
    assert_eq!(match_template(&image, &empty).err(), Some(MatchError::DimensionMismatch));
}
