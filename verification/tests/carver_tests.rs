use carver::carve::remove_seam;
use carver::cost::calculate_accumulated_cost;
use carver::energy::calculate_energy;
use carver::float_bits::sqrt_to_bits;
use carver::matrix::transpose;
use carver::pixel::gradient;
use carver::pixel::Pixel;
use carver::process;
use carver::seam::find_seam;
use carver::CarverMode;

fn px(r: u8, g: u8, b: u8) -> Pixel {
    Pixel { r, g, b }
}

fn bits_matrix(rows: &[&[f64]]) -> Vec<Vec<u64>> {
    rows.iter().map(|row| row.iter().map(|v| v.to_bits()).collect()).collect()
}

fn floats_matrix(rows: &Vec<Vec<u64>>) -> Vec<Vec<f64>> {
    rows.iter().map(|row| row.iter().map(|v| f64::from_bits(*v)).collect()).collect()
}

#[test]
fn calculate_energy_works_with_given_image() {
    let image = vec![
        vec![px(0, 0, 0), px(102, 102, 0), px(51, 0, 0)],
        vec![px(10, 20, 30), px(40, 50, 60), px(70, 80, 90)],
        vec![px(200, 100, 50), px(25, 75, 125), px(0, 255, 128)],
        vec![px(5, 5, 5), px(250, 250, 250), px(128, 0, 64)],
    ];

    let expected = vec![
        vec![f64::sqrt(13880f64), f64::sqrt(122801f64), f64::sqrt(31248f64)],
        vec![f64::sqrt(55200f64), f64::sqrt(33083f64), f64::sqrt(86710f64)],
        vec![f64::sqrt(33909f64), f64::sqrt(190309f64), f64::sqrt(47315f64)],
        vec![f64::sqrt(164480f64), f64::sqrt(40918f64), f64::sqrt(264085f64)],
    ];

    let actual = floats_matrix(&calculate_energy(&image));

    assert_eq!(expected, actual)
}

#[test]
fn transpose_matrix_works() {
    let expected = bits_matrix(&[&[1f64, 2f64, 3f64], &[4f64, 5f64, 6f64]]);
    let actual = transpose(&bits_matrix(&[&[1f64, 4f64], &[2f64, 5f64], &[3f64, 6f64]]));
    assert_eq!(expected, actual)
}

#[test]
fn calculate_accumulated_cost_works_on_given_matrix() {
    let matrix = bits_matrix(&[
        &[10000f64, 10000f64, 10000f64],
        &[10000f64, 52225f64, 10000f64],
        &[10000f64, 52024f64, 10000f64],
        &[10000f64, 10000f64, 10000f64],
    ]);

    let expected = vec![
        vec![10000f64, 10000f64, 10000f64],
        vec![20000f64, 62225f64, 20000f64],
        vec![30000f64, 72024f64, 30000f64],
        vec![40000f64, 40000f64, 40000f64],
    ];
    let actual = floats_matrix(&calculate_accumulated_cost(&matrix));

    assert!(actual.iter().enumerate().all(|(y, row)| {
        row.iter().enumerate().all(|(x, weight)| f64::abs(weight - expected[y][x]) < 0.001)
    }))
}

#[test]
fn find_seam_works_for_given_image() {
    let matrix = bits_matrix(&[
        &[57685.0, 50893.0, 91370.0, 25418.0, 33055.0, 37246.0],
        &[15421.0, 56334.0, 22808.0, 54796.0, 11641.0, 25496.0],
        &[12344.0, 19236.0, 52030.0, 17708.0, 44735.0, 20663.0],
        &[17074.0, 23678.0, 30279.0, 80663.0, 37831.0, 45595.0],
        &[32337.0, 30796.0, 4909.0, 73334.0, 40613.0, 36556.0],
    ]);

    let expected_vertical: Vec<usize> = vec![3, 4, 3, 2, 2];
    let actual_vertical = find_seam(&matrix, CarverMode::Vertical);
    assert_eq!(expected_vertical, actual_vertical);

    let expected_horizontal: Vec<usize> = vec![2, 2, 1, 2, 1, 2];
    let actual_horizontal = find_seam(&matrix, CarverMode::Horizontal);
    assert_eq!(expected_horizontal, actual_horizontal);
}

#[test]
fn accumulated_cost_first_row_equals_field_first_row() {
    let field = bits_matrix(&[&[3.5, 0.0, 7.25], &[1.0, 2.0, 3.0]]);
    let acc = calculate_accumulated_cost(&field);
    assert_eq!(acc[0], field[0]);
}

#[test]
fn seam_entries_are_adjacent() {
    let matrix = bits_matrix(&[
        &[5.0, 1.0, 9.0, 9.0, 9.0],
        &[9.0, 9.0, 2.0, 9.0, 9.0],
        &[9.0, 9.0, 9.0, 1.0, 9.0],
        &[9.0, 9.0, 9.0, 9.0, 1.0],
    ]);
    let seam = find_seam(&matrix, CarverMode::Vertical);
    assert_eq!(seam.len(), 4);
    for y in 0..seam.len() - 1 {
        let a = seam[y] as i64;
        let b = seam[y + 1] as i64;
        assert!((a - b).abs() <= 1);
    }
}

#[test]
fn transpose_is_self_inverse() {
    let m = bits_matrix(&[&[1.0, 2.0], &[3.0, 4.0], &[5.5, 6.5]]);
    assert_eq!(transpose(&transpose(&m)), m);
}

#[test]
fn energy_wraps_around_the_left_edge() {
    // One row, three pixels: the vertical gradient is zero (the row is its
    // own wrapped neighbour), so the energy at column 0 is the gradient
    // between column 2 (the wrapped left neighbour) and column 1 alone:
    // sqrt((5 - 0)^2) = 5. Clamping instead of wrapping would give 10.
    let image = vec![vec![px(10, 0, 0), px(0, 0, 0), px(5, 0, 0)]];
    let energy = calculate_energy(&image);
    assert_eq!(energy[0][0], 5.0f64.to_bits());
}

#[test]
fn gradient_sums_squared_channel_differences() {
    let a = px(1, 2, 3);
    let b = px(4, 6, 11);
    // (1-4)^2 + (2-6)^2 + (3-11)^2 = 9 + 16 + 64 = 89.
    assert_eq!(gradient(&a, &b), 89);
}

#[test]
fn sqrt_to_bits_matches_hardware_doubles() {
    for g in 0u64..4096 {
        assert_eq!(sqrt_to_bits(g), f64::sqrt(g as f64).to_bits());
    }
    for g in [20808u64, 52020, 52225, 21220, 20809, 52024, 195075, 390150] {
        assert_eq!(sqrt_to_bits(g), f64::sqrt(g as f64).to_bits());
    }
}

#[test]
fn remove_seam_shrinks_exactly_one_axis() {
    let image = vec![
        vec![px(1, 1, 1), px(2, 2, 2), px(3, 3, 3)],
        vec![px(4, 4, 4), px(5, 5, 5), px(6, 6, 6)],
        vec![px(7, 7, 7), px(8, 8, 8), px(9, 9, 9)],
        vec![px(10, 10, 10), px(11, 11, 11), px(12, 12, 12)],
    ];

    let vertical_seam: Vec<usize> = vec![0, 1, 2, 1];
    let carved = remove_seam(&image, &vertical_seam, CarverMode::Vertical);
    assert_eq!(carved.len(), 4);
    for row in &carved {
        assert_eq!(row.len(), 2);
    }
    assert_eq!(
        carved,
        vec![
            vec![px(2, 2, 2), px(3, 3, 3)],
            vec![px(4, 4, 4), px(6, 6, 6)],
            vec![px(7, 7, 7), px(8, 8, 8)],
            vec![px(10, 10, 10), px(12, 12, 12)],
        ]
    );

    let horizontal_seam: Vec<usize> = vec![3, 0, 2];
    let carved = remove_seam(&image, &horizontal_seam, CarverMode::Horizontal);
    assert_eq!(carved.len(), 3);
    for row in &carved {
        assert_eq!(row.len(), 3);
    }
    assert_eq!(
        carved,
        vec![
            vec![px(1, 1, 1), px(5, 5, 5), px(3, 3, 3)],
            vec![px(4, 4, 4), px(8, 8, 8), px(6, 6, 6)],
            vec![px(7, 7, 7), px(11, 11, 11), px(12, 12, 12)],
        ]
    );
}

#[test]
fn zero_passes_returns_the_grid_unchanged() {
    let image = vec![
        vec![px(9, 8, 7), px(6, 5, 4)],
        vec![px(3, 2, 1), px(0, 10, 20)],
    ];
    let out = process(image.clone(), CarverMode::Vertical, 0);
    assert_eq!(out, image);
    let out = process(image.clone(), CarverMode::Horizontal, 0);
    assert_eq!(out, image);
}

#[test]
fn split_passes_equal_passes_run_at_once() {
    let mut image = Vec::new();
    for y in 0..5u8 {
        let mut row = Vec::new();
        for x in 0..6u8 {
            row.push(px(
                y.wrapping_mul(31).wrapping_add(x.wrapping_mul(57)),
                x.wrapping_mul(13).wrapping_add(y.wrapping_mul(7)),
                y.wrapping_mul(3).wrapping_add(x),
            ));
        }
        image.push(row);
    }
    for mode in [CarverMode::Vertical, CarverMode::Horizontal] {
        let direct = process(image.clone(), mode, 3);
        let first = process(image.clone(), mode, 2);
        let split = process(first, mode, 1);
        assert_eq!(direct, split);
    }
}

#[test]
fn traced_pass_matches_one_process_pass() {
    let image = vec![
        vec![px(12, 0, 200), px(0, 90, 3), px(77, 77, 77), px(1, 2, 3)],
        vec![px(9, 9, 9), px(200, 0, 0), px(0, 200, 0), px(0, 0, 200)],
        vec![px(63, 127, 255), px(255, 127, 63), px(5, 6, 7), px(8, 9, 10)],
    ];
    for mode in [CarverMode::Vertical, CarverMode::Horizontal] {
        let (energy, seam, carved) = carver::carve_pass_with_trace(&image, mode);
        assert_eq!(energy, calculate_energy(&image));
        assert_eq!(seam, find_seam(&energy, mode));
        assert_eq!(carved, process(image.clone(), mode, 1));
    }
}

#[test]
fn process_shrinks_the_carved_axis_per_pass() {
    let mut image = Vec::new();
    for y in 0..4u8 {
        let mut row = Vec::new();
        for x in 0..5u8 {
            row.push(px(x.wrapping_mul(40), y.wrapping_mul(60), x.wrapping_add(y)));
        }
        image.push(row);
    }
    let out = process(image.clone(), CarverMode::Vertical, 2);
    assert_eq!(out.len(), 4);
    for row in &out {
        assert_eq!(row.len(), 3);
    }
    let out = process(image, CarverMode::Horizontal, 2);
    assert_eq!(out.len(), 2);
    for row in &out {
        assert_eq!(row.len(), 5);
    }
}
