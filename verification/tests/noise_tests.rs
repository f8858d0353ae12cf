use raytracer::noise::{
    cell_of, create_noise, octaves, sample_of_word, NoiseField, GRID_CELLS, GRID_SIZE, SAMPLE_SCALE,
};

fn counting_field() -> NoiseField {
    let words: Vec<u64> = (0..GRID_CELLS as u64).map(|n| n << 11).collect();
    NoiseField::from_words(words).unwrap()
}

#[test]
fn grid_is_a_cube() {
    assert_eq!(GRID_SIZE, 128);
    assert_eq!(GRID_CELLS, 128 * 128 * 128);
    assert_eq!(SAMPLE_SCALE, 1u64 << 53);
}

#[test]
fn sample_keeps_the_top_bits_of_a_word() {
    assert_eq!(sample_of_word(0), 0);
    assert_eq!(sample_of_word(2047), 0);
    assert_eq!(sample_of_word(2048), 1);
    assert_eq!(sample_of_word(0x8000_0000_0000_0000), 1u64 << 52);
    assert_eq!(sample_of_word(u64::MAX), (1u64 << 53) - 1);
    assert_eq!(sample_of_word(0x0123_4567_89AB_CDEF), 0x0123_4567_89AB_CDEF >> 11);
}

#[test]
fn sample_stands_for_a_number_below_one() {
    for word in [0u64, 1, 2047, 2048, 0xDEAD_BEEF_0BAD_F00D, u64::MAX - 1, u64::MAX] {
        let sample = sample_of_word(word);
        assert!(sample < SAMPLE_SCALE);
        let value = sample as f64 / SAMPLE_SCALE as f64;
        assert!(0.0 <= value && value < 1.0);
    }
}

#[test]
fn from_words_wants_one_word_for_each_cell() {
    assert!(NoiseField::from_words(Vec::new()).is_none());
    assert!(NoiseField::from_words(vec![0; GRID_CELLS - 1]).is_none());
    assert!(NoiseField::from_words(vec![0; GRID_CELLS + 1]).is_none());
    assert!(NoiseField::from_words(vec![0; GRID_CELLS]).is_some());
}

#[test]
fn from_words_scales_every_word() {
    let mut words = vec![u64::MAX; GRID_CELLS];
    words[0] = 4096;
    words[GRID_CELLS - 1] = 2047;
    let field = NoiseField::from_words(words).unwrap();
    assert_eq!(field.pick(0, 0, 0), 2);
    assert_eq!(field.pick(1, 0, 0), (1u64 << 53) - 1);
    assert_eq!(field.pick(127, 127, 127), 0);
}

#[test]
fn pick_reads_cells_x_first() {
    let field = counting_field();
    assert_eq!(field.pick(0, 0, 0), 0);
    assert_eq!(field.pick(1, 0, 0), 1);
    assert_eq!(field.pick(0, 1, 0), 128);
    assert_eq!(field.pick(0, 0, 1), 128 * 128);
    assert_eq!(field.pick(5, 7, 11), 5 + 7 * 128 + 11 * 128 * 128);
    assert_eq!(field.pick(127, 127, 127), GRID_CELLS as u64 - 1);
}

#[test]
fn pick_wraps_on_all_axes() {
    let field = counting_field();
    assert_eq!(field.pick(128, 0, 0), 0);
    assert_eq!(field.pick(0, 128, 0), 0);
    assert_eq!(field.pick(0, 0, 128), 0);
    assert_eq!(field.pick(129, 130, 131), 1 + 2 * 128 + 3 * 128 * 128);
    assert_eq!(field.pick(5 + 128 * 9, 7 + 128, 11 + 256), field.pick(5, 7, 11));
    assert_eq!(field.pick(usize::MAX, 0, 0), 127);
}

#[test]
fn cell_corners_are_the_cell_and_its_neighbours() {
    let field = counting_field();
    let corners = field.cell_corners(5, 7, 11);
    let at = |x: u64, y: u64, z: u64| x + y * 128 + z * 128 * 128;
    assert_eq!(corners.c000, at(5, 7, 11));
    assert_eq!(corners.c100, at(6, 7, 11));
    assert_eq!(corners.c010, at(5, 8, 11));
    assert_eq!(corners.c001, at(5, 7, 12));
    assert_eq!(corners.c101, at(6, 7, 12));
    assert_eq!(corners.c011, at(5, 8, 12));
    assert_eq!(corners.c110, at(6, 8, 11));
    assert_eq!(corners.c111, at(6, 8, 12));
}

#[test]
fn cell_corners_wrap_at_the_edge_of_the_field() {
    let field = counting_field();
    let corners = field.cell_corners(127, 127, 127);
    let at = |x: u64, y: u64, z: u64| x + y * 128 + z * 128 * 128;
    assert_eq!(corners.c000, at(127, 127, 127));
    assert_eq!(corners.c100, at(0, 127, 127));
    assert_eq!(corners.c010, at(127, 0, 127));
    assert_eq!(corners.c001, at(127, 127, 0));
    assert_eq!(corners.c101, at(0, 127, 0));
    assert_eq!(corners.c011, at(127, 0, 0));
    assert_eq!(corners.c110, at(0, 0, 127));
    assert_eq!(corners.c111, at(0, 0, 0));
    assert_eq!(field.cell_corners(usize::MAX, 0, 0), field.cell_corners(127, 0, 0));
}

#[test]
fn neighbouring_cells_share_a_face() {
    let field = counting_field();
    for &(i, j, k) in [(0usize, 0usize, 0usize), (5, 7, 11), (127, 3, 64), (126, 127, 127)].iter() {
        let here = field.cell_corners(i, j, k);
        let right = field.cell_corners(i + 1, j, k);
        assert_eq!(
            (right.c000, right.c010, right.c001, right.c011),
            (here.c100, here.c110, here.c101, here.c111)
        );
        let up = field.cell_corners(i, j + 1, k);
        assert_eq!(
            (up.c000, up.c100, up.c001, up.c101),
            (here.c010, here.c110, here.c011, here.c111)
        );
        let back = field.cell_corners(i, j, k + 1);
        assert_eq!(
            (back.c000, back.c100, back.c010, back.c110),
            (here.c001, here.c101, here.c011, here.c111)
        );
    }
}

#[test]
fn create_noise_fills_the_field_with_samples() {
    let noise = create_noise();
    let mut smallest = u64::MAX;
    let mut largest = 0u64;
    for z in 0..GRID_SIZE {
        for y in 0..GRID_SIZE {
            for x in 0..GRID_SIZE {
                let sample = noise.pick(x, y, z);
                assert!(sample < SAMPLE_SCALE);
                smallest = smallest.min(sample);
                largest = largest.max(sample);
            }
        }
    }
    // two million uniform samples spread over nearly the whole range
    assert!(smallest < SAMPLE_SCALE / 1000);
    assert!(largest > SAMPLE_SCALE - SAMPLE_SCALE / 1000);
}

#[test]
fn create_noise_differs_from_run_to_run() {
    let first = create_noise();
    let second = create_noise();
    let mut same = 0;
    for x in 0..GRID_SIZE {
        if first.pick(x, 1, 2) == second.pick(x, 1, 2) {
            same += 1;
        }
    }
    assert!(same < GRID_SIZE);
}

fn cell(coordinate: f64) -> usize {
    cell_of(coordinate.to_bits())
}

fn cell_by_numbers(coordinate: f64) -> usize {
    (coordinate.abs().fract() * 128.0).floor() as usize
}

#[test]
fn cell_of_counts_128_cells_to_the_unit() {
    assert_eq!(cell(0.0), 0);
    assert_eq!(cell(0.0078125), 1);
    assert_eq!(cell(0.007812499999999999), 0);
    assert_eq!(cell(0.5), 64);
    assert_eq!(cell(0.75), 96);
    assert_eq!(cell(0.9921875), 127);
    assert_eq!(cell(0.9999999999999999), 127);
    assert_eq!(cell(0.3), 38);
}

#[test]
fn cell_of_repeats_from_unit_to_unit_and_mirrors_at_zero() {
    assert_eq!(cell(1.0), 0);
    assert_eq!(cell(1.5), 64);
    assert_eq!(cell(17.75), 96);
    assert_eq!(cell(1024.0078125), 1);
    assert_eq!(cell(-0.5), 64);
    assert_eq!(cell(-0.0078125), 1);
    assert_eq!(cell(-3.75), 96);
    assert_eq!(cell(-0.0), 0);
}

#[test]
fn cell_of_the_very_small_and_the_very_large_is_zero() {
    assert_eq!(cell(5.0e-324), 0);
    assert_eq!(cell(2.2250738585072014e-308), 0);
    assert_eq!(cell(1.0e-10), 0);
    assert_eq!(cell(9007199254740992.0), 0);
    assert_eq!(cell(1.0e300), 0);
    assert_eq!(cell(f64::MAX), 0);
    assert_eq!(cell(f64::INFINITY), 0);
    assert_eq!(cell(f64::NEG_INFINITY), 0);
    assert_eq!(cell(f64::NAN), 0);
}

#[test]
fn cell_of_keeps_the_last_bits_of_large_coordinates() {
    // two to the power 45 and a bit: the unit in the last place is 1/128
    assert_eq!(cell(35184372088832.0078125), 1);
    assert_eq!(cell(35184372088832.9921875), 127);
    // two to the power 46: the unit in the last place is 1/64
    assert_eq!(cell(70368744177664.015625), 2);
    // two to the power 51: the unit in the last place is 1/2
    assert_eq!(cell(2251799813685248.5), 64);
    // two to the power 52: whole numbers only
    assert_eq!(cell(4503599627370497.0), 0);
}

#[test]
fn cell_of_agrees_with_the_numbers() {
    let mut state: u64 = 0x9E37_79B9_7F4A_7C15;
    for round in 0..60000u64 {
        state ^= state << 13;
        state ^= state >> 7;
        state ^= state << 17;
        // two patterns of three get an exponent near the range of the cells
        let bits = if round % 3 == 0 {
            state
        } else {
            (state & 0x800F_FFFF_FFFF_FFFF) | ((1005 + (state >> 52) % 80) << 52)
        };
        let coordinate = f64::from_bits(bits);
        assert_eq!(cell_of(bits), cell_by_numbers(coordinate), "at {:e}", coordinate);
    }
    let mut coordinate = -3.0;
    while coordinate < 3.0 {
        assert_eq!(cell(coordinate), cell_by_numbers(coordinate));
        coordinate += 0.00037;
    }
}

#[test]
fn corners_around_a_point_are_those_of_its_cell() {
    let field = counting_field();
    let around = field.corners_around(0.3f64.to_bits(), (-1.5f64).to_bits(), 17.0f64.to_bits());
    assert_eq!(around, field.cell_corners(38, 64, 0));
    let around =
        field.corners_around(0.9999f64.to_bits(), 0.9999f64.to_bits(), 0.9999f64.to_bits());
    assert_eq!(around, field.cell_corners(127, 127, 127));
    let around = field.corners_around(f64::NAN.to_bits(), 0.0f64.to_bits(), 1.0e300f64.to_bits());
    assert_eq!(around, field.cell_corners(0, 0, 0));
}

fn scales(size: f64) -> Vec<f64> {
    octaves(size.to_bits()).into_iter().map(f64::from_bits).collect()
}

fn scales_by_numbers(size: f64) -> Vec<f64> {
    let mut all = Vec::new();
    let mut mut_size = size;
    while mut_size >= 1.0 {
        all.push(mut_size);
        mut_size /= 2.0;
    }
    all
}

#[test]
fn octaves_halve_the_size_down_to_one() {
    assert_eq!(scales(16.0), vec![16.0, 8.0, 4.0, 2.0, 1.0]);
    assert_eq!(scales(1.0), vec![1.0]);
    assert_eq!(scales(1.5), vec![1.5]);
    assert_eq!(scales(1.9999999999999998), vec![1.9999999999999998]);
    assert_eq!(scales(2.0), vec![2.0, 1.0]);
    assert_eq!(scales(3.0), vec![3.0, 1.5]);
    assert_eq!(scales(100.0), vec![100.0, 50.0, 25.0, 12.5, 6.25, 3.125, 1.5625]);
}

#[test]
fn octaves_of_a_size_below_one_are_none() {
    let none = Vec::<f64>::new();
    assert_eq!(scales(0.9999999999999999), none);
    assert_eq!(scales(0.5), none);
    assert_eq!(scales(0.0), none);
    assert_eq!(scales(-0.0), none);
    assert_eq!(scales(-16.0), none);
    assert_eq!(scales(f64::NEG_INFINITY), none);
    assert_eq!(scales(f64::NAN), none);
    assert_eq!(scales(-f64::NAN), none);
    assert_eq!(scales(5.0e-324), none);
}

#[test]
fn octaves_of_the_largest_size_are_1024() {
    let all = scales(f64::MAX);
    assert_eq!(all.len(), 1024);
    assert_eq!(all[0], f64::MAX);
    assert_eq!(all[1023], 1.9999999999999998);
}

#[test]
fn octaves_agree_with_the_numbers() {
    let mut state: u64 = 0x0F0F_1234_5678_9ABD;
    for round in 0..4000u64 {
        state ^= state << 13;
        state ^= state >> 7;
        state ^= state << 17;
        let bits = if round % 4 == 0 {
            state
        } else {
            (state & 0x800F_FFFF_FFFF_FFFF) | ((1018 + (state >> 52) % 12) << 52)
        };
        let size = f64::from_bits(bits);
        if size != f64::INFINITY {
            assert_eq!(scales(size), scales_by_numbers(size));
        }
    }
}
