//! The noise field: a cube of random samples that tiles space, the lattice
//! arithmetic by which the texture reads it, and the scales at which
//! turbulence samples it.

use crate::binary64::{
    at_least, decode, fields, lemma_one_off_the_exponent_halves, lemma_order_of_sizes,
    lemma_scale_by_powers, less, Number, INFINITY, ONE, TWO,
};
use crate::rng::next_word;
use vstd::arithmetic::power2::{
    lemma2_to64, lemma2_to64_rest, lemma_pow2_adds, lemma_pow2_pos, lemma_pow2_strictly_increases,
    pow2,
};
use vstd::prelude::*;

verus! {

/// The number of cells along each axis of the field.
pub const GRID_SIZE: usize = 128;

/// The number of cells of the field, the cube of `GRID_SIZE`.
pub const GRID_CELLS: usize = 2097152;

/// Samples count in units of one part in `SAMPLE_SCALE`, which is two to the
/// power 53: the sample `n` stands for the number `n / SAMPLE_SCALE`, at
/// least zero and below one.
pub const SAMPLE_SCALE: u64 = 0x20_0000_0000_0000;

/// The sample that a random 64-bit word gives: its 53 most significant bits.
pub open spec fn sample_of_word_spec(word: u64) -> u64 {
    word / 2048
}

/// Keeps the 53 most significant bits of a random word.
#[verifier::when_used_as_spec(sample_of_word_spec)]
pub fn sample_of_word(word: u64) -> (sample: u64)
    ensures
        sample == sample_of_word_spec(word),
        sample == word / 2048,
        sample < SAMPLE_SCALE,
{
    assert(word >> 11 == word / 2048 && word >> 11 < 0x20_0000_0000_0000u64) by (bit_vector);
    word >> 11
}

/// Equally likely words give equally likely samples: every sample comes from
/// 2048 words in a row, and from no other.
pub proof fn lemma_samples_are_equally_likely(word: u64, sample: u64)
    ensures
        sample_of_word_spec(word) == sample <==> sample * 2048 <= word < (sample + 1) * 2048,
{
}

/// The place of cell `(x, y, z)` in the field.  Each coordinate wraps at
/// `GRID_SIZE`, so the field tiles space along all three axes.
pub open spec fn cell_index(x: int, y: int, z: int) -> int {
    (x % 128) + (y % 128) * 128 + (z % 128) * 128 * 128
}

/// The cell that holds a coordinate, along one axis.  The field spans one
/// unit of space with `GRID_SIZE` cells and repeats from unit to unit, to
/// both sides of zero alike: the cell is the whole part of `GRID_SIZE` times
/// the size of the coordinate, wrapped at `GRID_SIZE`.  What is no number
/// and what is infinite goes to cell zero.
pub open spec fn cell_of_spec(coordinate: u64) -> int {
    match decode(coordinate) {
        Number::Finite { magnitude, .. } => (128 * magnitude as int / pow2(1074) as int) % 128,
        _ => 0,
    }
}

/// Finds the cell that holds a coordinate, given as its binary64 pattern.
pub fn cell_of(coordinate: u64) -> (cell: usize)
    ensures
        cell == cell_of_spec(coordinate),
        cell < GRID_SIZE,
{
    let (_, exponent, fraction) = fields(coordinate);
    proof {
        lemma_pow2_pos(1074);
        lemma2_to64();
        lemma2_to64_rest();
    }
    if exponent == 0x7FF {
        0
    } else if exponent == 0 {
        proof {
            lemma_pow2_strictly_increases(59, 1074);
            vstd::arithmetic::div_mod::lemma_basic_div(128 * fraction, pow2(1074) as int);
        }
        0
    } else {
        let mantissa: u64 = 0x10_0000_0000_0000 + fraction;
        proof {
            // 128 times the size is the leading bit and the fraction, scaled
            // by two to the power of the exponent and six more
            let size = mantissa * pow2((exponent - 1) as nat);
            lemma_pow2_adds(7, (exponent - 1) as nat);
            assert(128 * size == mantissa * pow2((exponent + 6) as nat)) by (nonlinear_arith)
                requires
                    size == mantissa * pow2((exponent - 1) as nat),
                    pow2((exponent + 6) as nat) == 128 * pow2((exponent - 1) as nat),
            ;
            lemma_scale_by_powers(mantissa as nat, (exponent + 6) as nat, 1074);
        }
        if exponent >= 1075 {
            proof {
                let spare = pow2((exponent - 1075) as nat);
                lemma_pow2_adds(7, (exponent - 1075) as nat);
                assert(mantissa * pow2((exponent - 1068) as nat) == (mantissa * spare) * 128)
                    by (nonlinear_arith)
                    requires
                        pow2((exponent - 1068) as nat) == 128 * spare,
                ;
                vstd::arithmetic::div_mod::lemma_mod_multiples_basic(mantissa * spare, 128);
            }
            0
        } else if exponent >= 1068 {
            let shift: u64 = exponent - 1068;
            proof {
                assert(pow2(shift as nat) <= 64) by {
                    if shift < 6 {
                        lemma_pow2_strictly_increases(shift as nat, 6);
                    }
                }
                assert(mantissa * pow2(shift as nat) <= 0x20_0000_0000_0000 * 64)
                    by (nonlinear_arith)
                    requires
                        mantissa < 0x20_0000_0000_0000,
                        pow2(shift as nat) <= 64,
                ;
                vstd::bits::lemma_u64_shl_is_mul(mantissa, shift);
            }
            ((mantissa << shift) % 128) as usize
        } else {
            let shift: u64 = 1068 - exponent;
            if shift >= 53 {
                proof {
                    if shift > 53 {
                        lemma_pow2_strictly_increases(53, shift as nat);
                    }
                    vstd::arithmetic::div_mod::lemma_basic_div(
                        mantissa as int,
                        pow2(shift as nat) as int,
                    );
                }
                0
            } else {
                proof {
                    vstd::bits::lemma_u64_shr_is_div(mantissa, shift);
                }
                ((mantissa >> shift) % 128) as usize
            }
        }
    }
}

/// The samples at the eight corners of a cell.  In `cXYZ` each digit is the
/// step from the cell's own corner along that axis.
#[derive(Clone, Copy, Debug, PartialEq, Eq)]
pub struct Corners {
    pub c000: u64,
    pub c100: u64,
    pub c010: u64,
    pub c001: u64,
    pub c101: u64,
    pub c011: u64,
    pub c110: u64,
    pub c111: u64,
}

/// A cube of `GRID_SIZE` cells a side, each holding one sample below
/// `SAMPLE_SCALE`.  It is filled once and read ever after.
pub struct NoiseField {
    cells: Vec<u64>,
}

impl View for NoiseField {
    type V = Seq<u64>;

    /// The samples, cell after cell.
    closed spec fn view(&self) -> Seq<u64> {
        self.cells@
    }
}

impl NoiseField {
    #[verifier::type_invariant]
    spec fn is_full_cube(self) -> bool {
        &&& self.cells@.len() == GRID_CELLS
        &&& forall|i: int| 0 <= i < self.cells@.len() ==> #[trigger] self.cells@[i] < SAMPLE_SCALE
    }

    /// The sample of cell `(x, y, z)`.
    pub open spec fn sample_at(&self, x: int, y: int, z: int) -> u64 {
        self@[cell_index(x, y, z)]
    }

    /// The samples at the corners of the cell whose own corner is
    /// `(i, j, k)`.
    pub open spec fn corners_spec(&self, i: int, j: int, k: int) -> Corners {
        Corners {
            c000: self.sample_at(i, j, k),
            c100: self.sample_at(i + 1, j, k),
            c010: self.sample_at(i, j + 1, k),
            c001: self.sample_at(i, j, k + 1),
            c101: self.sample_at(i + 1, j, k + 1),
            c011: self.sample_at(i, j + 1, k + 1),
            c110: self.sample_at(i + 1, j + 1, k),
            c111: self.sample_at(i + 1, j + 1, k + 1),
        }
    }

    /// Builds the field from one random word for each cell, or refuses a
    /// list of any other length.
    pub fn from_words(words: Vec<u64>) -> (made: Option<NoiseField>)
        ensures
            words@.len() != GRID_CELLS ==> made is None,
            words@.len() == GRID_CELLS ==> made is Some && made->Some_0@ == words@.map_values(
                |word: u64| sample_of_word_spec(word),
            ),
    {
        if words.len() != GRID_CELLS {
            None
        } else {
            Some(NoiseField::of_words(words))
        }
    }

    /// Builds the field from one random word for each cell.
    fn of_words(words: Vec<u64>) -> (made: NoiseField)
        requires
            words@.len() == GRID_CELLS,
        ensures
            made@ == words@.map_values(|word: u64| sample_of_word_spec(word)),
    {
        let mut cells = words;
        let mut i: usize = 0;
        while i < GRID_CELLS
            invariant
                i <= GRID_CELLS,
                cells@.len() == GRID_CELLS,
                words@.len() == GRID_CELLS,
                forall|a: int|
                    0 <= a < i ==> #[trigger] cells@[a] == sample_of_word_spec(words@[a]),
                forall|a: int| i <= a < GRID_CELLS ==> #[trigger] cells@[a] == words@[a],
            decreases GRID_CELLS - i,
        {
            let sample: u64 = sample_of_word(cells[i]);
            cells.set(i, sample);
            i += 1;
        }
        assert(cells@ =~= words@.map_values(|word: u64| sample_of_word_spec(word)));
        NoiseField { cells }
    }

    /// Reads the sample of cell `(x, y, z)`, each coordinate wrapped into the
    /// field.
    pub fn pick(&self, x: usize, y: usize, z: usize) -> (sample: u64)
        ensures
            sample == self.sample_at(x as int, y as int, z as int),
            sample < SAMPLE_SCALE,
    {
        proof {
            use_type_invariant(self);
        }
        self.cells[(x % GRID_SIZE) + (y % GRID_SIZE) * GRID_SIZE + (z % GRID_SIZE) * GRID_SIZE
            * GRID_SIZE]
    }

    /// Reads the samples that the texture blends inside the cell whose own
    /// corner is `(i0, j0, k0)`: that corner and its seven neighbours one step
    /// further along the axes, wrapped into the field.
    pub fn cell_corners(&self, i0: usize, j0: usize, k0: usize) -> (corners: Corners)
        ensures
            corners == self.corners_spec(i0 as int, j0 as int, k0 as int),
    {
        let i: usize = i0 % GRID_SIZE;
        let j: usize = j0 % GRID_SIZE;
        let k: usize = k0 % GRID_SIZE;
        let i1: usize = (i + 1) % GRID_SIZE;
        let j1: usize = (j + 1) % GRID_SIZE;
        let k1: usize = (k + 1) % GRID_SIZE;
        proof {
            lemma_step_wraps(i0 as int);
            lemma_step_wraps(j0 as int);
            lemma_step_wraps(k0 as int);
            lemma_same_cell(i as int, j as int, k as int, i0 as int, j0 as int, k0 as int);
            lemma_same_cell(i1 as int, j as int, k as int, i0 + 1, j0 as int, k0 as int);
            lemma_same_cell(i as int, j1 as int, k as int, i0 as int, j0 + 1, k0 as int);
            lemma_same_cell(i as int, j as int, k1 as int, i0 as int, j0 as int, k0 + 1);
            lemma_same_cell(i1 as int, j as int, k1 as int, i0 + 1, j0 as int, k0 + 1);
            lemma_same_cell(i as int, j1 as int, k1 as int, i0 as int, j0 + 1, k0 + 1);
            lemma_same_cell(i1 as int, j1 as int, k as int, i0 + 1, j0 + 1, k0 as int);
            lemma_same_cell(i1 as int, j1 as int, k1 as int, i0 + 1, j0 + 1, k0 + 1);
        }
        Corners {
            c000: self.pick(i, j, k),
            c100: self.pick(i1, j, k),
            c010: self.pick(i, j1, k),
            c001: self.pick(i, j, k1),
            c101: self.pick(i1, j, k1),
            c011: self.pick(i, j1, k1),
            c110: self.pick(i1, j1, k),
            c111: self.pick(i1, j1, k1),
        }
    }

    /// Reads the samples that the texture blends at a point, given by the
    /// binary64 patterns of its coordinates: the corners of the cell that
    /// holds the point.
    pub fn corners_around(&self, x: u64, y: u64, z: u64) -> (corners: Corners)
        ensures
            corners == self.corners_spec(cell_of_spec(x), cell_of_spec(y), cell_of_spec(z)),
    {
        self.cell_corners(cell_of(x), cell_of(y), cell_of(z))
    }
}

/// The number that a scale of turbulence encodes after `k` halvings, in
/// parts of two to the power 1074.
pub open spec fn halved(size: u64, k: nat) -> nat
    decreases k,
{
    if k == 0 {
        decode(size)->Finite_magnitude
    } else {
        halved(size, (k - 1) as nat) / 2
    }
}

/// Lists the scales at which turbulence samples the field: `size` itself,
/// then half the scale before, as long as the scale is at least one.  A
/// size below one, or one that is no number, gives no scale at all.  All
/// numbers are binary64 patterns.
///
/// The halves of infinity never fall below one, so an infinite size is left
/// out.
pub fn octaves(size: u64) -> (scales: Vec<u64>)
    requires
        size != INFINITY,
    ensures
        scales@.len() > 0 <==> at_least(decode(size), decode(ONE)),
        forall|k: int|
            0 <= k < scales@.len() ==> decode(#[trigger] scales@[k]) == (Number::Finite {
                negative: false,
                magnitude: halved(size, k as nat),
            }) && at_least(decode(scales@[k]), decode(ONE)),
        forall|k: int|
            0 <= k < scales@.len() ==> #[trigger] halved(size, k as nat) * pow2(k as nat) == decode(
                size,
            )->Finite_magnitude,
        scales@.len() > 0 ==> scales@[0] == size && less(
            decode(scales@[scales@.len() - 1]),
            decode(TWO),
        ),
{
    let mut scales: Vec<u64> = Vec::new();
    proof {
        lemma_order_of_sizes(ONE, ONE);
        if size <= INFINITY {
            lemma_order_of_sizes(size, ONE);
        } else if size >= 0x8000_0000_0000_0000 {
            let rest = (size - 0x8000_0000_0000_0000) as u64;
            crate::binary64::lemma_sign_bit(rest);
            if rest <= INFINITY {
                lemma_order_of_sizes(0, rest);
                lemma_order_of_sizes(0, ONE);
            }
        }
    }
    if size < ONE || size >= INFINITY {
        return scales;
    }
    proof {
        lemma2_to64();
    }
    let mut scale: u64 = size;
    while scale >= ONE
        invariant
            ONE <= size < INFINITY,
            0x3FE0_0000_0000_0000 <= scale <= size,
            scale == size - scales@.len() * 0x0010_0000_0000_0000,
            scale < ONE ==> scales@.len() > 0,
            decode(scale) == (Number::Finite {
                negative: false,
                magnitude: halved(size, scales@.len()),
            }),
            forall|k: int|
                0 <= k < scales@.len() ==> decode(#[trigger] scales@[k]) == (Number::Finite {
                    negative: false,
                    magnitude: halved(size, k as nat),
                }) && at_least(decode(scales@[k]), decode(ONE)),
            forall|k: int|
                0 <= k <= scales@.len() ==> #[trigger] halved(size, k as nat) * pow2(k as nat)
                    == decode(size)->Finite_magnitude,
            scales@.len() > 0 ==> scales@[0] == size && scales@[scales@.len() - 1] == scale
                + 0x0010_0000_0000_0000,
        decreases scale,
    {
        proof {
            lemma_order_of_sizes(scale, ONE);
            lemma_one_off_the_exponent_halves(scale);
            let k = scales@.len();
            assert(halved(size, k + 1) == halved(size, k) / 2);
            vstd::arithmetic::power2::lemma_pow2_unfold(k + 1);
            assert(halved(size, k + 1) * pow2(k + 1) == halved(size, k) * pow2(k))
                by (nonlinear_arith)
                requires
                    halved(size, k) == 2 * halved(size, k + 1),
                    pow2(k + 1) == 2 * pow2(k),
            ;
        }
        scales.push(scale);
        scale = scale - 0x0010_0000_0000_0000;
    }
    proof {
        lemma_order_of_sizes((scale + 0x0010_0000_0000_0000) as u64, TWO);
    }
    scales
}

/// Fills a new field with independent random samples.
pub fn create_noise() -> (noise: NoiseField)
    ensures
        noise@.len() == GRID_CELLS,
        forall|i: int| 0 <= i < GRID_CELLS ==> #[trigger] noise@[i] < SAMPLE_SCALE,
{
    let mut rng = rand::thread_rng();
    let mut words: Vec<u64> = Vec::with_capacity(GRID_CELLS);
    let mut i: usize = 0;
    while i < GRID_CELLS
        invariant
            i <= GRID_CELLS,
            words@.len() == i,
        decreases GRID_CELLS - i,
    {
        words.push(next_word(&mut rng));
        i += 1;
    }
    NoiseField::of_words(words)
}

/// Wrapping a coordinate before or after a step along its axis makes no
/// difference.
proof fn lemma_step_wraps(i: int)
    ensures
        (i % 128) % 128 == i % 128,
        ((i % 128 + 1) % 128) % 128 == (i + 1) % 128,
{
}

/// Coordinates that wrap to the same values name the same cell.
proof fn lemma_same_cell(a: int, b: int, c: int, x: int, y: int, z: int)
    requires
        a % 128 == x % 128,
        b % 128 == y % 128,
        c % 128 == z % 128,
    ensures
        cell_index(a, b, c) == cell_index(x, y, z),
{
}

/// Every cell has its place inside the field.
pub proof fn lemma_cell_index_in_grid(x: int, y: int, z: int)
    ensures
        0 <= cell_index(x, y, z) < GRID_CELLS,
{
}

/// Three digits below 128 are known from the number they make up.
proof fn lemma_digits(x1: int, y1: int, z1: int, x2: int, y2: int, z2: int)
    requires
        0 <= x1 < 128 && 0 <= y1 < 128 && 0 <= z1 < 128,
        0 <= x2 < 128 && 0 <= y2 < 128 && 0 <= z2 < 128,
        x1 + y1 * 128 + z1 * 16384 == x2 + y2 * 128 + z2 * 16384,
    ensures
        x1 == x2 && y1 == y2 && z1 == z2,
{
}

/// Two cells inside the cube that share a place are the same cell.
pub proof fn lemma_cell_index_injective(x1: int, y1: int, z1: int, x2: int, y2: int, z2: int)
    requires
        0 <= x1 < GRID_SIZE && 0 <= y1 < GRID_SIZE && 0 <= z1 < GRID_SIZE,
        0 <= x2 < GRID_SIZE && 0 <= y2 < GRID_SIZE && 0 <= z2 < GRID_SIZE,
        cell_index(x1, y1, z1) == cell_index(x2, y2, z2),
    ensures
        x1 == x2 && y1 == y2 && z1 == z2,
{
    vstd::arithmetic::div_mod::lemma_small_mod(x1 as nat, 128);
    vstd::arithmetic::div_mod::lemma_small_mod(y1 as nat, 128);
    vstd::arithmetic::div_mod::lemma_small_mod(z1 as nat, 128);
    vstd::arithmetic::div_mod::lemma_small_mod(x2 as nat, 128);
    vstd::arithmetic::div_mod::lemma_small_mod(y2 as nat, 128);
    vstd::arithmetic::div_mod::lemma_small_mod(z2 as nat, 128);
    lemma_digits(x1, y1, z1, x2, y2, z2);
}

/// The field tiles space: a step of `GRID_SIZE` along any axis leads to the
/// same sample.
pub proof fn lemma_field_tiles(field: NoiseField, x: int, y: int, z: int)
    ensures
        field.sample_at(x + GRID_SIZE, y, z) == field.sample_at(x, y, z),
        field.sample_at(x, y + GRID_SIZE, z) == field.sample_at(x, y, z),
        field.sample_at(x, y, z + GRID_SIZE) == field.sample_at(x, y, z),
{
}

/// Neighbouring cells read the same four samples on the face between them,
/// along each axis and across the wrap of the field as well.
pub proof fn lemma_neighbours_share_faces(field: NoiseField, i: int, j: int, k: int)
    ensures
        ({
            let here = field.corners_spec(i, j, k);
            let next = field.corners_spec(i + 1, j, k);
            next.c000 == here.c100 && next.c010 == here.c110 && next.c001 == here.c101 && next.c011
                == here.c111
        }),
        ({
            let here = field.corners_spec(i, j, k);
            let next = field.corners_spec(i, j + 1, k);
            next.c000 == here.c010 && next.c100 == here.c110 && next.c001 == here.c011 && next.c101
                == here.c111
        }),
        ({
            let here = field.corners_spec(i, j, k);
            let next = field.corners_spec(i, j, k + 1);
            next.c000 == here.c001 && next.c100 == here.c101 && next.c010 == here.c011 && next.c110
                == here.c111
        }),
{
}

} // verus!
