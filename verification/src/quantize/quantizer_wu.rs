use vstd::prelude::*;
use indexmap::IndexMap;
use crate::quantize::quantizer::{color_count_entries, count_len, count_entry_at};
use crate::quantize::quantizer_map::total_count;
use crate::utils::color_utils::{Argb, pack_rgb};

verus! {

/// The number of bits of each channel that the histogram keeps.
pub const INDEX_BITS: u32 = 5;

/// The cells along one side of the histogram cube: `(1 << INDEX_BITS) + 1`, one more than the
/// number of channel bins, so that the first layer can stay zero.
pub const INDEX_COUNT: usize = 33;

/// The number of cells of the histogram cube: `INDEX_COUNT^3`.
pub const TOTAL_SIZE: usize = 35937;

/// The position of cell `(r, g, b)` in a flattened histogram.
pub open spec fn cell(r: int, g: int, b: int) -> int {
    r * 1089 + g * 33 + b
}

/// Whether `(r, g, b)` is a cell of the histogram cube.
pub open spec fn in_grid(r: int, g: int, b: int) -> bool {
    0 <= r <= 32 && 0 <= g <= 32 && 0 <= b <= 32
}

/// A flattened histogram of the right size whose cells on the three zero faces hold 0.
pub open spec fn padded(o: Seq<i32>) -> bool {
    &&& o.len() == TOTAL_SIZE
    &&& forall|r: int, g: int, b: int|
        in_grid(r, g, b) && (r == 0 || g == 0 || b == 0) ==> #[trigger] o[cell(r, g, b)] == 0
}

/// Every cell holds a nonnegative value.
pub open spec fn nonnegative(o: Seq<i32>) -> bool {
    forall|i: int| 0 <= i < o.len() ==> #[trigger] o[i] >= 0
}

/// `o[r][g][1] + ... + o[r][g][b]`.
pub open spec fn row_sum(o: Seq<i32>, r: int, g: int, b: int) -> int
    decreases b,
{
    if b <= 0 {
        0
    } else {
        row_sum(o, r, g, b - 1) + o[cell(r, g, b)]
    }
}

/// The sum of `o[r][g'][b']` over `1 <= g' <= g`, `1 <= b' <= b`.
pub open spec fn plane_sum(o: Seq<i32>, r: int, g: int, b: int) -> int
    decreases g,
{
    if g <= 0 {
        0
    } else {
        plane_sum(o, r, g - 1, b) + row_sum(o, r, g, b)
    }
}

/// The sum of `o[r'][g'][b']` over `1 <= r' <= r`, `1 <= g' <= g`, `1 <= b' <= b`: the total
/// weight of the cells at or below `(r, g, b)` in every channel.
pub open spec fn prefix_sum(o: Seq<i32>, r: int, g: int, b: int) -> int
    decreases r,
{
    if r <= 0 {
        0
    } else {
        prefix_sum(o, r - 1, g, b) + plane_sum(o, r, g, b)
    }
}

/// `w` holds, in every cell, the prefix sum of `o` at that cell.
pub open spec fn is_prefix_table(w: Seq<i32>, o: Seq<i32>) -> bool {
    &&& w.len() == TOTAL_SIZE
    &&& forall|r: int, g: int, b: int|
        in_grid(r, g, b) ==> #[trigger] w[cell(r, g, b)] == prefix_sum(o, r, g, b)
}

/// A histogram that `create_moments` can sum without overflow: padded, nonnegative, and with a
/// total that fits an `i32`.
pub open spec fn summable(o: Seq<i32>) -> bool {
    padded(o) && nonnegative(o) && prefix_sum(o, 32, 32, 32) <= i32::MAX
}


/// A box of the histogram: the cells `(r, g, b)` with `r0 < r <= r1`, `g0 < g <= g1`,
/// `b0 < b <= b1`.
#[derive(Clone, Copy, Debug, Default)]
pub struct Cube {
    pub r0: i32,
    pub r1: i32,
    pub g0: i32,
    pub g1: i32,
    pub b0: i32,
    pub b1: i32,
    /// The number of cells of the box.
    pub vol: i32,
}

/// The channel along which a box is cut.
#[derive(Clone, Copy, Debug, PartialEq, Eq, Structural)]
pub enum Direction {
    Red,
    Green,
    Blue,
}

/// All six bounds of the box are cells of the histogram.
pub open spec fn cube_in_grid(c: Cube) -> bool {
    &&& 0 <= c.r0 <= 32 && 0 <= c.r1 <= 32
    &&& 0 <= c.g0 <= 32 && 0 <= c.g1 <= 32
    &&& 0 <= c.b0 <= 32 && 0 <= c.b1 <= 32
}

/// The bounds of the box are ordered: its lower corner is below its upper corner.
pub open spec fn cube_ordered(c: Cube) -> bool {
    c.r0 <= c.r1 && c.g0 <= c.g1 && c.b0 <= c.b1
}

/// The inclusion-exclusion of the eight corners of a box in a table `m`.
pub open spec fn box_formula(m: Seq<i32>, c: Cube) -> int {
    m[cell(c.r1 as int, c.g1 as int, c.b1 as int)] - m[cell(c.r1 as int, c.g1 as int, c.b0 as int)]
        - m[cell(c.r1 as int, c.g0 as int, c.b1 as int)] + m[cell(c.r1 as int, c.g0 as int, c.b0 as int)]
        - m[cell(c.r0 as int, c.g1 as int, c.b1 as int)] + m[cell(c.r0 as int, c.g1 as int, c.b0 as int)]
        + m[cell(c.r0 as int, c.g0 as int, c.b1 as int)] - m[cell(c.r0 as int, c.g0 as int, c.b0 as int)]
}

/// The four corners of a box on its lower face across `direction`, signed as the lower face
/// enters `box_formula`.
pub open spec fn bottom_formula(m: Seq<i32>, c: Cube, direction: Direction) -> int {
    match direction {
        Direction::Red => -m[cell(c.r0 as int, c.g1 as int, c.b1 as int)] + m[cell(c.r0 as int, c.g1 as int, c.b0 as int)]
            + m[cell(c.r0 as int, c.g0 as int, c.b1 as int)] - m[cell(c.r0 as int, c.g0 as int, c.b0 as int)],
        Direction::Green => -m[cell(c.r1 as int, c.g0 as int, c.b1 as int)] + m[cell(c.r1 as int, c.g0 as int, c.b0 as int)]
            + m[cell(c.r0 as int, c.g0 as int, c.b1 as int)] - m[cell(c.r0 as int, c.g0 as int, c.b0 as int)],
        Direction::Blue => -m[cell(c.r1 as int, c.g1 as int, c.b0 as int)] + m[cell(c.r1 as int, c.g0 as int, c.b0 as int)]
            + m[cell(c.r0 as int, c.g1 as int, c.b0 as int)] - m[cell(c.r0 as int, c.g0 as int, c.b0 as int)],
    }
}

/// The four corners of the face of a box at `position` across `direction`, signed as an upper
/// face enters `box_formula`.
pub open spec fn top_formula(m: Seq<i32>, c: Cube, direction: Direction, position: int) -> int {
    match direction {
        Direction::Red => m[cell(position, c.g1 as int, c.b1 as int)] - m[cell(position, c.g1 as int, c.b0 as int)]
            - m[cell(position, c.g0 as int, c.b1 as int)] + m[cell(position, c.g0 as int, c.b0 as int)],
        Direction::Green => m[cell(c.r1 as int, position, c.b1 as int)] - m[cell(c.r1 as int, position, c.b0 as int)]
            - m[cell(c.r0 as int, position, c.b1 as int)] + m[cell(c.r0 as int, position, c.b0 as int)],
        Direction::Blue => m[cell(c.r1 as int, c.g1 as int, position)] - m[cell(c.r1 as int, c.g0 as int, position)]
            - m[cell(c.r0 as int, c.g1 as int, position)] + m[cell(c.r0 as int, c.g0 as int, position)],
    }
}

/// The box cut at `position` across `direction`: the part from its lower face to `position`.
pub open spec fn lower_part(c: Cube, direction: Direction, position: i32) -> Cube {
    match direction {
        Direction::Red => Cube { r1: position, ..c },
        Direction::Green => Cube { g1: position, ..c },
        Direction::Blue => Cube { b1: position, ..c },
    }
}

/// `o[r][g][b0 + 1] + ... + o[r][g][b1]`.
pub open spec fn span_b(o: Seq<i32>, r: int, g: int, b0: int, b1: int) -> int
    decreases b1 - b0,
{
    if b1 <= b0 {
        0
    } else {
        span_b(o, r, g, b0, b1 - 1) + o[cell(r, g, b1)]
    }
}

/// The sum of `o[r][g][b]` over `g0 < g <= g1`, `b0 < b <= b1`.
pub open spec fn span_gb(o: Seq<i32>, r: int, g0: int, g1: int, b0: int, b1: int) -> int
    decreases g1 - g0,
{
    if g1 <= g0 {
        0
    } else {
        span_gb(o, r, g0, g1 - 1, b0, b1) + span_b(o, r, g1, b0, b1)
    }
}

/// The sum of `o[r][g][b]` over `r0 < r <= r1`, `g0 < g <= g1`, `b0 < b <= b1`: the total held
/// by the cells of a box.
pub open spec fn box_total(o: Seq<i32>, r0: int, r1: int, g0: int, g1: int, b0: int, b1: int) -> int
    decreases r1 - r0,
{
    if r1 <= r0 {
        0
    } else {
        box_total(o, r0, r1 - 1, g0, g1, b0, b1) + span_gb(o, r1, g0, g1, b0, b1)
    }
}


/// The histogram cell of a color: each channel keeps its top five bits, shifted up by one so
/// that the zero faces of the cube stay empty.
pub open spec fn bin_of(c: u32) -> int {
    cell(
        Argb(c).spec_red() as int / 8 + 1,
        Argb(c).spec_green() as int / 8 + 1,
        Argb(c).spec_blue() as int / 8 + 1,
    )
}

/// What one color-count entry adds to a histogram: its count (`kind` 0), or its count times its
/// red (`kind` 1), green (`kind` 2) or blue (`kind` 3) channel.
pub open spec fn entry_value(e: (u32, u32), kind: int) -> int {
    if kind == 1 {
        Argb(e.0).spec_red() as int * e.1 as int
    } else if kind == 2 {
        Argb(e.0).spec_green() as int * e.1 as int
    } else if kind == 3 {
        Argb(e.0).spec_blue() as int * e.1 as int
    } else {
        e.1 as int
    }
}

/// The total that the entries falling in cell `i` add to histogram `kind`.
pub open spec fn hist_sum(t: Seq<(u32, u32)>, i: int, kind: int) -> int
    decreases t.len(),
{
    if t.len() == 0 {
        0
    } else {
        hist_sum(t.drop_last(), i, kind) + if bin_of(t.last().0) == i {
            entry_value(t.last(), kind)
        } else {
            0
        }
    }
}

/// Histogram `kind` of a table of color counts, over the whole flattened cube.
pub open spec fn histogram(t: Seq<(u32, u32)>, kind: int) -> Seq<i32> {
    Seq::new(TOTAL_SIZE as nat, |i: int| hist_sum(t, i, kind) as i32)
}

/// The total that all entries add to histogram `kind`.
pub open spec fn kind_total(t: Seq<(u32, u32)>, kind: int) -> int
    decreases t.len(),
{
    if t.len() == 0 {
        0
    } else {
        kind_total(t.drop_last(), kind) + entry_value(t.last(), kind)
    }
}

/// The histograms of a table of color counts can be built and summed in `i32` cells: the total
/// of each of the four histograms fits an `i32`.
pub open spec fn histogram_fits(t: Seq<(u32, u32)>) -> bool {
    &&& kind_total(t, 0) <= i32::MAX
    &&& kind_total(t, 1) <= i32::MAX
    &&& kind_total(t, 2) <= i32::MAX
    &&& kind_total(t, 3) <= i32::MAX
}


/// Integer division rounding toward zero, as Rust's `/` on signed integers does.
pub open spec fn trunc_div(a: int, b: int) -> int {
    if a >= 0 {
        a / b
    } else {
        -((-a) / b)
    }
}

/// The low eight bits of a value.
pub open spec fn low_byte(x: i32) -> u8 {
    (x & 0xFFi32) as u8
}

/// Whether the volume of a box in a table fits an `i32`.
pub open spec fn volume_fits(m: Seq<i32>, c: Cube) -> bool {
    i32::MIN <= box_formula(m, c) <= i32::MAX
}

/// The color that a box stands for: the average of each channel over its pixels, when it has
/// any.
pub open spec fn cube_color(w: Seq<i32>, mr: Seq<i32>, mg: Seq<i32>, mb: Seq<i32>, c: Cube) -> Option<Argb> {
    let weight = box_formula(w, c);
    if weight > 0 {
        Some(
            Argb(
                pack_rgb(
                    low_byte(trunc_div(box_formula(mr, c), weight) as i32),
                    low_byte(trunc_div(box_formula(mg, c), weight) as i32),
                    low_byte(trunc_div(box_formula(mb, c), weight) as i32),
                ),
            ),
        )
    } else {
        None
    }
}

/// The colors of a sequence of boxes, in order, skipping the boxes without pixels.
pub open spec fn result_colors(w: Seq<i32>, mr: Seq<i32>, mg: Seq<i32>, mb: Seq<i32>, cubes: Seq<Cube>) -> Seq<Argb>
    decreases cubes.len(),
{
    if cubes.len() == 0 {
        Seq::empty()
    } else {
        let rest = result_colors(w, mr, mg, mb, cubes.drop_last());
        match cube_color(w, mr, mg, mb, cubes.last()) {
            Some(c) => rest.push(c),
            None => rest,
        }
    }
}


/// The lower and upper bounds of a box across `direction`.
pub open spec fn bounds_along(c: Cube, direction: Direction) -> (int, int) {
    match direction {
        Direction::Red => (c.r0 as int, c.r1 as int),
        Direction::Green => (c.g0 as int, c.g1 as int),
        Direction::Blue => (c.b0 as int, c.b1 as int),
    }
}

/// The part of a box above a cut at `position` across `direction`.
pub open spec fn upper_part(c: Cube, direction: Direction, position: i32) -> Cube {
    match direction {
        Direction::Red => Cube { r0: position, ..c },
        Direction::Green => Cube { g0: position, ..c },
        Direction::Blue => Cube { b0: position, ..c },
    }
}

/// The number of cells of a box.
pub open spec fn cell_count(c: Cube) -> int {
    (c.r1 - c.r0) * (c.g1 - c.g0) * (c.b1 - c.b0)
}

/// The total held by the cells of a box, read from its bounds.
pub open spec fn cube_total(o: Seq<i32>, c: Cube) -> int {
    box_total(o, c.r0 as int, c.r1 as int, c.g0 as int, c.g1 as int, c.b0 as int, c.b1 as int)
}

/// An image quantizer that divides the image's pixels into clusters by recursively cutting an
/// RGB cube, based on the weight of pixels in each area of the cube.
///
/// The algorithm was described by Xiaolin Wu in Graphic Gems II, published in 1991.
pub struct QuantizerWu {
    /// Pixel counts per cell; prefix sums of them after `create_moments`.
    pub weights: Vec<i32>,
    /// Sums of the red channel per cell; prefix sums of them after `create_moments`.
    pub moments_r: Vec<i32>,
    /// Sums of the green channel per cell; prefix sums of them after `create_moments`.
    pub moments_g: Vec<i32>,
    /// Sums of the blue channel per cell; prefix sums of them after `create_moments`.
    pub moments_b: Vec<i32>,
    /// The boxes that the cube has been cut into.
    pub cubes: Vec<Cube>,
}

impl QuantizerWu {
    /// A quantizer with four empty histograms and no boxes.
    pub fn new() -> (q: Self)
        ensures
            q.weights@ == Seq::new(TOTAL_SIZE as nat, |i: int| 0i32),
            q.moments_r@ == Seq::new(TOTAL_SIZE as nat, |i: int| 0i32),
            q.moments_g@ == Seq::new(TOTAL_SIZE as nat, |i: int| 0i32),
            q.moments_b@ == Seq::new(TOTAL_SIZE as nat, |i: int| 0i32),
            q.cubes@.len() == 0,
    {
        Self {
            weights: zeros(TOTAL_SIZE),
            moments_r: zeros(TOTAL_SIZE),
            moments_g: zeros(TOTAL_SIZE),
            moments_b: zeros(TOTAL_SIZE),
            cubes: Vec::new(),
        }
    }

    /// Builds the four histograms of a table of color counts: for every color, its count and
    /// its count times each channel are added to the cell of the color.
    pub fn construct_histogram(&mut self, pixels: &IndexMap<Argb, u32>)
        requires
            old(self).weights.len() == TOTAL_SIZE,
            old(self).moments_r.len() == TOTAL_SIZE,
            old(self).moments_g.len() == TOTAL_SIZE,
            old(self).moments_b.len() == TOTAL_SIZE,
            histogram_fits(color_count_entries(*pixels)),
        ensures
            final(self).weights@ == histogram(color_count_entries(*pixels), 0),
            final(self).moments_r@ == histogram(color_count_entries(*pixels), 1),
            final(self).moments_g@ == histogram(color_count_entries(*pixels), 2),
            final(self).moments_b@ == histogram(color_count_entries(*pixels), 3),
            summable(final(self).weights@),
            summable(final(self).moments_r@),
            summable(final(self).moments_g@),
            summable(final(self).moments_b@),
            final(self).cubes == old(self).cubes,
    {
        let ghost t = color_count_entries(*pixels);
        fill_zero(&mut self.weights);
        fill_zero(&mut self.moments_r);
        fill_zero(&mut self.moments_g);
        fill_zero(&mut self.moments_b);
        let n = count_len(pixels);
        let mut i: usize = 0;
        proof {
            assert(histogram(t.take(0), 0) =~= self.weights@);
            assert(histogram(t.take(0), 1) =~= self.moments_r@);
            assert(histogram(t.take(0), 2) =~= self.moments_g@);
            assert(histogram(t.take(0), 3) =~= self.moments_b@);
        }
        while i < n
            invariant
                n == t.len(),
                i <= n,
                t == color_count_entries(*pixels),
                histogram_fits(t),
                self.cubes == old(self).cubes,
                self.weights@ == histogram(t.take(i as int), 0),
                self.moments_r@ == histogram(t.take(i as int), 1),
                self.moments_g@ == histogram(t.take(i as int), 2),
                self.moments_b@ == histogram(t.take(i as int), 3),
            decreases n - i,
        {
            let (pixel, count) = match count_entry_at(pixels, i) {
                Some(e) => e,
                None => {
                    assert(false);
                    return;
                },
            };
            let ghost prev = t.take(i as int);
            let ghost next = t.take(i + 1);
            proof {
                assert(next.drop_last() =~= prev);
                assert(next.last() == t[i as int]);
                lemma_kind_total_prefix(t, i + 1);
                lemma_kind_total_prefix(t, i as int);
                lemma_histogram_bounds(next);
                lemma_histogram_bounds(prev);
            }
            let red = pixel.red();
            let green = pixel.green();
            let blue = pixel.blue();
            let bits_to_remove: u32 = 8 - INDEX_BITS;
            proof {
                assert(red >> 3u32 == red / 8) by (bit_vector);
                assert(green >> 3u32 == green / 8) by (bit_vector);
                assert(blue >> 3u32 == blue / 8) by (bit_vector);
            }
            let i_r = (red >> bits_to_remove) + 1;
            let i_g = (green >> bits_to_remove) + 1;
            let i_b = (blue >> bits_to_remove) + 1;
            let index = Self::get_index(i_r as usize, i_g as usize, i_b as usize);
            let ghost k = index as int;
            proof {
                assert(k == bin_of(pixel.0));
                lemma_histogram_step(prev, next, k);
                assert(0 <= hist_sum(next, k, 0) <= kind_total(next, 0) <= kind_total(t, 0));
                assert(0 <= hist_sum(next, k, 1) <= kind_total(next, 1) <= kind_total(t, 1));
                assert(0 <= hist_sum(next, k, 2) <= kind_total(next, 2) <= kind_total(t, 2));
                assert(0 <= hist_sum(next, k, 3) <= kind_total(next, 3) <= kind_total(t, 3));
                assert(0 <= hist_sum(prev, k, 1) <= kind_total(prev, 1));
                assert(0 <= hist_sum(prev, k, 2) <= kind_total(prev, 2));
                assert(0 <= hist_sum(prev, k, 3) <= kind_total(prev, 3));
                assert(count == entry_value(next.last(), 0));
                assert(red * count == entry_value(next.last(), 1));
                assert(green * count == entry_value(next.last(), 2));
                assert(blue * count == entry_value(next.last(), 3));
                assert(self.weights@[k] == hist_sum(prev, k, 0));
                assert(self.moments_r@[k] == hist_sum(prev, k, 1));
                assert(self.moments_g@[k] == hist_sum(prev, k, 2));
                assert(self.moments_b@[k] == hist_sum(prev, k, 3));
                assert(0 <= red * count <= 255 * count) by (nonlinear_arith)
                    requires 0 <= red <= 255, 0 <= count;
                assert(0 <= green * count <= 255 * count) by (nonlinear_arith)
                    requires 0 <= green <= 255, 0 <= count;
                assert(0 <= blue * count <= 255 * count) by (nonlinear_arith)
                    requires 0 <= blue <= 255, 0 <= count;
            }
            let count_i = count as i32;
            let w = self.weights[index] + count_i;
            self.weights.set(index, w);
            let mr = self.moments_r[index] + (red as i32) * count_i;
            self.moments_r.set(index, mr);
            let mg = self.moments_g[index] + (green as i32) * count_i;
            self.moments_g.set(index, mg);
            let mb = self.moments_b[index] + (blue as i32) * count_i;
            self.moments_b.set(index, mb);
            proof {
                assert(self.weights@ =~= histogram(next, 0));
                assert(self.moments_r@ =~= histogram(next, 1));
                assert(self.moments_g@ =~= histogram(next, 2));
                assert(self.moments_b@ =~= histogram(next, 3));
            }
            i += 1;
        }
        proof {
            assert(t.take(n as int) =~= t);
            lemma_histogram_summable(t, 0);
            lemma_histogram_summable(t, 1);
            lemma_histogram_summable(t, 2);
            lemma_histogram_summable(t, 3);
        }
    }

    /// The position of cell `(r, g, b)` in a flattened histogram: `r * 33^2 + g * 33 + b`.
    pub fn get_index(r: usize, g: usize, b: usize) -> (i: usize)
        requires
            cell(r as int, g as int, b as int) <= usize::MAX,
        ensures
            i == cell(r as int, g as int, b as int),
    {
        proof {
            vstd::arithmetic::power2::lemma2_to64();
            assert(r * 1024 <= usize::MAX);
            assert(r * 64 <= usize::MAX);
            assert(g * 32 <= usize::MAX);
            vstd::bits::lemma_usize_shl_is_mul(r, 10);
            vstd::bits::lemma_usize_shl_is_mul(r, 6);
            vstd::bits::lemma_usize_shl_is_mul(g, 5);
        }
        (r << 10usize) + (r << 6usize) + r + (g << 5usize) + g + b
    }

    /// The total of `moment` over the cells of `cube`, read as the inclusion-exclusion of the
    /// eight corners of the box in a table of prefix sums.
    pub fn volume(cube: &Cube, moment: &Vec<i32>) -> (v: i32)
        requires
            moment.len() == TOTAL_SIZE,
            cube_in_grid(*cube),
            i32::MIN <= box_formula(moment@, *cube) <= i32::MAX,
        ensures
            v == box_formula(moment@, *cube),
    {
        let r0 = cube.r0 as usize;
        let r1 = cube.r1 as usize;
        let g0 = cube.g0 as usize;
        let g1 = cube.g1 as usize;
        let b0 = cube.b0 as usize;
        let b1 = cube.b1 as usize;
        let total: i64 = moment[Self::get_index(r1, g1, b1)] as i64
            - moment[Self::get_index(r1, g1, b0)] as i64
            - moment[Self::get_index(r1, g0, b1)] as i64
            + moment[Self::get_index(r1, g0, b0)] as i64
            - moment[Self::get_index(r0, g1, b1)] as i64
            + moment[Self::get_index(r0, g1, b0)] as i64
            + moment[Self::get_index(r0, g0, b1)] as i64
            - moment[Self::get_index(r0, g0, b0)] as i64;
        total as i32
    }

    /// The corners of the lower face of `cube` across `direction`, with the signs they carry
    /// in a volume.
    pub fn bottom(cube: &Cube, direction: Direction, moment: &Vec<i32>) -> (v: i32)
        requires
            moment.len() == TOTAL_SIZE,
            cube_in_grid(*cube),
            i32::MIN <= bottom_formula(moment@, *cube, direction) <= i32::MAX,
        ensures
            v == bottom_formula(moment@, *cube, direction),
    {
        let r0 = cube.r0 as usize;
        let r1 = cube.r1 as usize;
        let g0 = cube.g0 as usize;
        let g1 = cube.g1 as usize;
        let b0 = cube.b0 as usize;
        let b1 = cube.b1 as usize;
        let total: i64 = match direction {
            Direction::Red => -(moment[Self::get_index(r0, g1, b1)] as i64)
                + moment[Self::get_index(r0, g1, b0)] as i64
                + moment[Self::get_index(r0, g0, b1)] as i64
                - moment[Self::get_index(r0, g0, b0)] as i64,
            Direction::Green => -(moment[Self::get_index(r1, g0, b1)] as i64)
                + moment[Self::get_index(r1, g0, b0)] as i64
                + moment[Self::get_index(r0, g0, b1)] as i64
                - moment[Self::get_index(r0, g0, b0)] as i64,
            Direction::Blue => -(moment[Self::get_index(r1, g1, b0)] as i64)
                + moment[Self::get_index(r1, g0, b0)] as i64
                + moment[Self::get_index(r0, g1, b0)] as i64
                - moment[Self::get_index(r0, g0, b0)] as i64,
        };
        total as i32
    }

    /// The corners of the face of `cube` at `position` across `direction`, with the signs
    /// an upper face carries in a volume.
    pub fn top(cube: &Cube, direction: Direction, position: i32, moment: &Vec<i32>) -> (v: i32)
        requires
            moment.len() == TOTAL_SIZE,
            cube_in_grid(*cube),
            0 <= position <= 32,
            i32::MIN <= top_formula(moment@, *cube, direction, position as int) <= i32::MAX,
        ensures
            v == top_formula(moment@, *cube, direction, position as int),
    {
        let r0 = cube.r0 as usize;
        let r1 = cube.r1 as usize;
        let g0 = cube.g0 as usize;
        let g1 = cube.g1 as usize;
        let b0 = cube.b0 as usize;
        let b1 = cube.b1 as usize;
        let p = position as usize;
        let total: i64 = match direction {
            Direction::Red => moment[Self::get_index(p, g1, b1)] as i64
                - moment[Self::get_index(p, g1, b0)] as i64
                - moment[Self::get_index(p, g0, b1)] as i64
                + moment[Self::get_index(p, g0, b0)] as i64,
            Direction::Green => moment[Self::get_index(r1, p, b1)] as i64
                - moment[Self::get_index(r1, p, b0)] as i64
                - moment[Self::get_index(r0, p, b1)] as i64
                + moment[Self::get_index(r0, p, b0)] as i64,
            Direction::Blue => moment[Self::get_index(r1, g1, p)] as i64
                - moment[Self::get_index(r1, g0, p)] as i64
                - moment[Self::get_index(r0, g1, p)] as i64
                + moment[Self::get_index(r0, g0, p)] as i64,
        };
        total as i32
    }

    /// The colors of the first `color_count` boxes: for each box with pixels, the average of
    /// each channel over them; boxes without pixels are skipped.
    pub fn create_result(&self, color_count: usize) -> (colors: Vec<Argb>)
        requires
            color_count <= self.cubes.len(),
            self.weights.len() == TOTAL_SIZE,
            self.moments_r.len() == TOTAL_SIZE,
            self.moments_g.len() == TOTAL_SIZE,
            self.moments_b.len() == TOTAL_SIZE,
            forall|i: int|
                0 <= i < color_count ==> {
                    &&& cube_in_grid(#[trigger] self.cubes@[i])
                    &&& volume_fits(self.weights@, self.cubes@[i])
                    &&& volume_fits(self.moments_r@, self.cubes@[i])
                    &&& volume_fits(self.moments_g@, self.cubes@[i])
                    &&& volume_fits(self.moments_b@, self.cubes@[i])
                },
        ensures
            colors@ == result_colors(
                self.weights@,
                self.moments_r@,
                self.moments_g@,
                self.moments_b@,
                self.cubes@.take(color_count as int),
            ),
    {
        let mut colors: Vec<Argb> = Vec::new();
        let mut i: usize = 0;
        while i < color_count
            invariant
                i <= color_count <= self.cubes.len(),
                self.weights.len() == TOTAL_SIZE,
                self.moments_r.len() == TOTAL_SIZE,
                self.moments_g.len() == TOTAL_SIZE,
                self.moments_b.len() == TOTAL_SIZE,
                forall|j: int|
                    0 <= j < color_count ==> {
                        &&& cube_in_grid(#[trigger] self.cubes@[j])
                        &&& volume_fits(self.weights@, self.cubes@[j])
                        &&& volume_fits(self.moments_r@, self.cubes@[j])
                        &&& volume_fits(self.moments_g@, self.cubes@[j])
                        &&& volume_fits(self.moments_b@, self.cubes@[j])
                    },
                colors@ == result_colors(
                    self.weights@,
                    self.moments_r@,
                    self.moments_g@,
                    self.moments_b@,
                    self.cubes@.take(i as int),
                ),
            decreases color_count - i,
        {
            let cube = &self.cubes[i];
            proof {
                assert(self.cubes@.take(i + 1).drop_last() =~= self.cubes@.take(i as int));
                assert(self.cubes@.take(i + 1).last() == self.cubes@[i as int]);
                assert(cube_in_grid(self.cubes@[i as int]));
            }
            let weight = Self::volume(cube, &self.weights);
            if weight > 0 {
                let r = Self::volume(cube, &self.moments_r) / weight;
                let g = Self::volume(cube, &self.moments_g) / weight;
                let b = Self::volume(cube, &self.moments_b) / weight;
                let color = Argb::from_rgb((r & 0xFF) as u8, (g & 0xFF) as u8, (b & 0xFF) as u8);
                colors.push(color);
            }
            i += 1;
        }
        colors
    }

    /// Cuts box `one` at `cut_location` across `direction`: `one` keeps the part below the
    /// cut and `two` becomes the part above it; both record their number of cells.
    pub fn split(one: &mut Cube, two: &mut Cube, direction: Direction, cut_location: i32)
        requires
            cube_in_grid(*old(one)),
            cube_ordered(*old(one)),
            bounds_along(*old(one), direction).0 < cut_location < bounds_along(*old(one), direction).1,
        ensures
            *final(one) == (Cube {
                vol: cell_count(lower_part(*old(one), direction, cut_location)) as i32,
                ..lower_part(*old(one), direction, cut_location)
            }),
            *final(two) == (Cube {
                vol: cell_count(upper_part(*old(one), direction, cut_location)) as i32,
                ..upper_part(*old(one), direction, cut_location)
            }),
    {
        two.r1 = one.r1;
        two.g1 = one.g1;
        two.b1 = one.b1;
        match direction {
            Direction::Red => {
                one.r1 = cut_location;
                two.r0 = one.r1;
                two.g0 = one.g0;
                two.b0 = one.b0;
            },
            Direction::Green => {
                one.g1 = cut_location;
                two.r0 = one.r0;
                two.g0 = one.g1;
                two.b0 = one.b0;
            },
            Direction::Blue => {
                one.b1 = cut_location;
                two.r0 = one.r0;
                two.g0 = one.g0;
                two.b0 = one.b1;
            },
        }
        proof {
            lemma_cell_count_bounds(*one);
            lemma_cell_count_bounds(*two);
        }
        one.vol = (one.r1 - one.r0) * (one.g1 - one.g0) * (one.b1 - one.b0);
        two.vol = (two.r1 - two.r0) * (two.g1 - two.g0) * (two.b1 - two.b0);
    }

    /// Turns each of the four histograms into its table of prefix sums, so that the weight and
    /// the channel sums of any box can be read from eight cells.
    pub fn create_moments(&mut self)
        requires
            summable(old(self).weights@),
            summable(old(self).moments_r@),
            summable(old(self).moments_g@),
            summable(old(self).moments_b@),
        ensures
            is_prefix_table(final(self).weights@, old(self).weights@),
            is_prefix_table(final(self).moments_r@, old(self).moments_r@),
            is_prefix_table(final(self).moments_g@, old(self).moments_g@),
            is_prefix_table(final(self).moments_b@, old(self).moments_b@),
            final(self).cubes == old(self).cubes,
    {
        prefix_sums_in_place(&mut self.weights);
        prefix_sums_in_place(&mut self.moments_r);
        prefix_sums_in_place(&mut self.moments_g);
        prefix_sums_in_place(&mut self.moments_b);
    }
}

impl Default for QuantizerWu {
    /// A quantizer with four empty histograms and no boxes, as `new` makes it.
    fn default() -> (q: Self)
        ensures
            q.weights@ == Seq::new(TOTAL_SIZE as nat, |i: int| 0i32),
            q.moments_r@ == Seq::new(TOTAL_SIZE as nat, |i: int| 0i32),
            q.moments_g@ == Seq::new(TOTAL_SIZE as nat, |i: int| 0i32),
            q.moments_b@ == Seq::new(TOTAL_SIZE as nat, |i: int| 0i32),
            q.cubes@.len() == 0,
    {
        Self::new()
    }
}

fn zeros(n: usize) -> (v: Vec<i32>)
    ensures
        v@ == Seq::new(n as nat, |i: int| 0i32),
{
    let mut v: Vec<i32> = Vec::new();
    let mut i: usize = 0;
    while i < n
        invariant
            i <= n,
            v@ == Seq::new(i as nat, |j: int| 0i32),
        decreases n - i,
    {
        v.push(0);
        i += 1;
        assert(v@ =~= Seq::new(i as nat, |j: int| 0i32));
    }
    v
}

fn fill_zero(v: &mut Vec<i32>)
    ensures
        final(v)@ == Seq::new(old(v)@.len(), |i: int| 0i32),
{
    let n = v.len();
    let mut i: usize = 0;
    while i < n
        invariant
            i <= n,
            v.len() == n,
            forall|j: int| 0 <= j < i ==> v@[j] == 0,
        decreases n - i,
    {
        v.set(i, 0);
        i += 1;
    }
    assert(v@ =~= Seq::new(n as nat, |i: int| 0i32));
}

/// A histogram other than the three channel ones counts pixels, as histogram 0 does.
proof fn lemma_kind_total_other(t: Seq<(u32, u32)>, kind: int)
    requires
        kind != 1 && kind != 2 && kind != 3,
    ensures
        kind_total(t, kind) == kind_total(t, 0),
    decreases t.len(),
{
    if t.len() > 0 {
        lemma_kind_total_other(t.drop_last(), kind);
    }
}

/// In a table whose histograms fit, the total of any histogram fits an `i32`.
proof fn lemma_kind_fits(t: Seq<(u32, u32)>, kind: int)
    requires
        histogram_fits(t),
    ensures
        kind_total(t, kind) <= i32::MAX,
{
    if kind != 1 && kind != 2 && kind != 3 {
        lemma_kind_total_other(t, kind);
    }
}

/// The totals of a prefix of a table are no more than those of the table, so a prefix of a
/// table whose histograms fit has histograms that fit.
proof fn lemma_kind_total_prefix(t: Seq<(u32, u32)>, n: int)
    requires
        0 <= n <= t.len(),
    ensures
        forall|kind: int| #[trigger] kind_total(t.take(n), kind) <= kind_total(t, kind),
        histogram_fits(t) ==> histogram_fits(t.take(n)),
    decreases t.len(),
{
    lemma_histogram_bounds(t);
    if n < t.len() {
        assert(t.drop_last().take(n) =~= t.take(n));
        lemma_kind_total_prefix(t.drop_last(), n);
        let e = t.last();
        assert forall|kind: int| #[trigger] kind_total(t.take(n), kind) <= kind_total(t, kind) by {
            assert(kind_total(t.take(n), kind) <= kind_total(t.drop_last(), kind));
            lemma_entry_value_nonneg(e, kind);
        }
    } else {
        assert(t.take(n) =~= t);
    }
}

proof fn lemma_entry_value_nonneg(e: (u32, u32), kind: int)
    ensures
        0 <= entry_value(e, kind) <= 255 * e.1,
{
    let r = Argb(e.0).spec_red() as int;
    let g = Argb(e.0).spec_green() as int;
    let b = Argb(e.0).spec_blue() as int;
    assert(0 <= r * e.1 <= 255 * e.1) by (nonlinear_arith) requires 0 <= r <= 255;
    assert(0 <= g * e.1 <= 255 * e.1) by (nonlinear_arith) requires 0 <= g <= 255;
    assert(0 <= b * e.1 <= 255 * e.1) by (nonlinear_arith) requires 0 <= b <= 255;
}

/// The cell of a color lies strictly inside the cube, off the zero faces.
pub proof fn lemma_bin_in_grid(c: u32)
    ensures
        1 <= Argb(c).spec_red() as int / 8 + 1 <= 32,
        1 <= Argb(c).spec_green() as int / 8 + 1 <= 32,
        1 <= Argb(c).spec_blue() as int / 8 + 1 <= 32,
        0 <= bin_of(c) < TOTAL_SIZE,
{
}

/// Every cell of every histogram of a table lies between 0 and the total of that histogram,
/// which is at most 255 times the number of pixels.
proof fn lemma_histogram_bounds(t: Seq<(u32, u32)>)
    ensures
        forall|i: int, kind: int| 0 <= #[trigger] hist_sum(t, i, kind) <= kind_total(t, kind),
        forall|kind: int| 0 <= #[trigger] kind_total(t, kind) <= 255 * total_count(t),
    decreases t.len(),
{
    if t.len() > 0 {
        let prev = t.drop_last();
        lemma_histogram_bounds(prev);
        let e = t.last();
        assert forall|kind: int| 0 <= #[trigger] entry_value(e, kind) <= 255 * e.1 by {
            let r = Argb(e.0).spec_red() as int;
            let g = Argb(e.0).spec_green() as int;
            let b = Argb(e.0).spec_blue() as int;
            assert(0 <= r * e.1 <= 255 * e.1) by (nonlinear_arith) requires 0 <= r <= 255;
            assert(0 <= g * e.1 <= 255 * e.1) by (nonlinear_arith) requires 0 <= g <= 255;
            assert(0 <= b * e.1 <= 255 * e.1) by (nonlinear_arith) requires 0 <= b <= 255;
        }
        assert forall|i: int, kind: int| 0 <= #[trigger] hist_sum(t, i, kind) <= kind_total(t, kind) by {
            assert(0 <= hist_sum(prev, i, kind) <= kind_total(prev, kind));
            assert(0 <= entry_value(e, kind));
        }
        assert forall|kind: int| 0 <= #[trigger] kind_total(t, kind) <= 255 * total_count(t) by {
            assert(0 <= kind_total(prev, kind) <= 255 * total_count(prev));
            assert(0 <= entry_value(e, kind) <= 255 * e.1);
        }
    }
}

/// Adding the next entry of a table changes one cell of each histogram, the cell of its color.
proof fn lemma_histogram_step(prev: Seq<(u32, u32)>, next: Seq<(u32, u32)>, k: int)
    requires
        next.len() == prev.len() + 1,
        next.drop_last() == prev,
        k == bin_of(next.last().0),
    ensures
        forall|i: int, kind: int|
            #[trigger] hist_sum(next, i, kind) == hist_sum(prev, i, kind) + if i == k {
                entry_value(next.last(), kind)
            } else {
                0
            },
{
}

/// A histogram whose total fits an `i32` is padded, nonnegative and summable, and its prefix
/// sum over the whole cube is its total.
proof fn lemma_histogram_summable(t: Seq<(u32, u32)>, kind: int)
    requires
        histogram_fits(t),
    ensures
        summable(histogram(t, kind)),
        prefix_sum(histogram(t, kind), 32, 32, 32) == kind_total(t, kind),
    decreases t.len(),
{
    lemma_histogram_bounds(t);
    let h = histogram(t, kind);
    assert forall|r: int, g: int, b: int|
        in_grid(r, g, b) && (r == 0 || g == 0 || b == 0) implies #[trigger] h[cell(r, g, b)] == 0 by {
        lemma_no_entry_on_faces(t, r, g, b, kind);
    }
    if t.len() == 0 {
        lemma_prefix_of_zero(h, 32, 32, 32);
    } else {
        let prev = t.drop_last();
        lemma_kind_total_prefix(t, t.len() - 1);
        assert(t.take(t.len() - 1) =~= prev);
        lemma_histogram_summable(prev, kind);
        lemma_histogram_bounds(prev);
        let hp = histogram(prev, kind);
        let e = t.last();
        let k = bin_of(e.0);
        lemma_bin_in_grid(e.0);
        let rk = Argb(e.0).spec_red() as int / 8 + 1;
        let gk = Argb(e.0).spec_green() as int / 8 + 1;
        let bk = Argb(e.0).spec_blue() as int / 8 + 1;
        lemma_histogram_step(prev, t, k);
        assert(0 <= hist_sum(t, k, kind) <= kind_total(t, kind));
        assert(0 <= hist_sum(prev, k, kind) <= kind_total(prev, kind));
        lemma_kind_fits(t, kind);
        assert(hp[k] == hist_sum(prev, k, kind));
        assert(hp[k] + entry_value(e, kind) == hist_sum(t, k, kind));
        assert(h =~= hp.update(k, (hp[k] + entry_value(e, kind)) as i32));
        lemma_prefix_point_update(hp, h, rk, gk, bk, entry_value(e, kind), 32, 32, 32);
    }
}

proof fn lemma_no_entry_on_faces(t: Seq<(u32, u32)>, r: int, g: int, b: int, kind: int)
    requires
        in_grid(r, g, b),
        r == 0 || g == 0 || b == 0,
    ensures
        hist_sum(t, cell(r, g, b), kind) == 0,
    decreases t.len(),
{
    if t.len() > 0 {
        lemma_no_entry_on_faces(t.drop_last(), r, g, b, kind);
        lemma_bin_in_grid(t.last().0);
    }
}

proof fn lemma_prefix_of_zero(o: Seq<i32>, r: int, g: int, b: int)
    requires
        o.len() == TOTAL_SIZE,
        forall|i: int| 0 <= i < TOTAL_SIZE ==> o[i] == 0,
        in_grid(r, g, b),
    ensures
        prefix_sum(o, r, g, b) == 0,
    decreases r,
{
    if r > 0 {
        lemma_prefix_of_zero(o, r - 1, g, b);
        lemma_plane_of_zero(o, r, g, b);
    }
}

proof fn lemma_plane_of_zero(o: Seq<i32>, r: int, g: int, b: int)
    requires
        o.len() == TOTAL_SIZE,
        forall|i: int| 0 <= i < TOTAL_SIZE ==> o[i] == 0,
        in_grid(r, g, b),
    ensures
        plane_sum(o, r, g, b) == 0,
    decreases g,
{
    if g > 0 {
        lemma_plane_of_zero(o, r, g - 1, b);
        lemma_row_of_zero(o, r, g, b);
    }
}

proof fn lemma_row_of_zero(o: Seq<i32>, r: int, g: int, b: int)
    requires
        o.len() == TOTAL_SIZE,
        forall|i: int| 0 <= i < TOTAL_SIZE ==> o[i] == 0,
        in_grid(r, g, b),
    ensures
        row_sum(o, r, g, b) == 0,
    decreases b,
{
    if b > 0 {
        lemma_row_of_zero(o, r, g, b - 1);
    }
}

proof fn lemma_row_point_update(o: Seq<i32>, o2: Seq<i32>, rk: int, gk: int, bk: int, d: int, r: int, g: int, b: int)
    requires
        o.len() == TOTAL_SIZE,
        in_grid(rk, gk, bk),
        bk >= 1,
        o2 == o.update(cell(rk, gk, bk), (o[cell(rk, gk, bk)] + d) as i32),
        o[cell(rk, gk, bk)] + d == (o[cell(rk, gk, bk)] + d) as i32,
        in_grid(r, g, b),
    ensures
        row_sum(o2, r, g, b) == row_sum(o, r, g, b) + if r == rk && g == gk && bk <= b { d } else { 0 },
    decreases b,
{
    if b > 0 {
        lemma_row_point_update(o, o2, rk, gk, bk, d, r, g, b - 1);
    }
}

proof fn lemma_plane_point_update(o: Seq<i32>, o2: Seq<i32>, rk: int, gk: int, bk: int, d: int, r: int, g: int, b: int)
    requires
        o.len() == TOTAL_SIZE,
        in_grid(rk, gk, bk),
        bk >= 1,
        gk >= 1,
        o2 == o.update(cell(rk, gk, bk), (o[cell(rk, gk, bk)] + d) as i32),
        o[cell(rk, gk, bk)] + d == (o[cell(rk, gk, bk)] + d) as i32,
        in_grid(r, g, b),
    ensures
        plane_sum(o2, r, g, b) == plane_sum(o, r, g, b) + if r == rk && gk <= g && bk <= b { d } else { 0 },
    decreases g,
{
    if g > 0 {
        lemma_plane_point_update(o, o2, rk, gk, bk, d, r, g - 1, b);
        lemma_row_point_update(o, o2, rk, gk, bk, d, r, g, b);
    }
}

proof fn lemma_prefix_point_update(o: Seq<i32>, o2: Seq<i32>, rk: int, gk: int, bk: int, d: int, r: int, g: int, b: int)
    requires
        o.len() == TOTAL_SIZE,
        in_grid(rk, gk, bk),
        bk >= 1,
        gk >= 1,
        rk >= 1,
        o2 == o.update(cell(rk, gk, bk), (o[cell(rk, gk, bk)] + d) as i32),
        o[cell(rk, gk, bk)] + d == (o[cell(rk, gk, bk)] + d) as i32,
        in_grid(r, g, b),
    ensures
        prefix_sum(o2, r, g, b) == prefix_sum(o, r, g, b) + if rk <= r && gk <= g && bk <= b { d } else { 0 },
    decreases r,
{
    if r > 0 {
        lemma_prefix_point_update(o, o2, rk, gk, bk, d, r - 1, g, b);
        lemma_plane_point_update(o, o2, rk, gk, bk, d, r, g, b);
    }
}

fn zero_line() -> (v: Vec<i32>)
    ensures
        v.len() == INDEX_COUNT,
        forall|i: int| 0 <= i < INDEX_COUNT ==> v@[i] == 0,
{
    let mut v: Vec<i32> = Vec::new();
    let mut i: usize = 0;
    while i < INDEX_COUNT
        invariant
            i <= INDEX_COUNT,
            v.len() == i,
            forall|j: int| 0 <= j < i ==> v@[j] == 0,
        decreases INDEX_COUNT - i,
    {
        v.push(0);
        i += 1;
    }
    v
}

fn prefix_sums_in_place(v: &mut Vec<i32>)
    requires
        summable(old(v)@),
    ensures
        is_prefix_table(final(v)@, old(v)@),
{
    let ghost o = v@;
    proof {
        lemma_zero_faces(o);
    }
    let mut r: usize = 1;
    while r < INDEX_COUNT
        invariant
            1 <= r <= INDEX_COUNT,
            summable(o),
            v.len() == TOTAL_SIZE,
            forall|r2: int, g2: int, b2: int|
                in_grid(r2, g2, b2) ==> #[trigger] v@[cell(r2, g2, b2)] == if r2 < r {
                    prefix_sum(o, r2, g2, b2)
                } else {
                    o[cell(r2, g2, b2)] as int
                },
            forall|r2: int, g2: int, b2: int|
                in_grid(r2, g2, b2) && (r2 == 0 || g2 == 0 || b2 == 0) ==> #[trigger] prefix_sum(
                    o,
                    r2,
                    g2,
                    b2,
                ) == 0,
        decreases INDEX_COUNT - r,
    {
        let mut area = zero_line();
        let mut g: usize = 1;
        while g < INDEX_COUNT
            invariant
                1 <= r < INDEX_COUNT,
                1 <= g <= INDEX_COUNT,
                summable(o),
                v.len() == TOTAL_SIZE,
                area.len() == INDEX_COUNT,
                forall|b2: int| 1 <= b2 <= 32 ==> #[trigger] area@[b2] == plane_sum(o, r as int, g - 1, b2),
                forall|r2: int, g2: int, b2: int|
                    in_grid(r2, g2, b2) ==> #[trigger] v@[cell(r2, g2, b2)] == if r2 < r || (r2
                        == r && 1 <= g2 < g) {
                        prefix_sum(o, r2, g2, b2)
                    } else {
                        o[cell(r2, g2, b2)] as int
                    },
                forall|r2: int, g2: int, b2: int|
                    in_grid(r2, g2, b2) && (r2 == 0 || g2 == 0 || b2 == 0) ==> #[trigger] prefix_sum(
                        o,
                        r2,
                        g2,
                        b2,
                    ) == 0,
            decreases INDEX_COUNT - g,
        {
            let mut line: i32 = 0;
            let mut b: usize = 1;
            while b < INDEX_COUNT
                invariant
                    1 <= r < INDEX_COUNT,
                    1 <= g < INDEX_COUNT,
                    1 <= b <= INDEX_COUNT,
                    summable(o),
                    v.len() == TOTAL_SIZE,
                    area.len() == INDEX_COUNT,
                    line == row_sum(o, r as int, g as int, b - 1),
                    forall|b2: int|
                        1 <= b2 <= 32 ==> #[trigger] area@[b2] == if b2 < b {
                            plane_sum(o, r as int, g as int, b2)
                        } else {
                            plane_sum(o, r as int, g - 1, b2)
                        },
                    forall|r2: int, g2: int, b2: int|
                        in_grid(r2, g2, b2) ==> #[trigger] v@[cell(r2, g2, b2)] == if r2 < r || (
                        r2 == r && 1 <= g2 < g) || (r2 == r && g2 == g && 1 <= b2 < b) {
                            prefix_sum(o, r2, g2, b2)
                        } else {
                            o[cell(r2, g2, b2)] as int
                        },
                    forall|r2: int, g2: int, b2: int|
                        in_grid(r2, g2, b2) && (r2 == 0 || g2 == 0 || b2 == 0) ==> #[trigger] prefix_sum(
                            o,
                            r2,
                            g2,
                            b2,
                        ) == 0,
                decreases INDEX_COUNT - b,
            {
                let index = QuantizerWu::get_index(r, g, b);
                proof {
                    lemma_sums_bounded(o, r as int, g as int, b as int);
                    assert(v@[cell(r as int, g as int, b as int)] == o[cell(r as int, g as int, b as int)]);
                    assert(area@[b as int] == plane_sum(o, r as int, g - 1, b as int));
                }
                line = line + v[index];
                let new_area = area[b] + line;
                area.set(b, new_area);
                let previous_index = QuantizerWu::get_index(r - 1, g, b);
                proof {
                    assert(v@[cell(r - 1, g as int, b as int)] == prefix_sum(o, r - 1, g as int, b as int));
                }
                let value = v[previous_index] + new_area;
                v.set(index, value);
                b += 1;
            }
            g += 1;
        }
        r += 1;
    }
}

/// Cutting a box at `position` across `direction`: the bottom and the top at that position
/// add up to the volume of the part of the box below the cut.
pub proof fn lemma_bottom_plus_top(m: Seq<i32>, c: Cube, direction: Direction, position: i32)
    ensures
        bottom_formula(m, c, direction) + top_formula(m, c, direction, position as int)
            == box_formula(m, lower_part(c, direction, position)),
{
}

proof fn lemma_row_difference(o: Seq<i32>, r: int, g: int, b0: int, b1: int)
    requires
        0 <= b0 <= b1,
    ensures
        row_sum(o, r, g, b1) - row_sum(o, r, g, b0) == span_b(o, r, g, b0, b1),
    decreases b1 - b0,
{
    if b1 > b0 {
        lemma_row_difference(o, r, g, b0, b1 - 1);
    }
}

proof fn lemma_plane_difference(o: Seq<i32>, r: int, g0: int, g1: int, b0: int, b1: int)
    requires
        0 <= g0 <= g1,
        0 <= b0 <= b1,
    ensures
        plane_sum(o, r, g1, b1) - plane_sum(o, r, g1, b0) - plane_sum(o, r, g0, b1) + plane_sum(
            o,
            r,
            g0,
            b0,
        ) == span_gb(o, r, g0, g1, b0, b1),
    decreases g1 - g0,
{
    if g1 > g0 {
        lemma_plane_difference(o, r, g0, g1 - 1, b0, b1);
        lemma_row_difference(o, r, g1, b0, b1);
    }
}

proof fn lemma_prefix_difference(o: Seq<i32>, r0: int, r1: int, g0: int, g1: int, b0: int, b1: int)
    requires
        0 <= r0 <= r1,
        0 <= g0 <= g1,
        0 <= b0 <= b1,
    ensures
        prefix_sum(o, r1, g1, b1) - prefix_sum(o, r1, g1, b0) - prefix_sum(o, r1, g0, b1)
            + prefix_sum(o, r1, g0, b0) - prefix_sum(o, r0, g1, b1) + prefix_sum(o, r0, g1, b0)
            + prefix_sum(o, r0, g0, b1) - prefix_sum(o, r0, g0, b0) == box_total(
            o,
            r0,
            r1,
            g0,
            g1,
            b0,
            b1,
        ),
    decreases r1 - r0,
{
    if r1 > r0 {
        lemma_prefix_difference(o, r0, r1 - 1, g0, g1, b0, b1);
        lemma_plane_difference(o, r1, g0, g1, b0, b1);
    }
}

/// In a table of prefix sums, the volume of a box is the total that the underlying histogram
/// holds in the cells of the box.
pub proof fn lemma_volume_is_box_total(w: Seq<i32>, o: Seq<i32>, c: Cube)
    requires
        is_prefix_table(w, o),
        cube_in_grid(c),
        cube_ordered(c),
    ensures
        box_formula(w, c) == box_total(
            o,
            c.r0 as int,
            c.r1 as int,
            c.g0 as int,
            c.g1 as int,
            c.b0 as int,
            c.b1 as int,
        ),
{
    let (r0, r1, g0, g1, b0, b1) = (c.r0 as int, c.r1 as int, c.g0 as int, c.g1 as int, c.b0 as int, c.b1 as int);
    assert(w[cell(r1, g1, b1)] == prefix_sum(o, r1, g1, b1));
    assert(w[cell(r1, g1, b0)] == prefix_sum(o, r1, g1, b0));
    assert(w[cell(r1, g0, b1)] == prefix_sum(o, r1, g0, b1));
    assert(w[cell(r1, g0, b0)] == prefix_sum(o, r1, g0, b0));
    assert(w[cell(r0, g1, b1)] == prefix_sum(o, r0, g1, b1));
    assert(w[cell(r0, g1, b0)] == prefix_sum(o, r0, g1, b0));
    assert(w[cell(r0, g0, b1)] == prefix_sum(o, r0, g0, b1));
    assert(w[cell(r0, g0, b0)] == prefix_sum(o, r0, g0, b0));
    lemma_prefix_difference(o, r0, r1, g0, g1, b0, b1);
}

/// The box that covers the whole histogram.
pub open spec fn whole_cube() -> Cube {
    Cube { r0: 0, r1: 32, g0: 0, g1: 32, b0: 0, b1: 32, vol: 32768 }
}

/// The counts of a table make up histogram 0.
pub proof fn lemma_kind_total_is_count(t: Seq<(u32, u32)>)
    ensures
        kind_total(t, 0) == total_count(t),
    decreases t.len(),
{
    if t.len() > 0 {
        lemma_kind_total_is_count(t.drop_last());
    }
}

/// After the histograms of a table are built and summed, the volume of the whole cube is the
/// total of the histogram; for the weights, the number of pixels.
pub proof fn lemma_whole_cube_volume(t: Seq<(u32, u32)>, kind: int, w: Seq<i32>)
    requires
        histogram_fits(t),
        is_prefix_table(w, histogram(t, kind)),
    ensures
        box_formula(w, whole_cube()) == kind_total(t, kind),
        kind == 0 ==> box_formula(w, whole_cube()) == total_count(t),
{
    let h = histogram(t, kind);
    lemma_histogram_summable(t, kind);
    lemma_zero_faces(h);
    lemma_kind_total_is_count(t);
    assert(w[cell(32, 32, 32)] == prefix_sum(h, 32, 32, 32));
    assert(w[cell(32, 32, 0)] == prefix_sum(h, 32, 32, 0));
    assert(w[cell(32, 0, 32)] == prefix_sum(h, 32, 0, 32));
    assert(w[cell(32, 0, 0)] == prefix_sum(h, 32, 0, 0));
    assert(w[cell(0, 32, 32)] == prefix_sum(h, 0, 32, 32));
    assert(w[cell(0, 32, 0)] == prefix_sum(h, 0, 32, 0));
    assert(w[cell(0, 0, 32)] == prefix_sum(h, 0, 0, 32));
    assert(w[cell(0, 0, 0)] == prefix_sum(h, 0, 0, 0));
}

/// In each cell, a channel histogram holds at most 255 times the weight.
proof fn lemma_channel_within_weight(t: Seq<(u32, u32)>, i: int, kind: int)
    requires
        1 <= kind <= 3,
    ensures
        0 <= hist_sum(t, i, kind) <= 255 * hist_sum(t, i, 0),
    decreases t.len(),
{
    if t.len() > 0 {
        lemma_channel_within_weight(t.drop_last(), i, kind);
        let e = t.last();
        let r = Argb(e.0).spec_red() as int;
        let g = Argb(e.0).spec_green() as int;
        let b = Argb(e.0).spec_blue() as int;
        assert(0 <= r * e.1 <= 255 * e.1) by (nonlinear_arith) requires 0 <= r <= 255;
        assert(0 <= g * e.1 <= 255 * e.1) by (nonlinear_arith) requires 0 <= g <= 255;
        assert(0 <= b * e.1 <= 255 * e.1) by (nonlinear_arith) requires 0 <= b <= 255;
    }
}

/// Cells bounded by 255 times the cells of another table stay so bounded when summed over a box.
proof fn lemma_box_total_dominated(a: Seq<i32>, w: Seq<i32>, r0: int, r1: int, g0: int, g1: int, b0: int, b1: int)
    requires
        forall|r: int, g: int, b: int|
            in_grid(r, g, b) ==> 0 <= #[trigger] a[cell(r, g, b)] <= 255 * w[cell(r, g, b)],
        0 <= r0 <= r1 <= 32,
        0 <= g0 <= g1 <= 32,
        0 <= b0 <= b1 <= 32,
    ensures
        0 <= box_total(a, r0, r1, g0, g1, b0, b1) <= 255 * box_total(w, r0, r1, g0, g1, b0, b1),
    decreases r1 - r0,
{
    if r1 > r0 {
        lemma_box_total_dominated(a, w, r0, r1 - 1, g0, g1, b0, b1);
        lemma_span_gb_dominated(a, w, r1, g0, g1, b0, b1);
    }
}

proof fn lemma_span_gb_dominated(a: Seq<i32>, w: Seq<i32>, r: int, g0: int, g1: int, b0: int, b1: int)
    requires
        forall|r: int, g: int, b: int|
            in_grid(r, g, b) ==> 0 <= #[trigger] a[cell(r, g, b)] <= 255 * w[cell(r, g, b)],
        0 <= r <= 32,
        0 <= g0 <= g1 <= 32,
        0 <= b0 <= b1 <= 32,
    ensures
        0 <= span_gb(a, r, g0, g1, b0, b1) <= 255 * span_gb(w, r, g0, g1, b0, b1),
    decreases g1 - g0,
{
    if g1 > g0 {
        lemma_span_gb_dominated(a, w, r, g0, g1 - 1, b0, b1);
        lemma_span_b_dominated(a, w, r, g1, b0, b1);
    }
}

proof fn lemma_span_b_dominated(a: Seq<i32>, w: Seq<i32>, r: int, g: int, b0: int, b1: int)
    requires
        forall|r: int, g: int, b: int|
            in_grid(r, g, b) ==> 0 <= #[trigger] a[cell(r, g, b)] <= 255 * w[cell(r, g, b)],
        0 <= r <= 32,
        0 <= g <= 32,
        0 <= b0 <= b1 <= 32,
    ensures
        0 <= span_b(a, r, g, b0, b1) <= 255 * span_b(w, r, g, b0, b1),
    decreases b1 - b0,
{
    if b1 > b0 {
        lemma_span_b_dominated(a, w, r, g, b0, b1 - 1);
        assert(0 <= a[cell(r, g, b1)] <= 255 * w[cell(r, g, b1)]);
    }
}

/// The mean of channel histogram `kind` over the pixels of a box: its total divided by the
/// number of pixels, rounded down.
pub open spec fn box_mean(t: Seq<(u32, u32)>, c: Cube, kind: int) -> int {
    box_total(histogram(t, kind), c.r0 as int, c.r1 as int, c.g0 as int, c.g1 as int, c.b0 as int, c.b1 as int)
        / box_total(histogram(t, 0), c.r0 as int, c.r1 as int, c.g0 as int, c.g1 as int, c.b0 as int, c.b1 as int)
}

/// When the four tables are the summed histograms of a table of color counts, the color that
/// a box with pixels stands for has, in each channel, the mean of that channel over the pixels
/// of the box; the mean is a channel value, so nothing of it is cut off.
pub proof fn lemma_cube_color_is_mean(
    t: Seq<(u32, u32)>,
    w: Seq<i32>,
    mr: Seq<i32>,
    mg: Seq<i32>,
    mb: Seq<i32>,
    c: Cube,
)
    requires
        histogram_fits(t),
        is_prefix_table(w, histogram(t, 0)),
        is_prefix_table(mr, histogram(t, 1)),
        is_prefix_table(mg, histogram(t, 2)),
        is_prefix_table(mb, histogram(t, 3)),
        cube_in_grid(c),
        cube_ordered(c),
        box_formula(w, c) > 0,
    ensures
        0 <= box_mean(t, c, 1) <= 255,
        0 <= box_mean(t, c, 2) <= 255,
        0 <= box_mean(t, c, 3) <= 255,
        cube_color(w, mr, mg, mb, c) == Some(
            Argb(pack_rgb(box_mean(t, c, 1) as u8, box_mean(t, c, 2) as u8, box_mean(t, c, 3) as u8)),
        ),
{
    lemma_volume_is_box_total(w, histogram(t, 0), c);
    lemma_volume_is_box_total(mr, histogram(t, 1), c);
    lemma_volume_is_box_total(mg, histogram(t, 2), c);
    lemma_volume_is_box_total(mb, histogram(t, 3), c);
    lemma_histogram_bounds(t);
    let (r0, r1, g0, g1, b0, b1) = (c.r0 as int, c.r1 as int, c.g0 as int, c.g1 as int, c.b0 as int, c.b1 as int);
    let weight = box_formula(w, c);
    assert forall|kind: int| 1 <= kind <= 3 implies 0 <= #[trigger] box_mean(t, c, kind) <= 255 && box_mean(
        t,
        c,
        kind,
    ) == trunc_div(box_total(histogram(t, kind), r0, r1, g0, g1, b0, b1), weight) by {
        let a = histogram(t, kind);
        let h = histogram(t, 0);
        assert forall|r: int, g: int, b: int| in_grid(r, g, b) implies 0 <= #[trigger] a[cell(r, g, b)]
            <= 255 * h[cell(r, g, b)] by {
            lemma_channel_within_weight(t, cell(r, g, b), kind);
            assert(hist_sum(t, cell(r, g, b), kind) <= kind_total(t, kind));
            assert(hist_sum(t, cell(r, g, b), 0) <= kind_total(t, 0));
            lemma_kind_fits(t, kind);
            lemma_kind_fits(t, 0);
        }
        lemma_box_total_dominated(a, h, r0, r1, g0, g1, b0, b1);
        let x = box_total(a, r0, r1, g0, g1, b0, b1);
        assert(0 <= x / weight <= 255) by (nonlinear_arith)
            requires 0 <= x <= 255 * weight, weight > 0;
    }
    let mean_r = box_mean(t, c, 1);
    let mean_g = box_mean(t, c, 2);
    let mean_b = box_mean(t, c, 3);
    assert(0 <= mean_r <= 255 && 0 <= mean_g <= 255 && 0 <= mean_b <= 255);
    let xr = mean_r as i32;
    let xg = mean_g as i32;
    let xb = mean_b as i32;
    assert(0 <= xr <= 255 ==> (xr & 0xFFi32) as u8 == xr as u8) by (bit_vector);
    assert(0 <= xg <= 255 ==> (xg & 0xFFi32) as u8 == xg as u8) by (bit_vector);
    assert(0 <= xb <= 255 ==> (xb & 0xFFi32) as u8 == xb as u8) by (bit_vector);
}

/// Adding a color with `n` pixels to a table adds, in the cell of that color, `n` to the weight
/// and `n` times the red, green and blue value to the channel sums, and leaves every other cell
/// as it was: the channel histograms count each channel once per pixel.
pub proof fn lemma_histogram_adds_pixels(t: Seq<(u32, u32)>, c: u32, n: u32, i: int)
    ensures
        i == bin_of(c) ==> {
            &&& hist_sum(t.push((c, n)), i, 0) == hist_sum(t, i, 0) + n
            &&& hist_sum(t.push((c, n)), i, 1) == hist_sum(t, i, 1) + Argb(c).spec_red() * n
            &&& hist_sum(t.push((c, n)), i, 2) == hist_sum(t, i, 2) + Argb(c).spec_green() * n
            &&& hist_sum(t.push((c, n)), i, 3) == hist_sum(t, i, 3) + Argb(c).spec_blue() * n
        },
        i != bin_of(c) ==> forall|kind: int| #[trigger] hist_sum(t.push((c, n)), i, kind) == hist_sum(t, i, kind),
{
    let u = t.push((c, n));
    assert(u.drop_last() =~= t);
    assert(u.last() == (c, n));
    lemma_histogram_step(t, u, bin_of(c));
}

/// The color that the whole cube stands for when the tables are the summed histograms of an
/// image of `n` pixels, all of color `c`: `c` itself, made opaque. Each channel's mean over the
/// `n` pixels is the channel, which holds only because the histograms add every channel value
/// once per pixel.
pub proof fn lemma_single_color_image(c: u32, n: u32, w: Seq<i32>, mr: Seq<i32>, mg: Seq<i32>, mb: Seq<i32>)
    requires
        0 < n,
        255 * n <= i32::MAX,
        is_prefix_table(w, histogram(seq![(c, n)], 0)),
        is_prefix_table(mr, histogram(seq![(c, n)], 1)),
        is_prefix_table(mg, histogram(seq![(c, n)], 2)),
        is_prefix_table(mb, histogram(seq![(c, n)], 3)),
    ensures
        cube_color(w, mr, mg, mb, whole_cube()) == Some(
            Argb(pack_rgb(Argb(c).spec_red(), Argb(c).spec_green(), Argb(c).spec_blue())),
        ),
        result_colors(w, mr, mg, mb, seq![whole_cube()]) == seq![
            Argb(pack_rgb(Argb(c).spec_red(), Argb(c).spec_green(), Argb(c).spec_blue())),
        ],
{
    let t = seq![(c, n)];
    let e = (c, n);
    assert(t.drop_last() =~= Seq::<(u32, u32)>::empty());
    assert(t.last() == e);
    lemma_entry_value_nonneg(e, 0);
    lemma_entry_value_nonneg(e, 1);
    lemma_entry_value_nonneg(e, 2);
    lemma_entry_value_nonneg(e, 3);
    let empty = Seq::<(u32, u32)>::empty();
    assert(kind_total(empty, 0) == 0);
    assert(kind_total(empty, 1) == 0);
    assert(kind_total(empty, 2) == 0);
    assert(kind_total(empty, 3) == 0);
    assert(kind_total(t, 0) == n);
    assert(kind_total(t, 1) == Argb(c).spec_red() * n);
    assert(kind_total(t, 2) == Argb(c).spec_green() * n);
    assert(kind_total(t, 3) == Argb(c).spec_blue() * n);
    assert(histogram_fits(t));
    let whole = whole_cube();
    lemma_whole_cube_volume(t, 0, w);
    lemma_whole_cube_volume(t, 1, mr);
    lemma_whole_cube_volume(t, 2, mg);
    lemma_whole_cube_volume(t, 3, mb);
    lemma_volume_is_box_total(w, histogram(t, 0), whole);
    lemma_volume_is_box_total(mr, histogram(t, 1), whole);
    lemma_volume_is_box_total(mg, histogram(t, 2), whole);
    lemma_volume_is_box_total(mb, histogram(t, 3), whole);
    lemma_cube_color_is_mean(t, w, mr, mg, mb, whole);
    let (r, g, b) = (Argb(c).spec_red() as int, Argb(c).spec_green() as int, Argb(c).spec_blue() as int);
    assert((r * n) / (n as int) == r) by (nonlinear_arith) requires n > 0;
    assert((g * n) / (n as int) == g) by (nonlinear_arith) requires n > 0;
    assert((b * n) / (n as int) == b) by (nonlinear_arith) requires n > 0;
    assert(box_mean(t, whole, 1) == r);
    assert(box_mean(t, whole, 2) == g);
    assert(box_mean(t, whole, 3) == b);
    let cs = seq![whole];
    assert(cs.drop_last() =~= Seq::<Cube>::empty());
    assert(result_colors(w, mr, mg, mb, cs.drop_last()) =~= Seq::<Argb>::empty());
}

proof fn lemma_cell_count_bounds(c: Cube)
    requires
        cube_in_grid(c),
        cube_ordered(c),
    ensures
        0 <= (c.r1 - c.r0) * (c.g1 - c.g0) <= 1024,
        0 <= cell_count(c) <= 32768,
{
    let dr = c.r1 - c.r0;
    let dg = c.g1 - c.g0;
    let db = c.b1 - c.b0;
    assert(0 <= dr * dg <= 1024) by (nonlinear_arith) requires 0 <= dr <= 32, 0 <= dg <= 32;
    assert(0 <= dr * dg * db <= 32768) by (nonlinear_arith)
        requires 0 <= dr * dg <= 1024, 0 <= db <= 32;
}

proof fn lemma_span_b_split(o: Seq<i32>, r: int, g: int, b0: int, c: int, b1: int)
    requires
        b0 <= c <= b1,
    ensures
        span_b(o, r, g, b0, c) + span_b(o, r, g, c, b1) == span_b(o, r, g, b0, b1),
    decreases b1 - c,
{
    if b1 > c {
        lemma_span_b_split(o, r, g, b0, c, b1 - 1);
    }
}

proof fn lemma_span_gb_split_g(o: Seq<i32>, r: int, g0: int, c: int, g1: int, b0: int, b1: int)
    requires
        g0 <= c <= g1,
    ensures
        span_gb(o, r, g0, c, b0, b1) + span_gb(o, r, c, g1, b0, b1) == span_gb(o, r, g0, g1, b0, b1),
    decreases g1 - c,
{
    if g1 > c {
        lemma_span_gb_split_g(o, r, g0, c, g1 - 1, b0, b1);
    }
}

proof fn lemma_span_gb_split_b(o: Seq<i32>, r: int, g0: int, g1: int, b0: int, c: int, b1: int)
    requires
        b0 <= c <= b1,
    ensures
        span_gb(o, r, g0, g1, b0, c) + span_gb(o, r, g0, g1, c, b1) == span_gb(o, r, g0, g1, b0, b1),
    decreases g1 - g0,
{
    if g1 > g0 {
        lemma_span_gb_split_b(o, r, g0, g1 - 1, b0, c, b1);
        lemma_span_b_split(o, r, g1, b0, c, b1);
    }
}

proof fn lemma_box_total_split_r(o: Seq<i32>, r0: int, c: int, r1: int, g0: int, g1: int, b0: int, b1: int)
    requires
        r0 <= c <= r1,
    ensures
        box_total(o, r0, c, g0, g1, b0, b1) + box_total(o, c, r1, g0, g1, b0, b1) == box_total(
            o,
            r0,
            r1,
            g0,
            g1,
            b0,
            b1,
        ),
    decreases r1 - c,
{
    if r1 > c {
        lemma_box_total_split_r(o, r0, c, r1 - 1, g0, g1, b0, b1);
    }
}

proof fn lemma_box_total_split_g(o: Seq<i32>, r0: int, r1: int, g0: int, c: int, g1: int, b0: int, b1: int)
    requires
        g0 <= c <= g1,
    ensures
        box_total(o, r0, r1, g0, c, b0, b1) + box_total(o, r0, r1, c, g1, b0, b1) == box_total(
            o,
            r0,
            r1,
            g0,
            g1,
            b0,
            b1,
        ),
    decreases r1 - r0,
{
    if r1 > r0 {
        lemma_box_total_split_g(o, r0, r1 - 1, g0, c, g1, b0, b1);
        lemma_span_gb_split_g(o, r1, g0, c, g1, b0, b1);
    }
}

proof fn lemma_box_total_split_b(o: Seq<i32>, r0: int, r1: int, g0: int, g1: int, b0: int, c: int, b1: int)
    requires
        b0 <= c <= b1,
    ensures
        box_total(o, r0, r1, g0, g1, b0, c) + box_total(o, r0, r1, g0, g1, c, b1) == box_total(
            o,
            r0,
            r1,
            g0,
            g1,
            b0,
            b1,
        ),
    decreases r1 - r0,
{
    if r1 > r0 {
        lemma_box_total_split_b(o, r0, r1 - 1, g0, g1, b0, c, b1);
        lemma_span_gb_split_b(o, r1, g0, g1, b0, c, b1);
    }
}

/// Cutting a box loses nothing and counts nothing twice: the totals of the part below the cut
/// and the part above it add up to the total of the box, in any histogram.
pub proof fn lemma_split_partitions_box(o: Seq<i32>, c: Cube, direction: Direction, position: i32)
    requires
        cube_ordered(c),
        bounds_along(c, direction).0 <= position <= bounds_along(c, direction).1,
    ensures
        cube_total(o, lower_part(c, direction, position)) + cube_total(o, upper_part(c, direction, position))
            == cube_total(o, c),
{
    let (r0, r1, g0, g1, b0, b1) = (c.r0 as int, c.r1 as int, c.g0 as int, c.g1 as int, c.b0 as int, c.b1 as int);
    match direction {
        Direction::Red => lemma_box_total_split_r(o, r0, position as int, r1, g0, g1, b0, b1),
        Direction::Green => lemma_box_total_split_g(o, r0, r1, g0, position as int, g1, b0, b1),
        Direction::Blue => lemma_box_total_split_b(o, r0, r1, g0, g1, b0, position as int, b1),
    }
}

/// The boxes after cutting box `k` of a list at `position` across `direction`: box `k` keeps the
/// part below the cut and the part above it is added last, as the boxes of the Wu quantizer are
/// cut by `QuantizerWu::split`.
pub open spec fn cut_boxes(boxes: Seq<Cube>, k: int, direction: Direction, position: i32) -> Seq<Cube> {
    boxes.update(k, lower_part(boxes[k], direction, position)).push(
        upper_part(boxes[k], direction, position),
    )
}

/// The total of table `o` over a list of boxes.
pub open spec fn boxes_total(o: Seq<i32>, boxes: Seq<Cube>) -> int
    decreases boxes.len(),
{
    if boxes.len() == 0 {
        0
    } else {
        boxes_total(o, boxes.drop_last()) + cube_total(o, boxes.last())
    }
}

proof fn lemma_boxes_total_update(o: Seq<i32>, boxes: Seq<Cube>, k: int, c: Cube)
    requires
        0 <= k < boxes.len(),
    ensures
        boxes_total(o, boxes.update(k, c)) == boxes_total(o, boxes) - cube_total(o, boxes[k])
            + cube_total(o, c),
    decreases boxes.len(),
{
    let u = boxes.update(k, c);
    if k == boxes.len() - 1 {
        assert(u.drop_last() =~= boxes.drop_last());
    } else {
        lemma_boxes_total_update(o, boxes.drop_last(), k, c);
        assert(u.drop_last() =~= boxes.drop_last().update(k, c));
    }
}

/// Cutting one box of a list into its two parts keeps the total of every table over the list:
/// however the quantizer goes on cutting, its boxes share out exactly the pixels, and the channel
/// sums, of the boxes they came from. Both parts keep their bounds ordered.
pub proof fn lemma_cut_keeps_totals(o: Seq<i32>, boxes: Seq<Cube>, k: int, direction: Direction, position: i32)
    requires
        0 <= k < boxes.len(),
        cube_ordered(boxes[k]),
        bounds_along(boxes[k], direction).0 <= position <= bounds_along(boxes[k], direction).1,
    ensures
        boxes_total(o, cut_boxes(boxes, k, direction, position)) == boxes_total(o, boxes),
        cube_ordered(lower_part(boxes[k], direction, position)),
        cube_ordered(upper_part(boxes[k], direction, position)),
{
    let c = boxes[k];
    let lower = lower_part(c, direction, position);
    let upper = upper_part(c, direction, position);
    let updated = boxes.update(k, lower);
    lemma_boxes_total_update(o, boxes, k, lower);
    lemma_split_partitions_box(o, c, direction, position);
    let cut = cut_boxes(boxes, k, direction, position);
    assert(cut.drop_last() =~= updated);
    assert(cut.last() == upper);
}

/// The two parts of a cut box have as many cells together as the box.
pub proof fn lemma_split_partitions_cells(c: Cube, direction: Direction, position: i32)
    requires
        cube_ordered(c),
        bounds_along(c, direction).0 <= position <= bounds_along(c, direction).1,
    ensures
        cell_count(lower_part(c, direction, position)) + cell_count(upper_part(c, direction, position))
            == cell_count(c),
{
    let dr = c.r1 - c.r0;
    let dg = c.g1 - c.g0;
    let db = c.b1 - c.b0;
    match direction {
        Direction::Red => {
            assert((position - c.r0) * dg * db + (c.r1 - position) * dg * db == dr * dg * db)
                by (nonlinear_arith) requires dr == c.r1 - c.r0;
        },
        Direction::Green => {
            assert(dr * (position - c.g0) * db + dr * (c.g1 - position) * db == dr * dg * db)
                by (nonlinear_arith) requires dg == c.g1 - c.g0;
        },
        Direction::Blue => {
            assert(dr * dg * (position - c.b0) + dr * dg * (c.b1 - position) == dr * dg * db)
                by (nonlinear_arith) requires db == c.b1 - c.b0;
        },
    }
}

proof fn lemma_span_b_within_row(o: Seq<i32>, r: int, g: int, b0: int, b1: int)
    requires
        o.len() == TOTAL_SIZE,
        nonnegative(o),
        0 <= r <= 32,
        0 <= g <= 32,
        0 <= b0 <= b1 <= 32,
    ensures
        0 <= span_b(o, r, g, b0, b1) <= row_sum(o, r, g, b1),
    decreases b1 - b0,
{
    lemma_row_difference(o, r, g, b0, b1);
    lemma_row_mono(o, r, g, 0, b0);
    lemma_row_mono(o, r, g, b0, b1);
}

proof fn lemma_span_gb_within_plane(o: Seq<i32>, r: int, g0: int, g1: int, b0: int, b1: int)
    requires
        o.len() == TOTAL_SIZE,
        nonnegative(o),
        0 <= r <= 32,
        0 <= g0 <= g1 <= 32,
        0 <= b0 <= b1 <= 32,
    ensures
        0 <= span_gb(o, r, g0, g1, b0, b1) <= plane_sum(o, r, g1, b1),
    decreases g1 - g0,
{
    if g1 > g0 {
        lemma_span_gb_within_plane(o, r, g0, g1 - 1, b0, b1);
        lemma_span_b_within_row(o, r, g1, b0, b1);
    } else {
        lemma_plane_mono(o, r, 0, g1, 0, b1);
    }
}

/// In a nonnegative histogram, the total of a box lies between 0 and the prefix sum at its
/// upper corner.
proof fn lemma_box_total_bounded(o: Seq<i32>, r0: int, r1: int, g0: int, g1: int, b0: int, b1: int)
    requires
        o.len() == TOTAL_SIZE,
        nonnegative(o),
        0 <= r0 <= r1 <= 32,
        0 <= g0 <= g1 <= 32,
        0 <= b0 <= b1 <= 32,
    ensures
        0 <= box_total(o, r0, r1, g0, g1, b0, b1) <= prefix_sum(o, r1, g1, b1),
    decreases r1 - r0,
{
    if r1 > r0 {
        lemma_box_total_bounded(o, r0, r1 - 1, g0, g1, b0, b1);
        lemma_span_gb_within_plane(o, r1, g0, g1, b0, b1);
    } else {
        lemma_prefix_mono(o, 0, r1, 0, g1, 0, b1);
    }
}

/// Once the histograms of a table that fits are summed, the volume of any box in any of the four
/// tables fits an `i32`, as `create_result` needs.
pub proof fn lemma_summed_volumes_fit(t: Seq<(u32, u32)>, m: Seq<i32>, kind: int, c: Cube)
    requires
        histogram_fits(t),
        is_prefix_table(m, histogram(t, kind)),
        cube_in_grid(c),
        cube_ordered(c),
    ensures
        volume_fits(m, c),
        0 <= box_formula(m, c) <= kind_total(t, kind),
{
    let h = histogram(t, kind);
    lemma_histogram_summable(t, kind);
    lemma_histogram_bounds(t);
    lemma_volume_is_box_total(m, h, c);
    lemma_box_total_bounded(h, c.r0 as int, c.r1 as int, c.g0 as int, c.g1 as int, c.b0 as int, c.b1 as int);
    lemma_prefix_mono(h, c.r1 as int, 32, c.g1 as int, 32, c.b1 as int, 32);
    lemma_kind_fits(t, kind);
}

/// The prefix sums on the zero faces of a padded histogram are 0.
proof fn lemma_zero_faces(o: Seq<i32>)
    requires
        padded(o),
    ensures
        forall|r: int, g: int, b: int|
            in_grid(r, g, b) && (r == 0 || g == 0 || b == 0) ==> #[trigger] prefix_sum(o, r, g, b) == 0,
{
    assert forall|r: int, g: int, b: int|
        in_grid(r, g, b) && (r == 0 || g == 0 || b == 0) implies #[trigger] prefix_sum(o, r, g, b)
        == 0 by {
        lemma_prefix_zero_face(o, r, g, b);
    }
}

proof fn lemma_row_zero(o: Seq<i32>, r: int, g: int, b: int)
    requires
        padded(o),
        0 <= b <= 32,
        0 <= r <= 32,
        0 <= g <= 32,
        r == 0 || g == 0,
    ensures
        row_sum(o, r, g, b) == 0,
    decreases b,
{
    if b > 0 {
        lemma_row_zero(o, r, g, b - 1);
        assert(o[cell(r, g, b)] == 0);
    }
}

proof fn lemma_plane_zero(o: Seq<i32>, r: int, g: int, b: int)
    requires
        padded(o),
        0 <= b <= 32,
        0 <= r <= 32,
        0 <= g <= 32,
        r == 0 || b == 0,
    ensures
        plane_sum(o, r, g, b) == 0,
    decreases g,
{
    if g > 0 {
        lemma_plane_zero(o, r, g - 1, b);
        if r == 0 {
            lemma_row_zero(o, r, g, b);
        }
    }
}

proof fn lemma_prefix_zero_face(o: Seq<i32>, r: int, g: int, b: int)
    requires
        padded(o),
        in_grid(r, g, b),
        r == 0 || g == 0 || b == 0,
    ensures
        prefix_sum(o, r, g, b) == 0,
    decreases r,
{
    if r > 0 {
        lemma_prefix_zero_face(o, r - 1, g, b);
        if g == 0 {
        } else {
            lemma_plane_zero(o, r, g, b);
        }
    }
}

proof fn lemma_row_mono(o: Seq<i32>, r: int, g: int, b1: int, b2: int)
    requires
        o.len() == TOTAL_SIZE,
        nonnegative(o),
        0 <= b1 <= b2 <= 32,
        0 <= r <= 32,
        0 <= g <= 32,
    ensures
        0 <= row_sum(o, r, g, b1) <= row_sum(o, r, g, b2),
    decreases b2,
{
    if b2 > 0 {
        assert(o[cell(r, g, b2)] >= 0);
        if b1 < b2 {
            lemma_row_mono(o, r, g, b1, b2 - 1);
        } else {
            lemma_row_mono(o, r, g, b1 - 1, b2 - 1);
        }
    }
}

proof fn lemma_plane_mono(o: Seq<i32>, r: int, g1: int, g2: int, b1: int, b2: int)
    requires
        o.len() == TOTAL_SIZE,
        nonnegative(o),
        0 <= g1 <= g2 <= 32,
        0 <= b1 <= b2 <= 32,
        0 <= r <= 32,
    ensures
        0 <= plane_sum(o, r, g1, b1) <= plane_sum(o, r, g2, b2),
        g2 >= 1 ==> row_sum(o, r, g2, b2) <= plane_sum(o, r, g2, b2),
    decreases g2,
{
    if g2 > 0 {
        lemma_row_mono(o, r, g2, b1, b2);
        lemma_row_mono(o, r, g2, 0, b1);
        lemma_plane_mono(o, r, 0, g2 - 1, 0, b2);
        if g1 < g2 {
            lemma_plane_mono(o, r, g1, g2 - 1, b1, b2);
        } else {
            lemma_plane_mono(o, r, g1 - 1, g2 - 1, b1, b2);
        }
    }
}

proof fn lemma_prefix_mono(o: Seq<i32>, r1: int, r2: int, g1: int, g2: int, b1: int, b2: int)
    requires
        o.len() == TOTAL_SIZE,
        nonnegative(o),
        0 <= r1 <= r2 <= 32,
        0 <= g1 <= g2 <= 32,
        0 <= b1 <= b2 <= 32,
    ensures
        0 <= prefix_sum(o, r1, g1, b1) <= prefix_sum(o, r2, g2, b2),
        r2 >= 1 ==> plane_sum(o, r2, g2, b2) <= prefix_sum(o, r2, g2, b2),
    decreases r2,
{
    if r2 > 0 {
        lemma_plane_mono(o, r2, g1, g2, b1, b2);
        lemma_plane_mono(o, r2, 0, g1, 0, b1);
        lemma_prefix_mono(o, 0, r2 - 1, 0, g2, 0, b2);
        if r1 < r2 {
            lemma_prefix_mono(o, r1, r2 - 1, g1, g2, b1, b2);
        } else {
            lemma_prefix_mono(o, r1 - 1, r2 - 1, g1, g2, b1, b2);
        }
    }
}

/// In a nonnegative histogram, the partial sums that `create_moments` keeps while it works on
/// cell `(r, g, b)` are bounded by the total.
proof fn lemma_sums_bounded(o: Seq<i32>, r: int, g: int, b: int)
    requires
        o.len() == TOTAL_SIZE,
        nonnegative(o),
        1 <= r <= 32,
        1 <= g <= 32,
        1 <= b <= 32,
    ensures
        0 <= row_sum(o, r, g, b) <= plane_sum(o, r, g, b),
        0 <= plane_sum(o, r, g, b) <= prefix_sum(o, r, g, b),
        0 <= plane_sum(o, r, g - 1, b),
        0 <= prefix_sum(o, r - 1, g, b),
        prefix_sum(o, r, g, b) <= prefix_sum(o, 32, 32, 32),
{
    lemma_row_mono(o, r, g, 0, b);
    lemma_plane_mono(o, r, g, g, b, b);
    lemma_plane_mono(o, r, 0, g - 1, 0, b);
    lemma_prefix_mono(o, r, r, g, g, b, b);
    lemma_prefix_mono(o, 0, r - 1, 0, g, 0, b);
    lemma_prefix_mono(o, r, 32, g, 32, b, 32);
}

} // verus!
