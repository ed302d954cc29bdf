//! Partition of an image into rectangular buckets, and the order in which
//! the buckets are rendered.
//!
//! The image is cut into a grid of cells, `bucket_width` by `bucket_height`
//! pixels each. Where the image's width is no multiple of `bucket_width`, a
//! narrower last column takes the rest, and likewise a flatter last row.
//! Each cell is one bucket.

use crate::grid::{
    centre, enumerates, in_grid, last_ring, lemma_concat_cells, lemma_line_enumerates,
    lemma_raster_at, lemma_raster_enumerates, lemma_raster_len, lemma_same_cells_same_length,
    lemma_spiral_enumerates, line, raster, ring, ring_bottom, ring_left, ring_right, ring_top,
    spiral, spiral_rings, step, Cell, Heading,
};
use vstd::arithmetic::div_mod::{lemma_fundamental_div_mod, lemma_fundamental_div_mod_converse};
use vstd::arithmetic::mul::{lemma_mul_inequality, lemma_mul_is_commutative};
use vstd::prelude::*;

verus! {

/// Order in which the buckets of an image are handed out.
#[derive(Debug)]
pub enum BucketStrategy {
    /// Row by row from the top, each row left to right.
    Linear,
    /// The whole buckets outward from the centre in square rings, then the
    /// narrower buckets of the right and bottom edges.
    Spiral,
}

/// A rectangular region of the image, in pixels.
#[derive(Debug, PartialEq, Eq, Structural)]
pub struct Bucket {
    pub x: u32,
    pub y: u32,
    pub width: u32,
    pub height: u32,
}

impl Bucket {
    /// Whether the pixel `(px, py)` lies inside this bucket.
    pub open spec fn covers(self, px: int, py: int) -> bool {
        &&& self.x <= px < self.x + self.width
        &&& self.y <= py < self.y + self.height
    }

    /// Whether this bucket holds a pixel and lies inside an image of
    /// `width` by `height` pixels.
    pub open spec fn inside(self, width: int, height: int) -> bool {
        &&& self.width > 0
        &&& self.height > 0
        &&& self.x + self.width <= width
        &&& self.y + self.height <= height
    }

    /// Whether the rows of `pixels`, laid down from the top left corner of
    /// this bucket, stay inside an image of `width` by `height` pixels.
    pub open spec fn fits<T>(self, pixels: Seq<Vec<T>>, width: int, height: int) -> bool {
        &&& self.y + pixels.len() <= height
        &&& forall|j: int| 0 <= j < pixels.len() ==> self.x + (#[trigger] pixels[j]).len() <= width
    }

    /// Whether an entry of the first `rows` rows of `pixels` falls on the
    /// pixel `(px, py)` when the rows are laid down from the top left
    /// corner of this bucket. The entry is then
    /// `pixels[py - self.y][px - self.x]`.
    pub open spec fn lays<T>(self, pixels: Seq<Vec<T>>, rows: int, px: int, py: int) -> bool {
        &&& self.y <= py < self.y + rows
        &&& self.x <= px < self.x + pixels[py - self.y].len()
    }
}

/// How many cells lie along an axis of `extent` pixels when a whole cell
/// takes `step` of them: the whole cells and, where pixels are left over,
/// one smaller cell.
pub open spec fn cell_count(extent: int, step: int) -> int {
    extent / step + if extent % step != 0 {
        1int
    } else {
        0int
    }
}

/// How many pixels the cell number `g` takes along an axis.
pub open spec fn cell_size(g: int, extent: int, step: int) -> int {
    if g < extent / step {
        step
    } else {
        extent % step
    }
}

/// The bucket of a grid cell.
pub open spec fn cell_bucket(
    cell: Cell,
    width: int,
    height: int,
    bucket_width: int,
    bucket_height: int,
) -> Bucket {
    Bucket {
        x: (cell.0 * bucket_width) as u32,
        y: (cell.1 * bucket_height) as u32,
        width: cell_size(cell.0, width, bucket_width) as u32,
        height: cell_size(cell.1, height, bucket_height) as u32,
    }
}

/// The buckets of a sequence of cells, in the same order.
pub open spec fn buckets_of(
    cells: Seq<Cell>,
    width: int,
    height: int,
    bucket_width: int,
    bucket_height: int,
) -> Seq<Bucket> {
    cells.map_values(|c: Cell| cell_bucket(c, width, height, bucket_width, bucket_height))
}

/// The cells of the image in the order of `strategy`.
pub open spec fn bucket_cells(
    strategy: BucketStrategy,
    width: int,
    height: int,
    bucket_width: int,
    bucket_height: int,
) -> Seq<Cell> {
    let cols = width / bucket_width;
    let rows = height / bucket_height;
    match strategy {
        BucketStrategy::Linear => raster(
            cell_count(width, bucket_width),
            cell_count(height, bucket_height) as nat,
        ),
        BucketStrategy::Spiral => spiral(cols, rows) + right_strip(
            width,
            height,
            bucket_width,
            bucket_height,
        ) + corner(width, height, bucket_width, bucket_height) + bottom_strip(
            width,
            height,
            bucket_width,
            bucket_height,
        ),
    }
}

/// The narrower cells right of the whole cells, top to bottom; none where
/// the width is a multiple of `bucket_width`.
pub open spec fn right_strip(width: int, height: int, bucket_width: int, bucket_height: int) -> Seq<
    Cell,
> {
    if width % bucket_width != 0 {
        line((width / bucket_width, 0), Heading::Down, height / bucket_height)
    } else {
        Seq::empty()
    }
}

/// The cell below the right strip and right of the bottom strip, where
/// both exist.
pub open spec fn corner(width: int, height: int, bucket_width: int, bucket_height: int) -> Seq<
    Cell,
> {
    if width % bucket_width != 0 && height % bucket_height != 0 {
        seq![(width / bucket_width, height / bucket_height)]
    } else {
        Seq::empty()
    }
}

/// The flatter cells below the whole cells, right to left; none where the
/// height is a multiple of `bucket_height`.
pub open spec fn bottom_strip(width: int, height: int, bucket_width: int, bucket_height: int) -> Seq<
    Cell,
> {
    if height % bucket_height != 0 {
        line(
            (width / bucket_width - 1, height / bucket_height),
            Heading::Left,
            width / bucket_width,
        )
    } else {
        Seq::empty()
    }
}

/// The buckets of the image in the order of `strategy`.
pub open spec fn bucket_list(
    strategy: BucketStrategy,
    width: int,
    height: int,
    bucket_width: int,
    bucket_height: int,
) -> Seq<Bucket> {
    buckets_of(
        bucket_cells(strategy, width, height, bucket_width, bucket_height),
        width,
        height,
        bucket_width,
        bucket_height,
    )
}

/// Whether the pixel `(px, py)` lies in one of `buckets`.
pub open spec fn covered(buckets: Seq<Bucket>, px: int, py: int) -> bool {
    exists|i: int| 0 <= i < buckets.len() && #[trigger] buckets[i].covers(px, py)
}

/// `buckets` cuts an image of `width` by `height` pixels into pieces: each
/// bucket lies inside the image, each pixel of the image lies in a bucket,
/// and no pixel lies in two.
pub open spec fn tiles(buckets: Seq<Bucket>, width: int, height: int) -> bool {
    &&& forall|i: int| 0 <= i < buckets.len() ==> (#[trigger] buckets[i]).inside(width, height)
    &&& forall|px: int, py: int|
        0 <= px < width && 0 <= py < height ==> #[trigger] covered(buckets, px, py)
    &&& forall|i: int, j: int, px: int, py: int|
        0 <= i < buckets.len() && 0 <= j < buckets.len() && #[trigger] buckets[i].covers(px, py)
            && #[trigger] buckets[j].covers(px, py) ==> i == j
}

/// Along one axis, cell `g` starts at pixel `g * step`, holds at least one
/// pixel, ends inside the image, and holds exactly the pixels `p` of the
/// image with `p / step == g`.
pub proof fn lemma_cell_span(g: int, extent: int, step: int)
    requires
        0 <= extent,
        0 < step,
        0 <= g < cell_count(extent, step),
    ensures
        0 <= g * step,
        0 < cell_size(g, extent, step) <= step,
        g * step + cell_size(g, extent, step) <= extent,
        forall|p: int|
            g * step <= p < g * step + cell_size(g, extent, step) <==> 0 <= p < extent && #[trigger] (p
                / step) == g,
{
    let whole = extent / step;
    lemma_fundamental_div_mod(extent, step);
    lemma_mul_is_commutative(step, whole);
    assert(0 <= g * step) by (nonlinear_arith)
        requires
            0 <= g,
            0 < step,
    ;
    if g < whole {
        lemma_mul_inequality(g + 1, whole, step);
        assert((g + 1) * step == g * step + step) by (nonlinear_arith);
    }
    assert forall|p: int|
        g * step <= p < g * step + cell_size(g, extent, step) <==> 0 <= p < extent && #[trigger] (p
            / step) == g by {
        lemma_fundamental_div_mod(p, step);
        lemma_mul_is_commutative(step, p / step);
        if g * step <= p < g * step + cell_size(g, extent, step) {
            lemma_fundamental_div_mod_converse(p, step, g, p - g * step);
        }
        if 0 <= p < extent && p / step == g {
            if g >= whole {
                assert(g == whole);
            }
        }
    }
}

/// The cells of either order are exactly the cells of the image's grid, each
/// once.
pub proof fn lemma_bucket_cells_enumerate(
    strategy: BucketStrategy,
    width: int,
    height: int,
    bucket_width: int,
    bucket_height: int,
)
    requires
        0 <= width,
        0 <= height,
        0 < bucket_width,
        0 < bucket_height,
    ensures
        enumerates(
            bucket_cells(strategy, width, height, bucket_width, bucket_height),
            |c: Cell|
                in_grid(c, cell_count(width, bucket_width), cell_count(height, bucket_height)),
        ),
{
    let cols = width / bucket_width;
    let rows = height / bucket_height;
    lemma_fundamental_div_mod(width, bucket_width);
    lemma_fundamental_div_mod(height, bucket_height);
    assert(cols >= 0 && rows >= 0) by (nonlinear_arith)
        requires
            width == bucket_width * cols + width % bucket_width,
            height == bucket_height * rows + height % bucket_height,
            0 <= width % bucket_width < bucket_width,
            0 <= height % bucket_height < bucket_height,
            0 <= width,
            0 <= height,
    ;
    match strategy {
        BucketStrategy::Linear => {
            lemma_raster_enumerates(
                cell_count(width, bucket_width),
                cell_count(height, bucket_height) as nat,
            );
        },
        BucketStrategy::Spiral => {
            let whole = spiral(cols, rows);
            let right = right_strip(width, height, bucket_width, bucket_height);
            let crn = corner(width, height, bucket_width, bucket_height);
            let bottom = bottom_strip(width, height, bucket_width, bucket_height);
            lemma_spiral_enumerates(cols, rows);
            lemma_line_enumerates((cols, 0), Heading::Down, rows);
            lemma_line_enumerates((cols - 1, rows), Heading::Left, cols);
            assert forall|c: Cell| #[trigger] right.contains(c) <==> width % bucket_width != 0
                && c.0 == cols && 0 <= c.1 < rows by {}
            assert forall|c: Cell| #[trigger] crn.contains(c) <==> width % bucket_width != 0
                && height % bucket_height != 0 && c == (cols, rows) by {
                if crn.contains(c) {
                    let i = choose|i: int| 0 <= i < crn.len() && crn[i] == c;
                }
                if width % bucket_width != 0 && height % bucket_height != 0 && c == (cols, rows) {
                    assert(crn[0] == c);
                }
            }
            assert forall|c: Cell| #[trigger] bottom.contains(c) <==> height % bucket_height != 0
                && c.1 == rows && 0 <= c.0 < cols by {}
            lemma_concat_cells(whole, right);
            lemma_concat_cells(whole + right, crn);
            lemma_concat_cells(whole + right + crn, bottom);
        },
    }
}

/// Under either strategy, and for any image and bucket size, the buckets
/// cut the image into pieces: none reaches outside the image, every pixel
/// lies in a bucket, and no pixel lies in two.
pub proof fn lemma_buckets_tile(
    image_width: u32,
    image_height: u32,
    strategy: BucketStrategy,
    bucket_width: u32,
    bucket_height: u32,
)
    requires
        bucket_width > 0,
        bucket_height > 0,
    ensures
        tiles(
            bucket_list(
                strategy,
                image_width as int,
                image_height as int,
                bucket_width as int,
                bucket_height as int,
            ),
            image_width as int,
            image_height as int,
        ),
{
    let (w, h, bw, bh) = (
        image_width as int,
        image_height as int,
        bucket_width as int,
        bucket_height as int,
    );
    let cells = bucket_cells(strategy, w, h, bw, bh);
    let list = bucket_list(strategy, w, h, bw, bh);
    let cols = cell_count(w, bw);
    let rows = cell_count(h, bh);
    lemma_bucket_cells_enumerate(strategy, w, h, bw, bh);
    assert forall|i: int| 0 <= i < list.len() implies in_grid(cells[i], cols, rows) && (
    #[trigger] list[i]).inside(w, h) && forall|px: int, py: int|
        list[i].covers(px, py) <==> 0 <= px < w && 0 <= py < h && cells[i] == (px / bw, py / bh) by {
        assert(cells.contains(cells[i]));
        lemma_cell_span(cells[i].0, w, bw);
        lemma_cell_span(cells[i].1, h, bh);
    }
    assert forall|px: int, py: int| 0 <= px < w && 0 <= py < h implies #[trigger] covered(
        list,
        px,
        py,
    ) by {
        let c = (px / bw, py / bh);
        lemma_pixel_cell(px, w, bw);
        lemma_pixel_cell(py, h, bh);
        assert(cells.contains(c));
        let i = choose|i: int| 0 <= i < cells.len() && cells[i] == c;
        assert(list[i].covers(px, py));
    }
}

/// Either strategy hands out as many buckets as the grid has cells.
pub proof fn lemma_bucket_count(
    image_width: u32,
    image_height: u32,
    strategy: BucketStrategy,
    bucket_width: u32,
    bucket_height: u32,
)
    requires
        bucket_width > 0,
        bucket_height > 0,
    ensures
        bucket_list(
            strategy,
            image_width as int,
            image_height as int,
            bucket_width as int,
            bucket_height as int,
        ).len() == cell_count(image_width as int, bucket_width as int) * cell_count(
            image_height as int,
            bucket_height as int,
        ),
{
    let (w, h, bw, bh) = (
        image_width as int,
        image_height as int,
        bucket_width as int,
        bucket_height as int,
    );
    let cols = cell_count(w, bw);
    let rows = cell_count(h, bh);
    Frame::lemma_cell_count_bound(image_width, bucket_width);
    Frame::lemma_cell_count_bound(image_height, bucket_height);
    lemma_bucket_cells_enumerate(strategy, w, h, bw, bh);
    lemma_raster_enumerates(cols, rows as nat);
    lemma_raster_len(cols, rows as nat);
    lemma_same_cells_same_length(bucket_cells(strategy, w, h, bw, bh), raster(cols, rows as nat));
}

/// Along one axis, the pixel `p` of the image lies in the cell `p / step`,
/// which is a cell of the grid.
pub proof fn lemma_pixel_cell(p: int, extent: int, step: int)
    requires
        0 <= p < extent,
        0 < step,
    ensures
        0 <= p / step < cell_count(extent, step),
{
    lemma_fundamental_div_mod(p, step);
    lemma_fundamental_div_mod(extent, step);
    let a = p / step;
    let b = extent / step;
    assert(0 <= a && (a < b || (a == b && extent % step != 0))) by (nonlinear_arith)
        requires
            p == step * a + p % step,
            extent == step * b + extent % step,
            0 <= p % step < step,
            0 <= extent % step < step,
            0 <= p < extent,
            0 < step,
    ;
}

/// Size of the image and of a whole bucket, in pixels.
struct Frame {
    width: u32,
    height: u32,
    bucket_width: u32,
    bucket_height: u32,
}

impl Frame {
    spec fn wf(self) -> bool {
        self.bucket_width > 0 && self.bucket_height > 0
    }

    /// Number of whole buckets in a row.
    spec fn cols(self) -> int {
        self.width as int / self.bucket_width as int
    }

    /// Number of whole buckets in a column.
    spec fn rows(self) -> int {
        self.height as int / self.bucket_height as int
    }

    /// Whether `cell` is a cell of the image's grid, the smaller cells of
    /// the right and bottom edges included.
    spec fn holds(self, cell: Cell) -> bool {
        in_grid(
            cell,
            cell_count(self.width as int, self.bucket_width as int),
            cell_count(self.height as int, self.bucket_height as int),
        )
    }

    spec fn buckets(self, cells: Seq<Cell>) -> Seq<Bucket> {
        buckets_of(
            cells,
            self.width as int,
            self.height as int,
            self.bucket_width as int,
            self.bucket_height as int,
        )
    }

    proof fn lemma_buckets_concat(self, a: Seq<Cell>, b: Seq<Cell>)
        ensures
            self.buckets(a + b) == self.buckets(a) + self.buckets(b),
    {
        assert(self.buckets(a + b) =~= self.buckets(a) + self.buckets(b));
    }

    /// The bucket of the cell `(gx, gy)`.
    fn bucket_at(&self, gx: u32, gy: u32) -> (bucket: Bucket)
        requires
            self.wf(),
            self.holds((gx as int, gy as int)),
        ensures
            bucket == cell_bucket(
                (gx as int, gy as int),
                self.width as int,
                self.height as int,
                self.bucket_width as int,
                self.bucket_height as int,
            ),
    {
        proof {
            lemma_cell_span(gx as int, self.width as int, self.bucket_width as int);
            lemma_cell_span(gy as int, self.height as int, self.bucket_height as int);
        }
        Bucket {
            x: gx * self.bucket_width,
            y: gy * self.bucket_height,
            width: if gx < self.width / self.bucket_width {
                self.bucket_width
            } else {
                self.width % self.bucket_width
            },
            height: if gy < self.height / self.bucket_height {
                self.bucket_height
            } else {
                self.height % self.bucket_height
            },
        }
    }

    /// Appends the buckets of the `count` cells of the straight walk that
    /// begins at `(x, y)`.
    fn push_line(&self, buckets: &mut Vec<Bucket>, x: u32, y: u32, heading: Heading, count: u32)
        requires
            self.wf(),
            forall|i: int|
                0 <= i < count ==> self.holds(#[trigger] step((x as int, y as int), heading, i)),
        ensures
            final(buckets)@ == old(buckets)@ + self.buckets(
                line((x as int, y as int), heading, count as int),
            ),
    {
        let ghost start = (x as int, y as int);
        let mut i: u32 = 0;
        while i < count
            invariant
                i <= count,
                self.wf(),
                start == (x as int, y as int),
                forall|i: int| 0 <= i < count ==> self.holds(#[trigger] step(start, heading, i)),
                buckets@ == old(buckets)@ + self.buckets(line(start, heading, i as int)),
            decreases count - i,
        {
            assert(self.holds(step(start, heading, i as int)));
            let (gx, gy) = match heading {
                Heading::Down => (x, y + i),
                Heading::Left => (x - i, y),
                Heading::Up => (x, y - i),
                Heading::Right => (x + i, y),
            };
            let bucket = self.bucket_at(gx, gy);
            buckets.push(bucket);
            proof {
                assert(line(start, heading, i + 1) =~= line(start, heading, i as int).push(
                    step(start, heading, i as int),
                ));
                assert(buckets@ =~= old(buckets)@ + self.buckets(line(start, heading, i + 1)));
            }
            i += 1;
        }
    }

    /// Appends the buckets of the right side of ring `k`.
    fn push_ring_right(&self, buckets: &mut Vec<Bucket>, k: u32)
        requires
            self.wf(),
            self.cols() > 0,
            self.rows() > 0,
            1 <= k <= last_ring(self.cols(), self.rows()),
        ensures
            final(buckets)@ == old(buckets)@ + self.buckets(
                ring_right(self.cols(), self.rows(), k as int),
            ),
    {
        let cols: i64 = (self.width / self.bucket_width) as i64;
        let rows: i64 = (self.height / self.bucket_height) as i64;
        let cx: i64 = cols / 2;
        let cy: i64 = rows / 2;
        let k: i64 = k as i64;
        if cx + k < cols {
            let top: i64 = if cy - k + 1 > 0 {
                cy - k + 1
            } else {
                0
            };
            let bottom: i64 = if rows - 1 < cy + k {
                rows - 1
            } else {
                cy + k
            };
            self.push_line(
                buckets,
                (cx + k) as u32,
                top as u32,
                Heading::Down,
                (bottom - top + 1) as u32,
            );
        } else {
            assert(buckets@ =~= old(buckets)@ + self.buckets(Seq::empty()));
        }
    }

    /// Appends the buckets of the bottom side of ring `k`.
    fn push_ring_bottom(&self, buckets: &mut Vec<Bucket>, k: u32)
        requires
            self.wf(),
            self.cols() > 0,
            self.rows() > 0,
            1 <= k <= last_ring(self.cols(), self.rows()),
        ensures
            final(buckets)@ == old(buckets)@ + self.buckets(
                ring_bottom(self.cols(), self.rows(), k as int),
            ),
    {
        let cols: i64 = (self.width / self.bucket_width) as i64;
        let rows: i64 = (self.height / self.bucket_height) as i64;
        let cx: i64 = cols / 2;
        let cy: i64 = rows / 2;
        let k: i64 = k as i64;
        if cy + k < rows {
            let right: i64 = if cols - 1 < cx + k - 1 {
                cols - 1
            } else {
                cx + k - 1
            };
            let left: i64 = if cx - k > 0 {
                cx - k
            } else {
                0
            };
            self.push_line(
                buckets,
                right as u32,
                (cy + k) as u32,
                Heading::Left,
                (right - left + 1) as u32,
            );
        } else {
            assert(buckets@ =~= old(buckets)@ + self.buckets(Seq::empty()));
        }
    }

    /// Appends the buckets of the left side of ring `k`.
    fn push_ring_left(&self, buckets: &mut Vec<Bucket>, k: u32)
        requires
            self.wf(),
            self.cols() > 0,
            self.rows() > 0,
            1 <= k <= last_ring(self.cols(), self.rows()),
        ensures
            final(buckets)@ == old(buckets)@ + self.buckets(
                ring_left(self.cols(), self.rows(), k as int),
            ),
    {
        let cols: i64 = (self.width / self.bucket_width) as i64;
        let rows: i64 = (self.height / self.bucket_height) as i64;
        let cx: i64 = cols / 2;
        let cy: i64 = rows / 2;
        let k: i64 = k as i64;
        if cx - k >= 0 {
            let bottom: i64 = if rows - 1 < cy + k - 1 {
                rows - 1
            } else {
                cy + k - 1
            };
            let top: i64 = if cy - k > 0 {
                cy - k
            } else {
                0
            };
            self.push_line(
                buckets,
                (cx - k) as u32,
                bottom as u32,
                Heading::Up,
                (bottom - top + 1) as u32,
            );
        } else {
            assert(buckets@ =~= old(buckets)@ + self.buckets(Seq::empty()));
        }
    }

    /// Appends the buckets of the top side of ring `k`.
    fn push_ring_top(&self, buckets: &mut Vec<Bucket>, k: u32)
        requires
            self.wf(),
            self.cols() > 0,
            self.rows() > 0,
            1 <= k <= last_ring(self.cols(), self.rows()),
        ensures
            final(buckets)@ == old(buckets)@ + self.buckets(
                ring_top(self.cols(), self.rows(), k as int),
            ),
    {
        let cols: i64 = (self.width / self.bucket_width) as i64;
        let rows: i64 = (self.height / self.bucket_height) as i64;
        let cx: i64 = cols / 2;
        let cy: i64 = rows / 2;
        let k: i64 = k as i64;
        if cy - k >= 0 {
            let left: i64 = if cx - k + 1 > 0 {
                cx - k + 1
            } else {
                0
            };
            let right: i64 = if cols - 1 < cx + k {
                cols - 1
            } else {
                cx + k
            };
            self.push_line(
                buckets,
                left as u32,
                (cy - k) as u32,
                Heading::Right,
                (right - left + 1) as u32,
            );
        } else {
            assert(buckets@ =~= old(buckets)@ + self.buckets(Seq::empty()));
        }
    }

    /// Appends the buckets of ring `k` around the centre of the whole
    /// buckets.
    fn push_ring(&self, buckets: &mut Vec<Bucket>, k: u32)
        requires
            self.wf(),
            self.cols() > 0,
            self.rows() > 0,
            1 <= k <= last_ring(self.cols(), self.rows()),
        ensures
            final(buckets)@ == old(buckets)@ + self.buckets(ring(self.cols(), self.rows(), k as int)),
    {
        self.push_ring_right(buckets, k);
        self.push_ring_bottom(buckets, k);
        self.push_ring_left(buckets, k);
        self.push_ring_top(buckets, k);
        proof {
            let r = ring_right(self.cols(), self.rows(), k as int);
            let b = ring_bottom(self.cols(), self.rows(), k as int);
            let l = ring_left(self.cols(), self.rows(), k as int);
            let t = ring_top(self.cols(), self.rows(), k as int);
            self.lemma_buckets_concat(r, b);
            self.lemma_buckets_concat(r + b, l);
            self.lemma_buckets_concat(r + b + l, t);
            assert(buckets@ =~= old(buckets)@ + self.buckets(r + b + l + t));
        }
    }

    /// The number of cells along an axis fits the machine's integers.
    proof fn lemma_cell_count_bound(extent: u32, step: u32)
        requires
            step > 0,
        ensures
            0 <= extent as int / step as int <= cell_count(extent as int, step as int) <= u32::MAX,
    {
        let whole = extent as int / step as int;
        let rest = extent as int % step as int;
        lemma_fundamental_div_mod(extent as int, step as int);
        assert(0 <= whole && (rest != 0 ==> whole + 1 <= extent)) by (nonlinear_arith)
            requires
                extent == step * whole + rest,
                0 <= rest < step,
                0 <= extent,
        ;
    }

    /// The buckets of all cells in raster order.
    fn raster_buckets(&self) -> (buckets: Vec<Bucket>)
        requires
            self.wf(),
        ensures
            buckets@ == self.buckets(
                raster(
                    cell_count(self.width as int, self.bucket_width as int),
                    cell_count(self.height as int, self.bucket_height as int) as nat,
                ),
            ),
    {
        proof {
            Self::lemma_cell_count_bound(self.width, self.bucket_width);
            Self::lemma_cell_count_bound(self.height, self.bucket_height);
        }
        let cols: u32 = self.width / self.bucket_width;
        let rows: u32 = self.height / self.bucket_height;
        let row_len: u32 = if self.width % self.bucket_width != 0 {
            cols + 1
        } else {
            cols
        };
        let row_count: u32 = if self.height % self.bucket_height != 0 {
            rows + 1
        } else {
            rows
        };
        let mut buckets: Vec<Bucket> = Vec::new();
        let mut y: u32 = 0;
        assert(buckets@ =~= self.buckets(raster(row_len as int, 0)));
        while y < row_count
            invariant
                self.wf(),
                y <= row_count,
                row_len == cell_count(self.width as int, self.bucket_width as int),
                row_count == cell_count(self.height as int, self.bucket_height as int),
                buckets@ == self.buckets(raster(row_len as int, y as nat)),
            decreases row_count - y,
        {
            self.push_line(&mut buckets, 0, y, Heading::Right, row_len);
            proof {
                self.lemma_buckets_concat(
                    raster(row_len as int, y as nat),
                    line((0, y as int), Heading::Right, row_len as int),
                );
            }
            y += 1;
        }
        buckets
    }

    /// The buckets of the whole cells in spiral order.
    fn spiral_buckets(&self) -> (buckets: Vec<Bucket>)
        requires
            self.wf(),
        ensures
            buckets@ == self.buckets(spiral(self.cols(), self.rows())),
    {
        proof {
            Self::lemma_cell_count_bound(self.width, self.bucket_width);
            Self::lemma_cell_count_bound(self.height, self.bucket_height);
        }
        let cols: u32 = self.width / self.bucket_width;
        let rows: u32 = self.height / self.bucket_height;
        let mut buckets: Vec<Bucket> = Vec::new();
        if cols == 0 || rows == 0 {
            assert(buckets@ =~= self.buckets(Seq::empty()));
            return buckets;
        }
        let cx: u32 = cols / 2;
        let cy: u32 = rows / 2;
        let reach_x: u32 = if cx > cols - 1 - cx {
            cx
        } else {
            cols - 1 - cx
        };
        let reach_y: u32 = if cy > rows - 1 - cy {
            cy
        } else {
            rows - 1 - cy
        };
        let last: u32 = if reach_x > reach_y {
            reach_x
        } else {
            reach_y
        };
        self.push_line(&mut buckets, cx, cy, Heading::Down, 1);
        assert(buckets@ =~= self.buckets(spiral_rings(self.cols(), self.rows(), 0))) by {
            assert(line((cx as int, cy as int), Heading::Down, 1) =~= seq![
                centre(self.cols(), self.rows()),
            ]);
        }
        let mut k: u32 = 0;
        while k < last
            invariant
                self.wf(),
                self.cols() > 0,
                self.rows() > 0,
                k <= last,
                last == last_ring(self.cols(), self.rows()),
                buckets@ == self.buckets(spiral_rings(self.cols(), self.rows(), k as nat)),
            decreases last - k,
        {
            k += 1;
            self.push_ring(&mut buckets, k);
            proof {
                self.lemma_buckets_concat(
                    spiral_rings(self.cols(), self.rows(), (k - 1) as nat),
                    ring(self.cols(), self.rows(), k as int),
                );
            }
        }
        buckets
    }

    /// Appends the buckets of the smaller cells along the right and bottom
    /// edges: the right strip downward, the corner, the bottom strip
    /// leftward.
    fn push_edges(&self, buckets: &mut Vec<Bucket>)
        requires
            self.wf(),
        ensures
            final(buckets)@ == old(buckets)@ + self.buckets(
                right_strip(
                    self.width as int,
                    self.height as int,
                    self.bucket_width as int,
                    self.bucket_height as int,
                ) + corner(
                    self.width as int,
                    self.height as int,
                    self.bucket_width as int,
                    self.bucket_height as int,
                ) + bottom_strip(
                    self.width as int,
                    self.height as int,
                    self.bucket_width as int,
                    self.bucket_height as int,
                ),
            ),
    {
        proof {
            Self::lemma_cell_count_bound(self.width, self.bucket_width);
            Self::lemma_cell_count_bound(self.height, self.bucket_height);
        }
        let ghost (w, h, bw, bh) = (
            self.width as int,
            self.height as int,
            self.bucket_width as int,
            self.bucket_height as int,
        );
        let cols: u32 = self.width / self.bucket_width;
        let rows: u32 = self.height / self.bucket_height;
        let last_x: u32 = self.width % self.bucket_width;
        let last_y: u32 = self.height % self.bucket_height;
        if last_x != 0 {
            self.push_line(buckets, cols, 0, Heading::Down, rows);
        }
        assert(buckets@ =~= old(buckets)@ + self.buckets(right_strip(w, h, bw, bh)));
        if last_x != 0 && last_y != 0 {
            self.push_line(buckets, cols, rows, Heading::Down, 1);
            assert(line((cols as int, rows as int), Heading::Down, 1) =~= corner(w, h, bw, bh));
        }
        assert(buckets@ =~= old(buckets)@ + self.buckets(right_strip(w, h, bw, bh)) + self.buckets(
            corner(w, h, bw, bh),
        ));
        if last_y != 0 && cols > 0 {
            self.push_line(buckets, cols - 1, rows, Heading::Left, cols);
        }
        proof {
            assert(bottom_strip(w, h, bw, bh) =~= if last_y != 0 && cols > 0 {
                line((cols - 1, rows as int), Heading::Left, cols as int)
            } else {
                Seq::empty()
            });
            self.lemma_buckets_concat(right_strip(w, h, bw, bh), corner(w, h, bw, bh));
            self.lemma_buckets_concat(
                right_strip(w, h, bw, bh) + corner(w, h, bw, bh),
                bottom_strip(w, h, bw, bh),
            );
            assert(buckets@ =~= old(buckets)@ + self.buckets(right_strip(w, h, bw, bh))
                + self.buckets(corner(w, h, bw, bh)) + self.buckets(bottom_strip(w, h, bw, bh)));
        }
    }
}

/// Cuts an image of `image_width` by `image_height` pixels into buckets of
/// `bucket_width` by `bucket_height` pixels, with smaller buckets along the
/// right and bottom edges where the image's size is no multiple of the
/// bucket's, and returns them in the order of `strategy`.
pub fn create_buckets(
    image_width: u32,
    image_height: u32,
    strategy: BucketStrategy,
    bucket_width: u32,
    bucket_height: u32,
) -> (buckets: Vec<Bucket>)
    requires
        bucket_width > 0,
        bucket_height > 0,
    ensures
        buckets@ == bucket_list(
            strategy,
            image_width as int,
            image_height as int,
            bucket_width as int,
            bucket_height as int,
        ),
        tiles(buckets@, image_width as int, image_height as int),
        buckets@.len() == cell_count(image_width as int, bucket_width as int) * cell_count(
            image_height as int,
            bucket_height as int,
        ),
        strategy is Linear ==> forall|i: int|
            0 <= i < buckets@.len() ==> #[trigger] buckets@[i] == cell_bucket(
                (
                    i % cell_count(image_width as int, bucket_width as int),
                    i / cell_count(image_width as int, bucket_width as int),
                ),
                image_width as int,
                image_height as int,
                bucket_width as int,
                bucket_height as int,
            ),
{
    let frame = Frame { width: image_width, height: image_height, bucket_width, bucket_height };
    proof {
        lemma_buckets_tile(image_width, image_height, strategy, bucket_width, bucket_height);
        lemma_bucket_count(image_width, image_height, strategy, bucket_width, bucket_height);
        if strategy is Linear {
            let cols = cell_count(image_width as int, bucket_width as int);
            let rows = cell_count(image_height as int, bucket_height as int);
            Frame::lemma_cell_count_bound(image_width, bucket_width);
            Frame::lemma_cell_count_bound(image_height, bucket_height);
            assert forall|i: int| 0 <= i < cols * rows implies #[trigger] raster(
                cols,
                rows as nat,
            )[i] == (i % cols, i / cols) by {
                if cols > 0 {
                    lemma_raster_at(cols, rows as nat, i);
                } else {
                    assert(cols * rows == 0) by (nonlinear_arith)
                        requires
                            cols == 0,
                    ;
                }
            }
        }
    }
    match strategy {
        BucketStrategy::Linear => frame.raster_buckets(),
        BucketStrategy::Spiral => {
            let mut buckets = frame.spiral_buckets();
            frame.push_edges(&mut buckets);
            proof {
                let (w, h, bw, bh) = (
                    image_width as int,
                    image_height as int,
                    bucket_width as int,
                    bucket_height as int,
                );
                let whole = spiral(frame.cols(), frame.rows());
                let right = right_strip(w, h, bw, bh);
                let crn = corner(w, h, bw, bh);
                let bottom = bottom_strip(w, h, bw, bh);
                frame.lemma_buckets_concat(whole, right + crn + bottom);
                assert(whole + (right + crn + bottom) =~= whole + right + crn + bottom);
            }
            buckets
        },
    }
}

} // verus!
