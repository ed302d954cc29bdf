//! Pixels kept row by row in one buffer: where a pixel stands.

use vstd::prelude::*;

verus! {

/// Where the pixel in column `x` and row `y` stands in a buffer that holds
/// a picture `width` pixels wide row by row from the top.
pub open spec fn place(width: int, x: int, y: int) -> int {
    y * width + x
}

/// Every pixel of a picture has its place inside the buffer.
pub proof fn lemma_place_in_buffer(width: int, height: int, x: int, y: int)
    requires
        0 <= x < width,
        0 <= y < height,
    ensures
        0 <= place(width, x, y) < width * height,
{
    assert(0 <= y * width && y * width + width <= width * height) by (nonlinear_arith)
        requires
            0 <= y < height,
            0 < width,
    ;
}

/// Two pixels stand at the same place only if they are the same pixel.
pub proof fn lemma_place_is_unique(width: int, x1: int, y1: int, x2: int, y2: int)
    requires
        0 <= x1 < width,
        0 <= x2 < width,
        0 <= y1,
        0 <= y2,
        place(width, x1, y1) == place(width, x2, y2),
    ensures
        x1 == x2,
        y1 == y2,
{
    if y1 < y2 {
        assert(y1 * width + width <= y2 * width) by (nonlinear_arith)
            requires
                y1 + 1 <= y2,
                0 < width,
        ;
    }
    if y2 < y1 {
        assert(y2 * width + width <= y1 * width) by (nonlinear_arith)
            requires
                y2 + 1 <= y1,
                0 < width,
        ;
    }
}

} // verus!
