//! Pixel coordinates, grid sizes, compass offsets and the mapping between two grids.

use vstd::prelude::*;

verus! {

/// Why a coordinate could not be used.
#[derive(Copy, Clone, Debug, PartialEq, Eq, Structural)]
pub enum VectorError {
    /// A pixel coordinate lies outside its grid.
    IndexError,
    /// Two grids that must agree in size do not.
    IncompatibleDimensions,
}

/// Width and height of a grid, in pixels.
#[derive(Copy, Clone, Debug)]
pub struct Dimensions {
    pub width: usize,
    pub height: usize,
}

/// A pixel position.
#[derive(Copy, Clone, Debug)]
pub struct Point {
    pub x: usize,
    pub y: usize,
}

/// A compass offset with the index of its direction. Index 0 (north) is the
/// seed-scan direction; indices 1 to 3 take part in visited-bit bookkeeping.
#[derive(Copy, Clone, Debug)]
pub struct Vector {
    pub dx: i32,
    pub dy: i32,
    pub di: i32,
}

/// One row up; the seed-scan direction.
pub open spec fn north() -> Vector {
    Vector { dx: 0, dy: -1i32, di: 0 }
}

/// One column left.
pub open spec fn west() -> Vector {
    Vector { dx: -1i32, dy: 0, di: 1 }
}

/// One row down.
pub open spec fn south() -> Vector {
    Vector { dx: 0, dy: 1, di: 2 }
}

/// One column right.
pub open spec fn east() -> Vector {
    Vector { dx: 1, dy: 0, di: 3 }
}

/// The four directions in the order in which a traversal step tries them.
pub fn directions() -> (all: [Vector; 4])
    ensures
        all[0] == north(),
        all[1] == west(),
        all[2] == south(),
        all[3] == east(),
{
    [
        Vector { dx: 0, dy: -1, di: 0 },
        Vector { dx: -1, dy: 0, di: 1 },
        Vector { dx: 0, dy: 1, di: 2 },
        Vector { dx: 1, dy: 0, di: 3 },
    ]
}

/// A coordinate moved by a signed offset, wrapping round at both ends of `usize`.
pub open spec fn shift(c: usize, d: i32) -> usize {
    let moved = c + d;
    if moved < 0 {
        (moved + usize::MAX + 1) as usize
    } else if moved > usize::MAX {
        (moved - usize::MAX - 1) as usize
    } else {
        moved as usize
    }
}

/// One coordinate moved by `d`, wrapping round at either end of `usize`.
fn shift_coordinate(c: usize, d: i32) -> (moved: usize)
    ensures
        moved == shift(c, d),
{
    if d >= 0 {
        let step: usize = d as usize;
        if step <= usize::MAX - c {
            c + step
        } else {
            step - (usize::MAX - c) - 1
        }
    } else {
        let back: usize = (-(d as i64)) as usize;
        if back <= c {
            c - back
        } else {
            usize::MAX - (back - c) + 1
        }
    }
}

impl Point {
    /// The point moved by `vector`, each coordinate wrapping round on its own.
    pub open spec fn add_spec(&self, vector: &Vector) -> Point {
        Point { x: shift(self.x, vector.dx), y: shift(self.y, vector.dy) }
    }

    /// The point moved by `vector`. A step below zero wraps round to the top of
    /// `usize`, where no grid has a pixel, so a bounds check rejects it.
    pub fn add(&self, vector: &Vector) -> (moved: Point)
        ensures
            moved == self.add_spec(vector),
    {
        Point { x: shift_coordinate(self.x, vector.dx), y: shift_coordinate(self.y, vector.dy) }
    }
}

/// Row-major index of `(x, y)` in a grid of `width` by `height` entries of
/// `channels` values each, where the point lies in the grid.
pub open spec fn index_of(x: usize, y: usize, width: usize, height: usize, channels: usize) -> Option<int> {
    if x < width && y < height {
        Some((y * width + x) * channels)
    } else {
        None
    }
}

/// `x < width` and `y < height` put the index of `(x, y)` below `width * height`.
pub proof fn lemma_index_in_grid(x: int, y: int, width: int, height: int)
    requires
        0 <= x < width,
        0 <= y < height,
    ensures
        0 <= y * width + x < width * height,
        (y * width + x) / width == y,
        (y * width + x) % width == x,
{
    assert(y * width + x < width * height) by (nonlinear_arith)
        requires
            0 <= x < width,
            0 <= y < height,
    {
        assert((y + 1) * width <= height * width);
    }
    assert(0 <= y * width) by (nonlinear_arith)
        requires
            0 <= y,
            0 < width,
    ;
    vstd::arithmetic::div_mod::lemma_fundamental_div_mod_converse(y * width + x, width, y, x);
}

/// Row-major index of `(x, y)`: `Ok((y * width + x) * channels)` where
/// `x < width` and `y < height`, else `IndexError`.
pub fn point2index(x: usize, y: usize, width: usize, height: usize, channels: usize) -> (index: Result<usize, VectorError>)
    requires
        width * height <= usize::MAX,
        width * height * channels <= usize::MAX,
    ensures
        index_of(x, y, width, height, channels) matches Some(i) ==> index == Ok::<usize, VectorError>(i as usize)
            && i + channels <= width * height * channels,
        index_of(x, y, width, height, channels) is None ==> index == Err::<usize, VectorError>(
            VectorError::IndexError,
        ),
{
    if x < width && y < height {
        proof {
            lemma_index_in_grid(x as int, y as int, width as int, height as int);
            assert(0 <= y * width <= y * width + x) by (nonlinear_arith)
                requires
                    0 <= y,
                    0 <= x,
                    0 < width,
            ;
            assert((y * width + x) * channels + channels <= width * height * channels)
                by (nonlinear_arith)
                requires
                    0 <= y * width + x < width * height,
                    channels >= 0,
            {
                assert((y * width + x + 1) * channels <= (width * height) * channels);
            }
            assert(0 <= (y * width + x) * channels) by (nonlinear_arith)
                requires
                    0 <= y * width + x,
                    channels >= 0,
            ;
        }
        return Ok((y * width + x) * channels);
    }
    Err(VectorError::IndexError)
}

/// The ratio between an image's grid and a mask's, one fraction per axis.
/// It maps a mask pixel to the image pixel that lies under it.
#[derive(Copy, Clone, Debug)]
pub struct Scale {
    pub x_num: usize,
    pub x_den: usize,
    pub y_num: usize,
    pub y_den: usize,
}

/// `c * num / den`, rounded down.
pub open spec fn scaled(c: usize, num: usize, den: usize) -> int {
    (c * num) / (den as int)
}

/// `c * num / den` rounded down, where it is below `bound`; the product is
/// taken in 128 bits, where it cannot overflow.
fn scale_coordinate(c: usize, num: usize, den: usize, bound: usize) -> (r: Option<usize>)
    ensures
        r == if den > 0 && scaled(c, num, den) < bound {
            Some(scaled(c, num, den) as usize)
        } else {
            None::<usize>
        },
{
    if den == 0 {
        return None;
    }
    assert(0 <= c * num <= 0xffff_ffff_ffff_ffff * 0xffff_ffff_ffff_ffff) by (nonlinear_arith)
        requires
            0 <= c <= 0xffff_ffff_ffff_ffff,
            0 <= num <= 0xffff_ffff_ffff_ffff,
    ;
    let product: u128 = (c as u128) * (num as u128);
    let q: u128 = product / (den as u128);
    assert(q >= 0);
    if q < bound as u128 {
        Some(q as usize)
    } else {
        None
    }
}

impl Scale {
    /// The scale that maps the grid `mask` onto the grid `image`.
    pub fn between(image: Dimensions, mask: Dimensions) -> (scale: Scale)
        ensures
            scale == (Scale {
                x_num: image.width,
                x_den: mask.width,
                y_num: image.height,
                y_den: mask.height,
            }),
    {
        Scale { x_num: image.width, x_den: mask.width, y_num: image.height, y_den: mask.height }
    }

    /// The image pixel under the mask pixel `(x, y)`, where it lies in an image
    /// of `within.width` by `within.height` pixels.
    pub open spec fn rescale_spec(&self, x: usize, y: usize, within: Dimensions) -> Option<Point> {
        if self.x_den > 0 && self.y_den > 0 && scaled(x, self.x_num, self.x_den) < within.width
            && scaled(y, self.y_num, self.y_den) < within.height {
            Some(
                Point {
                    x: scaled(x, self.x_num, self.x_den) as usize,
                    y: scaled(y, self.y_num, self.y_den) as usize,
                },
            )
        } else {
            None
        }
    }

    /// Multiplies each axis of `point` by this scale's ratio and rounds down.
    /// `None` where the result leaves the grid `within`, or the ratio has no value.
    pub fn rescale(&self, point: &Point, within: Dimensions) -> (mapped: Option<Point>)
        ensures
            mapped == self.rescale_spec(point.x, point.y, within),
    {
        match scale_coordinate(point.x, self.x_num, self.x_den, within.width) {
            None => None,
            Some(x) => match scale_coordinate(point.y, self.y_num, self.y_den, within.height) {
                None => None,
                Some(y) => Some(Point { x, y }),
            },
        }
    }
}

} // verus!
