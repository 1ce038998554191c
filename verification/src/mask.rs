//! The selection mask: one state byte per pixel.

use crate::flood::{flood_cells, flood_truncated};
use crate::geometry::{index_of, lemma_index_in_grid, point2index, Dimensions, Point, VectorError};
use crate::image::Image;
use vstd::prelude::*;

verus! {

/// What a traversal learns when it reaches a pixel from some direction.
#[derive(Copy, Clone, Debug, PartialEq, Eq, Structural)]
pub enum NodeState {
    /// Not selected, and not reached from this direction before.
    Unknown,
    /// Selected.
    Matched,
    /// Not selected, and reached from this direction before.
    Visited,
}

/// The byte of a selected pixel.
pub const SELECTED: u8 = 255;

/// The bit that records a visit from the direction with index `direction`;
/// zero for the seed-scan direction and for an index that names no bit of a byte.
pub open spec fn direction_bit(direction: i32) -> u8 {
    if direction == 1 {
        2
    } else if direction == 2 {
        4
    } else if direction == 3 {
        8
    } else if direction == 4 {
        16
    } else if direction == 5 {
        32
    } else if direction == 6 {
        64
    } else if direction == 7 {
        128
    } else {
        0
    }
}

/// The visited bit of a direction.
fn bit_of(direction: i32) -> (bit: u8)
    ensures
        bit == direction_bit(direction),
{
    if direction == 1 {
        2
    } else if direction == 2 {
        4
    } else if direction == 3 {
        8
    } else if direction == 4 {
        16
    } else if direction == 5 {
        32
    } else if direction == 6 {
        64
    } else if direction == 7 {
        128
    } else {
        0
    }
}

/// What a visit from `direction` finds in a pixel's byte.
pub open spec fn visit_state(byte: u8, direction: i32) -> NodeState {
    if byte == SELECTED {
        NodeState::Matched
    } else if direction > 0 && byte & direction_bit(direction) != 0 {
        NodeState::Visited
    } else {
        NodeState::Unknown
    }
}

/// The pixel's byte after a visit from `direction`: a first visit from a
/// direction other than the seed-scan one sets that direction's bit.
pub open spec fn visit_byte(byte: u8, direction: i32) -> u8 {
    if visit_state(byte, direction) == NodeState::Unknown && direction > 0 {
        byte | direction_bit(direction)
    } else {
        byte
    }
}

/// Whether the cell `(cx, cy)` lies in the rectangle at `(x, y)` of `w` by `h` cells.
pub open spec fn in_rect(cx: int, cy: int, x: int, y: int, w: int, h: int) -> bool {
    x <= cx < x + w && y <= cy < y + h
}

/// `cells`, a grid of `grid_width` columns, with `value` in every cell of the
/// rectangle at `(x, y)` of `w` by `h` cells and all other cells as they were.
pub open spec fn rect_fill(cells: Seq<u8>, grid_width: int, x: int, y: int, w: int, h: int, value: u8) -> Seq<u8> {
    Seq::new(
        cells.len(),
        |i: int|
            if grid_width > 0 && in_rect(i % grid_width, i / grid_width, x, y, w, h) {
                value
            } else {
                cells[i]
            },
    )
}

/// `fresh` with every cell that is selected in `prior` selected too.
pub open spec fn union_selected(fresh: Seq<u8>, prior: Seq<u8>) -> Seq<u8> {
    Seq::new(
        fresh.len(),
        |i: int|
            if i < prior.len() && prior[i] == SELECTED {
                SELECTED
            } else {
                fresh[i]
            },
    )
}

/// An index below `width * height` names a column below `width` and a row below `height`.
pub proof fn lemma_cell_of_index(i: int, width: int, height: int)
    requires
        0 <= i < width * height,
        0 <= width,
        0 <= height,
    ensures
        width > 0,
        0 <= i % width < width,
        0 <= i / width < height,
        i == (i / width) * width + i % width,
{
    assert(width > 0) by (nonlinear_arith)
        requires
            0 <= i < width * height,
            0 <= width,
    ;
    vstd::arithmetic::div_mod::lemma_fundamental_div_mod(i, width);
    vstd::arithmetic::div_mod::lemma_mod_bound(i, width);
    let q = i / width;
    assert(width * q == q * width) by (nonlinear_arith);
    assert(q < height) by (nonlinear_arith)
        requires
            q * width + i % width < width * height,
            0 <= i % width,
            width > 0,
    {
        if q >= height {
            assert(q * width >= height * width);
        }
    }
    assert(q >= 0) by (nonlinear_arith)
        requires
            q * width + i % width >= 0,
            i % width < width,
            width > 0,
    {
        if q < 0 {
            assert(q * width <= -width);
        }
    }
}

/// A grid of state bytes in row-major order. The byte 255 marks a selected
/// pixel; any other byte holds the directions from which the pixel was
/// visited during one traversal.
pub struct Mask {
    dimensions: Dimensions,
    values: Vec<u8>,
}

impl View for Mask {
    type V = Seq<u8>;

    /// The mask's bytes in row-major order.
    closed spec fn view(&self) -> Seq<u8> {
        self.values@
    }
}

impl Mask {
    /// Number of columns.
    pub closed spec fn width(&self) -> usize {
        self.dimensions.width
    }

    /// Number of rows.
    pub closed spec fn height(&self) -> usize {
        self.dimensions.height
    }

    /// Width and height together.
    pub open spec fn size(&self) -> Dimensions {
        Dimensions { width: self.width(), height: self.height() }
    }

    /// The mask holds one byte per pixel.
    pub open spec fn wf(&self) -> bool {
        self@.len() == self.width() * self.height()
    }

    /// A mask of `width` by `height` pixels with the given bytes, or with all
    /// bytes zero where none are given.
    pub fn new(values: Option<Vec<u8>>, width: usize, height: usize) -> (mask: Mask)
        requires
            values matches Some(bytes) ==> bytes@.len() == width * height,
            values is None ==> width * height <= usize::MAX,
        ensures
            mask.wf(),
            mask.width() == width,
            mask.height() == height,
            values matches Some(bytes) ==> mask@ == bytes@,
            values is None ==> mask@ == Seq::new((width * height) as nat, |i: int| 0u8),
    {
        let values = match values {
            Some(values) => values,
            None => {
                let zeros = vec![0u8; width * height];
                assert(zeros@ =~= Seq::new((width * height) as nat, |i: int| 0u8));
                zeros
            },
        };
        Mask { values, dimensions: Dimensions { width, height } }
    }

    /// A fresh mask of the image's own size, grown from the seed rectangle at
    /// `(x, y)` of `width` by `height` pixels, and whether the growth was cut
    /// short by `limit`.
    pub fn from_flood(
        image: &Image,
        x: usize,
        y: usize,
        width: usize,
        height: usize,
        threshold: i32,
        limit: usize,
    ) -> (out: (Mask, bool))
        requires
            image.wf(),
            image.width() * image.height() <= usize::MAX,
            x + width <= usize::MAX,
            y + height <= usize::MAX,
        ensures
            out.0.wf(),
            out.0.size() == image.size(),
            out.0@ == flood_cells(image, image.size(), x, y, width, height, threshold, limit as nat),
            out.1 == flood_truncated(
                image,
                image.size(),
                x,
                y,
                width,
                height,
                threshold,
                limit as nat,
            ),
    {
        crate::flood::flood(image, image.dimensions(), x, y, width, height, threshold, limit)
    }

    /// A mask of this mask's size, grown from the seed rectangle over `image`,
    /// in which every pixel that is selected in this mask is selected too; and
    /// whether the growth was cut short by `limit`.
    pub fn flood(
        &self,
        image: &Image,
        x: usize,
        y: usize,
        width: usize,
        height: usize,
        threshold: i32,
        limit: usize,
    ) -> (out: (Mask, bool))
        requires
            self.wf(),
            image.wf(),
            x + width <= usize::MAX,
            y + height <= usize::MAX,
        ensures
            out.0.wf(),
            out.0.size() == self.size(),
            out.0@ == union_selected(
                flood_cells(image, self.size(), x, y, width, height, threshold, limit as nat),
                self@,
            ),
            out.1 == flood_truncated(
                image,
                self.size(),
                x,
                y,
                width,
                height,
                threshold,
                limit as nat,
            ),
            forall|i: int| 0 <= i < self@.len() && self@[i] == SELECTED ==> out.0@[i] == SELECTED,
    {
        let total: usize = self.values.len();
        let grown = crate::flood::flood(
            image,
            self.dimensions,
            x,
            y,
            width,
            height,
            threshold,
            limit,
        );
        let mut mask = grown.0;
        let ghost fresh = mask.values@;
        let mut i: usize = 0;
        while i < total
            invariant
                i <= total,
                total == self.values@.len(),
                mask.values@.len() == total,
                fresh.len() == total,
                mask.dimensions == self.dimensions,
                forall|j: int|
                    0 <= j < total ==> #[trigger] mask.values@[j] == if j < i && self.values@[j]
                        == SELECTED {
                        SELECTED
                    } else {
                        fresh[j]
                    },
            decreases total - i,
        {
            if self.values[i] == SELECTED {
                mask.values.set(i, SELECTED);
            }
            i += 1;
        }
        assert(mask.values@ =~= union_selected(fresh, self.values@));
        (mask, grown.1)
    }

    /// Overwrites with `value` every pixel of the rectangle at `(x, y)` of
    /// `width` by `height` pixels that lies in the mask.
    pub fn fill_inplace(&mut self, x: usize, y: usize, width: usize, height: usize, value: u8)
        requires
            old(self).wf(),
        ensures
            final(self).wf(),
            final(self).width() == old(self).width(),
            final(self).height() == old(self).height(),
            final(self)@ == rect_fill(
                old(self)@,
                old(self).width() as int,
                x as int,
                y as int,
                width as int,
                height as int,
                value,
            ),
    {
        let mw: usize = self.dimensions.width;
        let mh: usize = self.dimensions.height;
        let x1: usize = if x < mw { x } else { mw };
        let y1: usize = if y < mh { y } else { mh };
        let x2: usize = if width < mw - x1 { x1 + width } else { mw };
        let y2: usize = if height < mh - y1 { y1 + height } else { mh };
        let ghost before = self.values@;
        let total: usize = self.values.len();
        let mut yi: usize = y1;
        while yi < y2
            invariant
                y1 <= yi <= y2 <= mh,
                x1 <= x2 <= mw,
                mw == self.dimensions.width,
                mh == self.dimensions.height,
                self.values@.len() == before.len(),
                before.len() == mw * mh,
                before.len() == total,
                x1 == if x < mw { x } else { mw },
                y1 == if y < mh { y } else { mh },
                x2 == if x + width < mw { x + width } else { mw as int },
                y2 == if y + height < mh { y + height } else { mh as int },
                forall|i: int|
                    0 <= i < before.len() ==> #[trigger] self.values@[i] == if in_rect(
                        i % (mw as int),
                        i / (mw as int),
                        x as int,
                        y as int,
                        width as int,
                        height as int,
                    ) && i / (mw as int) < yi {
                        value
                    } else {
                        before[i]
                    },
            decreases y2 - yi,
        {
            let mut xi: usize = x1;
            while xi < x2
                invariant
                    y1 <= yi < y2 <= mh,
                    x1 <= xi <= x2 <= mw,
                    mw == self.dimensions.width,
                    mh == self.dimensions.height,
                    self.values@.len() == before.len(),
                    before.len() == mw * mh,
                before.len() == total,
                    x1 == if x < mw { x } else { mw },
                    y1 == if y < mh { y } else { mh },
                    x2 == if x + width < mw { x + width } else { mw as int },
                    y2 == if y + height < mh { y + height } else { mh as int },
                    forall|i: int|
                        0 <= i < before.len() ==> #[trigger] self.values@[i] == if in_rect(
                            i % (mw as int),
                            i / (mw as int),
                            x as int,
                            y as int,
                            width as int,
                            height as int,
                        ) && (i / (mw as int) < yi || (i / (mw as int) == yi && i % (mw as int)
                            < xi)) {
                            value
                        } else {
                            before[i]
                        },
                decreases x2 - xi,
            {
                proof {
                    lemma_index_in_grid(xi as int, yi as int, mw as int, mh as int);
                }
                let k: usize = yi * mw + xi;
                self.values.set(k, value);
                proof {
                    assert forall|i: int| 0 <= i < before.len() implies #[trigger] self.values@[i]
                        == if in_rect(
                        i % (mw as int),
                        i / (mw as int),
                        x as int,
                        y as int,
                        width as int,
                        height as int,
                    ) && (i / (mw as int) < yi || (i / (mw as int) == yi && i % (mw as int) < xi
                        + 1)) {
                        value
                    } else {
                        before[i]
                    } by {
                        lemma_cell_of_index(i, mw as int, mh as int);
                    }
                }
                xi += 1;
            }
            proof {
                assert forall|i: int| 0 <= i < before.len() implies #[trigger] self.values@[i]
                    == if in_rect(
                    i % (mw as int),
                    i / (mw as int),
                    x as int,
                    y as int,
                    width as int,
                    height as int,
                ) && i / (mw as int) < yi + 1 {
                    value
                } else {
                    before[i]
                } by {
                    lemma_cell_of_index(i, mw as int, mh as int);
                }
            }
            yi += 1;
        }
        proof {
            assert forall|i: int| 0 <= i < before.len() implies #[trigger] self.values@[i]
                == rect_fill(
                before,
                mw as int,
                x as int,
                y as int,
                width as int,
                height as int,
                value,
            )[i] by {
                lemma_cell_of_index(i, mw as int, mh as int);
            }
            assert(self.values@ =~= rect_fill(
                before,
                mw as int,
                x as int,
                y as int,
                width as int,
                height as int,
                value,
            ));
        }
    }

    /// A copy of the mask with the rectangle at `(x, y)` of `width` by `height`
    /// pixels filled with `value`; the mask itself stays as it is.
    pub fn fill(&self, x: usize, y: usize, width: usize, height: usize, value: u8) -> (filled: Mask)
        requires
            self.wf(),
        ensures
            filled.wf(),
            filled.width() == self.width(),
            filled.height() == self.height(),
            filled@ == rect_fill(
                self@,
                self.width() as int,
                x as int,
                y as int,
                width as int,
                height as int,
                value,
            ),
    {
        let mut filled = Mask { values: self.values.clone(), dimensions: self.dimensions };
        assert(filled.values@ =~= self.values@);
        filled.fill_inplace(x, y, width, height, value);
        filled
    }

    /// Width and height of the mask.
    pub fn dimensions(&self) -> (d: Dimensions)
        ensures
            d.width == self.width(),
            d.height == self.height(),
    {
        self.dimensions
    }

    /// A copy of the mask's bytes in row-major order.
    pub fn contents(&self) -> (bytes: Vec<u8>)
        ensures
            bytes@ == self@,
    {
        let bytes = self.values.clone();
        assert(bytes@ =~= self.values@);
        bytes
    }

    /// The byte of pixel `(x, y)`.
    pub fn get(&self, x: usize, y: usize) -> (byte: u8)
        requires
            self.wf(),
            x < self.width(),
            y < self.height(),
        ensures
            byte == self@[y * self.width() + x],
    {
        let total: usize = self.values.len();
        proof {
            lemma_index_in_grid(x as int, y as int, self.width() as int, self.height() as int);
        }
        self.values[y * self.dimensions.width + x]
    }

    /// Reports what a traversal finds at `point` when it arrives from
    /// `direction`, and records the visit: a selected pixel is `Matched` and
    /// stays as it is; a pixel whose bit for `direction` is set is `Visited`;
    /// any other is `Unknown`, and its bit for `direction` is set unless
    /// `direction` is the seed-scan direction. Outside the mask: `IndexError`.
    pub fn visit(&mut self, point: &Point, direction: i32) -> (state: Result<NodeState, VectorError>)
        requires
            old(self).wf(),
        ensures
            final(self).wf(),
            final(self).width() == old(self).width(),
            final(self).height() == old(self).height(),
            index_of(point.x, point.y, old(self).width(), old(self).height(), 1) matches Some(i)
                ==> state == Ok::<NodeState, VectorError>(visit_state(old(self)@[i], direction))
                && final(self)@ == old(self)@.update(i, visit_byte(old(self)@[i], direction)),
            index_of(point.x, point.y, old(self).width(), old(self).height(), 1) is None ==> state
                == Err::<NodeState, VectorError>(VectorError::IndexError) && final(self)@ == old(
                self,
            )@,
            index_of(point.x, point.y, old(self).width(), old(self).height(), 1) matches Some(i)
                && old(self)@[i] == SELECTED ==> state == Ok::<NodeState, VectorError>(
                NodeState::Matched,
            ) && final(self)@ == old(self)@,
    {
        let total: usize = self.values.len();
        match point2index(point.x, point.y, self.dimensions.width, self.dimensions.height, 1) {
            Ok(start) => {
                let initial: u8 = self.values[start];
                if initial == SELECTED {
                    assert(self.values@ =~= self.values@.update(start as int, initial));
                    return Ok(NodeState::Matched);
                }
                let current: u8 = bit_of(direction);
                let visited = (direction > 0) && ((initial & current) != 0);
                if visited {
                    assert(self.values@ =~= self.values@.update(start as int, initial));
                    return Ok(NodeState::Visited);
                }
                if direction > 0 {
                    self.values.set(start, initial | current);
                } else {
                    assert(self.values@ =~= self.values@.update(start as int, initial));
                }
                Ok(NodeState::Unknown)
            },
            Err(e) => Err(e),
        }
    }

    /// Overwrites the byte at `point` with `value`; `IndexError` outside the mask.
    pub fn set(&mut self, point: &Point, value: u8) -> (done: Result<(), VectorError>)
        requires
            old(self).wf(),
        ensures
            final(self).wf(),
            final(self).width() == old(self).width(),
            final(self).height() == old(self).height(),
            index_of(point.x, point.y, old(self).width(), old(self).height(), 1) matches Some(i)
                ==> done is Ok && final(self)@ == old(self)@.update(i, value),
            index_of(point.x, point.y, old(self).width(), old(self).height(), 1) is None ==> done
                == Err::<(), VectorError>(VectorError::IndexError) && final(self)@ == old(self)@,
    {
        let total: usize = self.values.len();
        match point2index(point.x, point.y, self.dimensions.width, self.dimensions.height, 1) {
            Ok(start) => {
                self.values.set(start, value);
                Ok(())
            },
            Err(e) => Err(e),
        }
    }
}

/// Once a pixel is selected, a visit from any direction reports `Matched` and
/// leaves its byte as it is.
pub proof fn lemma_visit_selected(direction: i32)
    ensures
        visit_state(SELECTED, direction) == NodeState::Matched,
        visit_byte(SELECTED, direction) == SELECTED,
{
}

/// Whatever is selected before an incremental flood is selected after it:
/// the union keeps every selected cell of the prior mask and every cell of
/// the fresh one elsewhere.
pub proof fn lemma_union_keeps_selection(fresh: Seq<u8>, prior: Seq<u8>, i: int)
    requires
        0 <= i < fresh.len(),
        fresh.len() == prior.len(),
    ensures
        prior[i] == SELECTED ==> union_selected(fresh, prior)[i] == SELECTED,
        prior[i] != SELECTED ==> union_selected(fresh, prior)[i] == fresh[i],
        fresh[i] == SELECTED ==> union_selected(fresh, prior)[i] == SELECTED,
{
}

/// Filling a rectangle changes no pixel outside it, whatever part of it lies in the grid.
pub proof fn lemma_fill_clamps(cells: Seq<u8>, grid_width: int, x: int, y: int, w: int, h: int, value: u8, i: int)
    requires
        0 <= i < cells.len(),
        grid_width > 0,
    ensures
        rect_fill(cells, grid_width, x, y, w, h, value).len() == cells.len(),
        rect_fill(cells, grid_width, x, y, w, h, value)[i] == if in_rect(
            i % grid_width,
            i / grid_width,
            x,
            y,
            w,
            h,
        ) {
            value
        } else {
            cells[i]
        },
{
}

} // verus!
