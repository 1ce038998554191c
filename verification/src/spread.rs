//! Why a uniformly coloured image floods fully.
//!
//! The argument follows the traversal's model: a step keeps every selected
//! pixel outside the rectangle's inside either surrounded by selected pixels
//! or waiting in the queue; the queue runs empty once every pixel has been
//! queued at most once beside the seeds; and from the rectangle's corner
//! every pixel is reached along a row and a column of surrounded pixels.

use crate::flood::{
    entry_color, entry_of, expand, flood_cells, flood_truncated, grows, keeps_selection, reach,
    run, scale_between, seed_columns, seed_rows, seeded, seeds, with_seed, Entry, FloodState,
};
use crate::geometry::{lemma_index_in_grid, Dimensions, Point, Scale, Vector};
use crate::image::Image;
use crate::mask::{direction_bit, lemma_cell_of_index, SELECTED};
use vstd::prelude::*;

verus! {

/// Row-major index of the cell `(cx, cy)`.
pub open spec fn at(size: Dimensions, cx: int, cy: int) -> int {
    cy * size.width + cx
}

/// Whether the cell `(cx, cy)` lies in a mask of `size`.
pub open spec fn in_mask(size: Dimensions, cx: int, cy: int) -> bool {
    0 <= cx < size.width && 0 <= cy < size.height
}

/// The cell lies in the mask and is selected.
pub open spec fn chosen(cells: Seq<u8>, size: Dimensions, cx: int, cy: int) -> bool {
    in_mask(size, cx, cy) && cells[at(size, cx, cy)] == SELECTED
}

/// The cell is selected, or lies outside the mask.
pub open spec fn settled(cells: Seq<u8>, size: Dimensions, cx: int, cy: int) -> bool {
    in_mask(size, cx, cy) ==> cells[at(size, cx, cy)] == SELECTED
}

/// All four neighbours of the cell are settled.
pub open spec fn surrounded(cells: Seq<u8>, size: Dimensions, cx: int, cy: int) -> bool {
    settled(cells, size, cx, cy - 1) && settled(cells, size, cx - 1, cy) && settled(
        cells,
        size,
        cx,
        cy + 1,
    ) && settled(cells, size, cx + 1, cy)
}

/// Some pending entry stands at `(cx, cy)`.
pub open spec fn waiting(pending: Seq<Entry>, cx: int, cy: int) -> bool {
    exists|k: int| 0 <= k < pending.len() && (#[trigger] pending[k]).0 == cx && pending[k].1 == cy
}

/// No byte holds a record of a visit.
pub open spec fn clean(cells: Seq<u8>) -> bool {
    forall|j: int| 0 <= j < cells.len() ==> #[trigger] cells[j] == 0 || cells[j] == SELECTED
}

/// Any two colours of the image are within `threshold` of each other.
pub open spec fn uniform(image: &Image, threshold: i32) -> bool {
    image.colors() matches Some(c) && forall|a: int, b: int|
        #![trigger c[a], c[b]]
        0 <= a < c.len() && 0 <= b < c.len() ==> c[a].within_spec(&c[b], threshold)
}

/// Every colour of the image is within `threshold` of the entry's.
pub open spec fn agreeable(image: &Image, threshold: i32, e: Entry) -> bool {
    image.colors() matches Some(c) && forall|a: int|
        0 <= a < c.len() ==> (#[trigger] c[a]).within_spec(&entry_color(e), threshold)
}

/// Every pending entry is agreeable.
pub open spec fn all_agreeable(image: &Image, threshold: i32, pending: Seq<Entry>) -> bool {
    forall|k: int| 0 <= k < pending.len() ==> agreeable(image, threshold, #[trigger] pending[k])
}

/// The number of cells that are not selected.
pub open spec fn unselected(cells: Seq<u8>) -> nat
    decreases cells.len(),
{
    if cells.len() == 0 {
        0
    } else {
        unselected(cells.drop_last()) + if cells.last() == SELECTED {
            0nat
        } else {
            1nat
        }
    }
}

/// An image with colour data and at least one pixel, all of whose colours are
/// within a threshold that is not negative.
pub open spec fn fitting(image: &Image, threshold: i32) -> bool {
    image.wf() && image.width() > 0 && image.height() > 0 && uniform(image, threshold) && threshold
        >= 0
}

proof fn lemma_unselected_bound(cells: Seq<u8>)
    ensures
        unselected(cells) <= cells.len(),
    decreases cells.len(),
{
    if cells.len() > 0 {
        lemma_unselected_bound(cells.drop_last());
    }
}

proof fn lemma_unselected_update(cells: Seq<u8>, i: int)
    requires
        0 <= i < cells.len(),
        cells[i] != SELECTED,
    ensures
        unselected(cells.update(i, SELECTED)) + 1 == unselected(cells),
    decreases cells.len(),
{
    let after = cells.update(i, SELECTED);
    if i == cells.len() - 1 {
        assert(after.drop_last() =~= cells.drop_last());
    } else {
        assert(after.drop_last() =~= cells.drop_last().update(i, SELECTED));
        lemma_unselected_update(cells.drop_last(), i);
    }
}

proof fn lemma_scaled_in_image(c: int, num: int, den: int)
    requires
        0 <= c < den,
        0 < num,
    ensures
        0 <= (c * num) / den < num,
{
    vstd::arithmetic::div_mod::lemma_fundamental_div_mod(c * num, den);
    vstd::arithmetic::div_mod::lemma_mod_bound(c * num, den);
    let q = (c * num) / den;
    let r = (c * num) % den;
    assert(c * num < den * num) by (nonlinear_arith)
        requires
            0 <= c < den,
            0 < num,
    ;
    assert(0 <= c * num) by (nonlinear_arith)
        requires
            0 <= c,
            0 < num,
    ;
    assert(q < num) by (nonlinear_arith)
        requires
            den * q + r == c * num,
            0 <= r,
            c * num < den * num,
            den > 0,
    ;
    assert(q >= 0) by (nonlinear_arith)
        requires
            den * q + r == c * num,
            r < den,
            0 <= c * num,
            den > 0,
    ;
}

/// A colour that a lookup finds is a colour of the image.
proof fn lemma_sample_agreeable(image: &Image, threshold: i32, scale: &Scale, x: usize, y: usize)
    requires
        fitting(image, threshold),
        image.sample(x, y, scale) is Ok,
    ensures
        agreeable(image, threshold, entry_of(Point { x, y }, image.sample(x, y, scale).unwrap())),
        forall|e: Entry|
            agreeable(image, threshold, e) ==> image.sample(x, y, scale).unwrap().within_spec(
                &entry_color(e),
                threshold,
            ),
{
    let p = scale.rescale_spec(x, y, image.size()).unwrap();
    lemma_index_in_grid(p.x as int, p.y as int, image.width() as int, image.height() as int);
    let colors = image.colors().unwrap();
    let m = p.y * image.width() + p.x;
    let c = colors[m];
    assert(image.sample(x, y, scale).unwrap() == c);
    assert(entry_color(entry_of(Point { x, y }, c)) == c);
    assert forall|a: int| 0 <= a < colors.len() implies (#[trigger] colors[a]).within_spec(
        &entry_color(entry_of(Point { x, y }, c)),
        threshold,
    ) by {
        assert(colors[a].within_spec(&colors[m], threshold));
    }
}

/// Every pixel of the mask has a colour in the image under it.
proof fn lemma_mask_pixel_has_colour(image: &Image, size: Dimensions, threshold: i32, x: usize, y: usize)
    requires
        fitting(image, threshold),
        x < size.width,
        y < size.height,
    ensures
        image.sample(x, y, &scale_between(image, size)) is Ok,
{
    lemma_scaled_in_image(x as int, image.width() as int, size.width as int);
    lemma_scaled_in_image(y as int, image.height() as int, size.height as int);
}

/// `after` is `st` with some unselected cells selected and queued.
pub open spec fn advances(
    image: &Image,
    size: Dimensions,
    threshold: i32,
    st: FloodState,
    after: FloodState,
) -> bool {
    &&& after.cells.len() == st.cells.len()
    &&& clean(after.cells)
    &&& keeps_selection(st.cells, after.cells)
    &&& after.pending.len() >= st.pending.len()
    &&& forall|k: int| 0 <= k < st.pending.len() ==> #[trigger] after.pending[k] == st.pending[k]
    &&& all_agreeable(image, threshold, after.pending)
    &&& forall|cx: int, cy: int| #[trigger]
        chosen(after.cells, size, cx, cy) && !chosen(st.cells, size, cx, cy) ==> waiting(
            after.pending,
            cx,
            cy,
        )
    &&& after.pending.len() + unselected(after.cells) == st.pending.len() + unselected(st.cells)
}

proof fn lemma_waiting_extends(before: Seq<Entry>, after: Seq<Entry>, cx: int, cy: int)
    requires
        waiting(before, cx, cy),
        after.len() >= before.len(),
        forall|k: int| 0 <= k < before.len() ==> #[trigger] after[k] == before[k],
    ensures
        waiting(after, cx, cy),
{
    let k = choose|k: int| 0 <= k < before.len() && (#[trigger] before[k]).0 == cx && before[k].1 == cy;
    assert(after[k] == before[k]);
}

proof fn lemma_advances_chain(
    image: &Image,
    size: Dimensions,
    threshold: i32,
    st: FloodState,
    mid: FloodState,
    after: FloodState,
)
    requires
        advances(image, size, threshold, st, mid),
        advances(image, size, threshold, mid, after),
    ensures
        advances(image, size, threshold, st, after),
{
    assert forall|k: int| 0 <= k < st.pending.len() implies #[trigger] after.pending[k]
        == st.pending[k] by {
        assert(mid.pending[k] == st.pending[k]);
    }
    assert forall|cx: int, cy: int| #[trigger]
        chosen(after.cells, size, cx, cy) && !chosen(st.cells, size, cx, cy) implies waiting(
        after.pending,
        cx,
        cy,
    ) by {
        if chosen(mid.cells, size, cx, cy) {
            lemma_waiting_extends(mid.pending, after.pending, cx, cy);
        }
    }
}

/// The offset moves by at most one cell on each axis.
pub open spec fn is_compass(v: Vector) -> bool {
    -1 <= v.dx <= 1 && -1 <= v.dy <= 1
}

proof fn lemma_reach_advances(
    image: &Image,
    size: Dimensions,
    threshold: i32,
    st: FloodState,
    node: Entry,
    v: Vector,
)
    requires
        fitting(image, threshold),
        st.cells.len() == size.width * size.height,
        clean(st.cells),
        all_agreeable(image, threshold, st.pending),
        agreeable(image, threshold, node),
        is_compass(v),
    ensures
        advances(
            image,
            size,
            threshold,
            st,
            reach(image, &scale_between(image, size), size, threshold, st, node, v),
        ),
        settled(
            reach(image, &scale_between(image, size), size, threshold, st, node, v).cells,
            size,
            node.0 + v.dx,
            node.1 + v.dy,
        ),
{
    let scale = scale_between(image, size);
    let after = reach(image, &scale, size, threshold, st, node, v);
    let p = Point { x: node.0, y: node.1 }.add_spec(&v);
    if p.x < size.width && p.y < size.height {
        lemma_index_in_grid(p.x as int, p.y as int, size.width as int, size.height as int);
        lemma_mask_pixel_has_colour(image, size, threshold, p.x, p.y);
        lemma_sample_agreeable(image, threshold, &scale, p.x, p.y);
        let i = p.y * size.width + p.x;
        let c = image.sample(p.x, p.y, &scale).unwrap();
        let bit = direction_bit(v.di);
        assert(0u8 & bit == 0) by (bit_vector);
        if st.cells[i] == SELECTED {
            assert(after.cells =~= st.cells);
            assert(after.pending == st.pending);
        } else {
            assert(st.cells[i] == 0);
            assert(after.cells =~= st.cells.update(i, SELECTED));
            let e = entry_of(p, c);
            assert(after.pending == st.pending.push(e));
            lemma_unselected_update(st.cells, i);
            assert forall|cx: int, cy: int| #[trigger]
                chosen(after.cells, size, cx, cy) && !chosen(st.cells, size, cx, cy) implies waiting(
                after.pending,
                cx,
                cy,
            ) by {
                lemma_index_in_grid(cx, cy, size.width as int, size.height as int);
                assert(at(size, cx, cy) == i);
                assert(after.pending[st.pending.len() as int] == e);
            }
        }
    } else {
        assert(after == st);
    }
}

proof fn lemma_settled_stays(before: Seq<u8>, after: Seq<u8>, size: Dimensions, cx: int, cy: int)
    requires
        before.len() == size.width * size.height,
        keeps_selection(before, after),
        settled(before, size, cx, cy),
    ensures
        settled(after, size, cx, cy),
{
    if in_mask(size, cx, cy) {
        lemma_index_in_grid(cx, cy, size.width as int, size.height as int);
    }
}

proof fn lemma_expand_advances(
    image: &Image,
    size: Dimensions,
    threshold: i32,
    st: FloodState,
    node: Entry,
)
    requires
        fitting(image, threshold),
        st.cells.len() == size.width * size.height,
        clean(st.cells),
        all_agreeable(image, threshold, st.pending),
        agreeable(image, threshold, node),
    ensures
        advances(
            image,
            size,
            threshold,
            st,
            expand(image, &scale_between(image, size), size, threshold, st, node),
        ),
        surrounded(
            expand(image, &scale_between(image, size), size, threshold, st, node).cells,
            size,
            node.0 as int,
            node.1 as int,
        ),
{
    let scale = scale_between(image, size);
    let (n, w, s, e) = (
        crate::geometry::north(),
        crate::geometry::west(),
        crate::geometry::south(),
        crate::geometry::east(),
    );
    let a = reach(image, &scale, size, threshold, st, node, n);
    lemma_reach_advances(image, size, threshold, st, node, n);
    let b = reach(image, &scale, size, threshold, a, node, w);
    lemma_reach_advances(image, size, threshold, a, node, w);
    lemma_advances_chain(image, size, threshold, st, a, b);
    let c = reach(image, &scale, size, threshold, b, node, s);
    lemma_reach_advances(image, size, threshold, b, node, s);
    lemma_advances_chain(image, size, threshold, st, b, c);
    let d = reach(image, &scale, size, threshold, c, node, e);
    lemma_reach_advances(image, size, threshold, c, node, e);
    lemma_advances_chain(image, size, threshold, st, c, d);
    let (x, y) = (node.0 as int, node.1 as int);
    lemma_settled_stays(a.cells, b.cells, size, x, y - 1);
    lemma_settled_stays(b.cells, c.cells, size, x, y - 1);
    lemma_settled_stays(c.cells, d.cells, size, x, y - 1);
    lemma_settled_stays(b.cells, c.cells, size, x - 1, y);
    lemma_settled_stays(c.cells, d.cells, size, x - 1, y);
    lemma_settled_stays(c.cells, d.cells, size, x, y + 1);
}

/// The cell lies strictly right of the rectangle's left column and strictly
/// below its top row, inside the rectangle.
pub open spec fn inside(x: usize, y: usize, width: usize, height: usize, cx: int, cy: int) -> bool {
    x < cx < x + width && y < cy < y + height
}

/// Every selected cell that is not inside the rectangle is surrounded or waiting.
pub open spec fn frontier_kept(
    st: FloodState,
    size: Dimensions,
    x: usize,
    y: usize,
    width: usize,
    height: usize,
) -> bool {
    forall|cx: int, cy: int| #[trigger]
        chosen(st.cells, size, cx, cy) && !inside(x, y, width, height, cx, cy) ==> surrounded(
            st.cells,
            size,
            cx,
            cy,
        ) || waiting(st.pending, cx, cy)
}

/// What every state of a traversal over a uniform image satisfies.
pub open spec fn sound(
    image: &Image,
    size: Dimensions,
    threshold: i32,
    x: usize,
    y: usize,
    width: usize,
    height: usize,
    st: FloodState,
) -> bool {
    &&& st.cells.len() == size.width * size.height
    &&& clean(st.cells)
    &&& all_agreeable(image, threshold, st.pending)
    &&& frontier_kept(st, size, x, y, width, height)
}

proof fn lemma_surrounded_stays(before: Seq<u8>, after: Seq<u8>, size: Dimensions, cx: int, cy: int)
    requires
        before.len() == size.width * size.height,
        keeps_selection(before, after),
        surrounded(before, size, cx, cy),
    ensures
        surrounded(after, size, cx, cy),
{
    lemma_settled_stays(before, after, size, cx, cy - 1);
    lemma_settled_stays(before, after, size, cx - 1, cy);
    lemma_settled_stays(before, after, size, cx, cy + 1);
    lemma_settled_stays(before, after, size, cx + 1, cy);
}

proof fn lemma_step_sound(
    image: &Image,
    size: Dimensions,
    threshold: i32,
    x: usize,
    y: usize,
    width: usize,
    height: usize,
    st: FloodState,
)
    requires
        fitting(image, threshold),
        sound(image, size, threshold, x, y, width, height, st),
        st.pending.len() > 0,
    ensures
        ({
            let rest = FloodState { cells: st.cells, pending: st.pending.drop_first() };
            let next = expand(
                image,
                &scale_between(image, size),
                size,
                threshold,
                rest,
                st.pending[0],
            );
            &&& sound(image, size, threshold, x, y, width, height, next)
            &&& next.pending.len() + unselected(next.cells) + 1 == st.pending.len() + unselected(
                st.cells,
            )
        }),
{
    let head = st.pending[0];
    let rest = FloodState { cells: st.cells, pending: st.pending.drop_first() };
    let next = expand(image, &scale_between(image, size), size, threshold, rest, head);
    assert(agreeable(image, threshold, head));
    assert forall|k: int| 0 <= k < rest.pending.len() implies agreeable(
        image,
        threshold,
        #[trigger] rest.pending[k],
    ) by {
        assert(rest.pending[k] == st.pending[k + 1]);
    }
    lemma_expand_advances(image, size, threshold, rest, head);
    assert forall|cx: int, cy: int| #[trigger]
        chosen(next.cells, size, cx, cy) && !inside(x, y, width, height, cx, cy) implies surrounded(
        next.cells,
        size,
        cx,
        cy,
    ) || waiting(next.pending, cx, cy) by {
        if cx == head.0 && cy == head.1 {
        } else if chosen(st.cells, size, cx, cy) {
            if surrounded(st.cells, size, cx, cy) {
                lemma_surrounded_stays(st.cells, next.cells, size, cx, cy);
            } else {
                let k = choose|k: int|
                    0 <= k < st.pending.len() && (#[trigger] st.pending[k]).0 == cx
                        && st.pending[k].1 == cy;
                assert(k > 0);
                assert(rest.pending[k - 1] == st.pending[k]);
                assert(waiting(rest.pending, cx, cy));
                lemma_waiting_extends(rest.pending, next.pending, cx, cy);
            }
        } else {
            assert(!chosen(rest.cells, size, cx, cy));
        }
    }
}

/// A traversal over a uniform image stays sound, and with enough steps it
/// ends with an empty queue.
proof fn lemma_run_sound(
    image: &Image,
    size: Dimensions,
    threshold: i32,
    x: usize,
    y: usize,
    width: usize,
    height: usize,
    st: FloodState,
    steps: nat,
)
    requires
        fitting(image, threshold),
        sound(image, size, threshold, x, y, width, height, st),
    ensures
        sound(
            image,
            size,
            threshold,
            x,
            y,
            width,
            height,
            run(image, &scale_between(image, size), size, threshold, st, steps),
        ),
        steps >= st.pending.len() + unselected(st.cells) ==> run(
            image,
            &scale_between(image, size),
            size,
            threshold,
            st,
            steps,
        ).pending.len() == 0,
    decreases steps,
{
    if steps > 0 && st.pending.len() > 0 {
        let rest = FloodState { cells: st.cells, pending: st.pending.drop_first() };
        let next = expand(image, &scale_between(image, size), size, threshold, rest, st.pending[0]);
        lemma_step_sound(image, size, threshold, x, y, width, height, st);
        lemma_run_sound(image, size, threshold, x, y, width, height, next, (steps - 1) as nat);
    }
}

/// What holds of a seed queue under construction: its entries are agreeable,
/// and there are at most `cap` of them.
pub open spec fn seed_queue(image: &Image, threshold: i32, pending: Seq<Entry>, cap: int) -> bool {
    all_agreeable(image, threshold, pending) && pending.len() <= cap
}

proof fn lemma_with_seed(image: &Image, threshold: i32, scale: &Scale, pending: Seq<Entry>, px: usize, py: usize, cap: int)
    requires
        fitting(image, threshold),
        seed_queue(image, threshold, pending, cap),
    ensures
        seed_queue(image, threshold, with_seed(image, scale, pending, px, py), cap + 1),
        with_seed(image, scale, pending, px, py).len() >= pending.len(),
        forall|k: int|
            0 <= k < pending.len() ==> #[trigger] with_seed(image, scale, pending, px, py)[k]
                == pending[k],
        image.sample(px, py, scale) is Ok ==> waiting(
            with_seed(image, scale, pending, px, py),
            px as int,
            py as int,
        ),
{
    if image.sample(px, py, scale) is Ok {
        lemma_sample_agreeable(image, threshold, scale, px, py);
        let e = entry_of(Point { x: px, y: py }, image.sample(px, py, scale).unwrap());
        assert(with_seed(image, scale, pending, px, py)[pending.len() as int] == e);
    }
}

proof fn lemma_seed_rows(image: &Image, threshold: i32, scale: &Scale, x: usize, y: usize, height: usize, n: nat)
    requires
        fitting(image, threshold),
        x + n <= usize::MAX,
        y + height <= usize::MAX,
    ensures
        seed_queue(image, threshold, seed_rows(image, scale, x, y, height, n), (2 * n) as int),
        forall|i: int|
            0 <= i < n && image.sample((x + i) as usize, y, scale) is Ok ==> #[trigger] waiting(
                seed_rows(image, scale, x, y, height, n),
                x + i,
                y as int,
            ),
    decreases n,
{
    if n > 0 {
        let prev = seed_rows(image, scale, x, y, height, (n - 1) as nat);
        lemma_seed_rows(image, threshold, scale, x, y, height, (n - 1) as nat);
        let column = (x + n - 1) as usize;
        let mid = with_seed(image, scale, prev, column, y);
        lemma_with_seed(image, threshold, scale, prev, column, y, 2 * (n - 1));
        let all = with_seed(image, scale, mid, column, (y + height) as usize);
        lemma_with_seed(image, threshold, scale, mid, column, (y + height) as usize, 2 * (n - 1) + 1);
        assert forall|i: int|
            0 <= i < n && image.sample((x + i) as usize, y, scale) is Ok implies #[trigger] waiting(
            all,
            x + i,
            y as int,
        ) by {
            if i < n - 1 {
                lemma_waiting_extends(prev, mid, x + i, y as int);
            }
            lemma_waiting_extends(mid, all, x + i, y as int);
        }
    }
}

proof fn lemma_seed_columns(
    image: &Image,
    threshold: i32,
    scale: &Scale,
    x: usize,
    y: usize,
    width: usize,
    start: Seq<Entry>,
    cap: int,
    n: nat,
)
    requires
        fitting(image, threshold),
        seed_queue(image, threshold, start, cap),
        x + width <= usize::MAX,
        y + n <= usize::MAX,
    ensures
        seed_queue(image, threshold, seed_columns(image, scale, x, y, width, start, n), cap + 2 * n),
        seed_columns(image, scale, x, y, width, start, n).len() >= start.len(),
        forall|k: int|
            0 <= k < start.len() ==> #[trigger] seed_columns(image, scale, x, y, width, start, n)[k]
                == start[k],
        forall|j: int|
            0 <= j < n && image.sample(x, (y + j) as usize, scale) is Ok ==> #[trigger] waiting(
                seed_columns(image, scale, x, y, width, start, n),
                x as int,
                y + j,
            ),
    decreases n,
{
    if n > 0 {
        let prev = seed_columns(image, scale, x, y, width, start, (n - 1) as nat);
        lemma_seed_columns(image, threshold, scale, x, y, width, start, cap, (n - 1) as nat);
        let row = (y + n - 1) as usize;
        let mid = with_seed(image, scale, prev, x, row);
        lemma_with_seed(image, threshold, scale, prev, x, row, cap + 2 * (n - 1));
        let all = with_seed(image, scale, mid, (x + width) as usize, row);
        lemma_with_seed(image, threshold, scale, mid, (x + width) as usize, row, cap + 2 * (n - 1) + 1);
        assert forall|k: int| 0 <= k < start.len() implies #[trigger] all[k] == start[k] by {
            assert(prev[k] == start[k]);
            assert(mid[k] == prev[k]);
        }
        assert forall|j: int|
            0 <= j < n && image.sample(x, (y + j) as usize, scale) is Ok implies #[trigger] waiting(
            all,
            x as int,
            y + j,
        ) by {
            if j < n - 1 {
                lemma_waiting_extends(prev, mid, x as int, y + j);
            }
            lemma_waiting_extends(mid, all, x as int, y + j);
        }
    }
}

/// A cell of the seeded mask is selected exactly if it lies in the rectangle.
proof fn lemma_seeded_cell(size: Dimensions, x: usize, y: usize, width: usize, height: usize, cx: int, cy: int)
    requires
        in_mask(size, cx, cy),
    ensures
        0 <= at(size, cx, cy) < size.width * size.height,
        seeded(size, x, y, width, height).len() == size.width * size.height,
        chosen(seeded(size, x, y, width, height), size, cx, cy) == (x <= cx < x + width && y <= cy
            < y + height),
        clean(seeded(size, x, y, width, height)),
{
    lemma_index_in_grid(cx, cy, size.width as int, size.height as int);
}

/// The state in which a traversal over a uniform image starts is sound.
proof fn lemma_start_sound(
    image: &Image,
    size: Dimensions,
    threshold: i32,
    x: usize,
    y: usize,
    width: usize,
    height: usize,
)
    requires
        fitting(image, threshold),
        x + width <= usize::MAX,
        y + height <= usize::MAX,
        size.width > 0,
        size.height > 0,
    ensures
        sound(
            image,
            size,
            threshold,
            x,
            y,
            width,
            height,
            FloodState {
                cells: seeded(size, x, y, width, height),
                pending: seeds(image, &scale_between(image, size), x, y, width, height),
            },
        ),
        seeds(image, &scale_between(image, size), x, y, width, height).len() <= 2 * (width + height),
{
    let scale = scale_between(image, size);
    let cells = seeded(size, x, y, width, height);
    let top = seed_rows(image, &scale, x, y, height, width as nat);
    let pending = seeds(image, &scale, x, y, width, height);
    lemma_seeded_cell(size, x, y, width, height, 0, 0);
    lemma_seed_rows(image, threshold, &scale, x, y, height, width as nat);
    lemma_seed_columns(image, threshold, &scale, x, y, width, top, 2 * width, height as nat);
    assert forall|cx: int, cy: int| #[trigger]
        chosen(cells, size, cx, cy) && !inside(x, y, width, height, cx, cy) implies surrounded(
        cells,
        size,
        cx,
        cy,
    ) || waiting(pending, cx, cy) by {
        lemma_seeded_cell(size, x, y, width, height, cx, cy);
        lemma_mask_pixel_has_colour(image, size, threshold, cx as usize, cy as usize);
        if cy == y {
            assert(waiting(top, x + (cx - x), y as int));
            lemma_waiting_extends(top, pending, cx, cy);
        } else {
            assert(cx == x);
            assert(waiting(pending, x as int, y + (cy - y)));
        }
    }
}

/// Along a row that does not cross the inside of the rectangle, selection
/// spreads from one chosen cell to every cell of the row.
proof fn lemma_walk_row(
    st: FloodState,
    size: Dimensions,
    x: usize,
    y: usize,
    width: usize,
    height: usize,
    from: int,
    to: int,
    cy: int,
)
    requires
        frontier_kept(st, size, x, y, width, height),
        st.pending.len() == 0,
        !(y < cy < y + height),
        chosen(st.cells, size, from, cy),
        in_mask(size, to, cy),
    ensures
        chosen(st.cells, size, to, cy),
    decreases
            if to >= from {
                to - from
            } else {
                from - to
            },
{
    if to != from {
        assert(surrounded(st.cells, size, from, cy));
        if to > from {
            lemma_walk_row(st, size, x, y, width, height, from + 1, to, cy);
        } else {
            lemma_walk_row(st, size, x, y, width, height, from - 1, to, cy);
        }
    }
}

/// Along a column that does not cross the inside of the rectangle, selection
/// spreads from one chosen cell to every cell of the column.
proof fn lemma_walk_column(
    st: FloodState,
    size: Dimensions,
    x: usize,
    y: usize,
    width: usize,
    height: usize,
    from: int,
    to: int,
    cx: int,
)
    requires
        frontier_kept(st, size, x, y, width, height),
        st.pending.len() == 0,
        !(x < cx < x + width),
        chosen(st.cells, size, cx, from),
        in_mask(size, cx, to),
    ensures
        chosen(st.cells, size, cx, to),
    decreases
            if to >= from {
                to - from
            } else {
                from - to
            },
{
    if to != from {
        assert(surrounded(st.cells, size, cx, from));
        if to > from {
            lemma_walk_column(st, size, x, y, width, height, from + 1, to, cx);
        } else {
            lemma_walk_column(st, size, x, y, width, height, from - 1, to, cx);
        }
    }
}

/// A uniformly coloured image floods fully.
///
/// Where the image has colour data and at least one pixel, any two of its
/// colours are within the threshold of each other, and the seed rectangle is
/// not empty and has its top left corner in the mask, a flood whose limit is
/// at least twice the rectangle's width plus height, plus the number of
/// pixels of the mask, selects every pixel of the mask and is not cut short.
pub proof fn lemma_uniform_image_floods_fully(
    image: &Image,
    size: Dimensions,
    x: usize,
    y: usize,
    width: usize,
    height: usize,
    threshold: i32,
    limit: nat,
)
    requires
        image.wf(),
        image.width() > 0,
        image.height() > 0,
        uniform(image, threshold),
        threshold >= 0,
        x < size.width,
        y < size.height,
        width > 0,
        height > 0,
        x + width <= usize::MAX,
        y + height <= usize::MAX,
        limit >= 2 * (width + height) + size.width * size.height,
    ensures
        flood_cells(image, size, x, y, width, height, threshold, limit).len() == size.width
            * size.height,
        forall|i: int|
            0 <= i < size.width * size.height ==> #[trigger] flood_cells(
                image,
                size,
                x,
                y,
                width,
                height,
                threshold,
                limit,
            )[i] == SELECTED,
        !flood_truncated(image, size, x, y, width, height, threshold, limit),
{
    let scale = scale_between(image, size);
    let start = FloodState {
        cells: seeded(size, x, y, width, height),
        pending: seeds(image, &scale, x, y, width, height),
    };
    lemma_start_sound(image, size, threshold, x, y, width, height);
    lemma_unselected_bound(start.cells);
    lemma_run_sound(image, size, threshold, x, y, width, height, start, limit);
    let end = run(image, &scale, size, threshold, start, limit);
    assert(grows(image, threshold));
    crate::flood::lemma_run_keeps_selection(image, &scale, size, threshold, start, limit);
    lemma_seeded_cell(size, x, y, width, height, x as int, y as int);
    assert(chosen(end.cells, size, x as int, y as int));
    assert forall|i: int| 0 <= i < size.width * size.height implies #[trigger] end.cells[i]
        == SELECTED by {
        lemma_cell_of_index(i, size.width as int, size.height as int);
        let cx = i % (size.width as int);
        let cy = i / (size.width as int);
        assert(at(size, cx, cy) == i);
        if !(y < cy < y + height) {
            lemma_walk_column(end, size, x, y, width, height, y as int, cy, x as int);
            lemma_walk_row(end, size, x, y, width, height, x as int, cx, cy);
        } else if !(x < cx < x + width) {
            lemma_walk_row(end, size, x, y, width, height, x as int, cx, y as int);
            lemma_walk_column(end, size, x, y, width, height, y as int, cy, cx);
        } else {
            lemma_seeded_cell(size, x, y, width, height, cx, cy);
        }
    }
}

} // verus!
