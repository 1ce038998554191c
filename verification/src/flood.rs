//! Bounded breadth-first growth of a mask from a seed rectangle.
//!
//! The traversal is modelled as a state (the mask's bytes and the pending
//! work queue) and a step function; the executable loop is proved to compute
//! exactly the state that the model reaches.

use crate::color::HSV;
use crate::geometry::{
    directions, east, index_of, lemma_index_in_grid, north, south, west, Dimensions, Point, Scale,
    Vector,
};
use crate::image::Image;
use crate::mask::{rect_fill, visit_byte, visit_state, Mask, NodeState, SELECTED};
use queues::{IsQueue, Queue};
use vstd::prelude::*;

verus! {

/// A pending node of the traversal: the pixel's `x` and `y`, then the hue,
/// saturation and value found there.
pub type Entry = (usize, usize, i32, i32, i32);

/// `Queue` of queues, a first-in first-out queue over a vector. Its contents
/// are spoken of through `queue_items` alone.
#[verifier::external_type_specification]
#[verifier::external_body]
#[verifier::reject_recursive_types(T)]
pub struct ExQueue<T: Clone>(Queue<T>);

/// The entries that a queue holds, the one that leaves next first.
pub uninterp spec fn queue_items(q: Queue<(usize, usize, i32, i32, i32)>) -> Seq<
    (usize, usize, i32, i32, i32),
>;

/// `Queue::new` of queues: a queue that holds nothing.
#[verifier::external_body]
fn queue_new() -> (q: Queue<Entry>)
    ensures
        queue_items(q) == Seq::<Entry>::empty(),
{
    Queue::new()
}

/// `Queue::add` of queues, which appends to the vector behind the queue and
/// cannot fail: afterwards the queue holds what it held, then `item`.
#[verifier::external_body]
fn queue_add(q: &mut Queue<Entry>, item: Entry)
    ensures
        queue_items(*final(q)) == queue_items(*old(q)).push(item),
{
    let _ = q.add(item);
}

/// `Queue::remove` of queues: takes the first entry out and hands it over; an
/// empty queue gives nothing and stays empty.
#[verifier::external_body]
fn queue_remove(q: &mut Queue<Entry>) -> (item: Option<Entry>)
    ensures
        item matches Some(e) ==> queue_items(*old(q)).len() > 0 && e == queue_items(*old(q))[0]
            && queue_items(*final(q)) == queue_items(*old(q)).drop_first(),
        item is None ==> queue_items(*old(q)).len() == 0 && queue_items(*final(q)) == queue_items(
            *old(q),
        ),
{
    q.remove().ok()
}

/// `Queue::size` of queues: the number of entries held.
#[verifier::external_body]
fn queue_size(q: &Queue<Entry>) -> (n: usize)
    ensures
        n == queue_items(*q).len(),
{
    q.size()
}

/// Where an entry stands.
pub open spec fn entry_point(e: Entry) -> Point {
    Point { x: e.0, y: e.1 }
}

/// The colour that an entry carries.
pub open spec fn entry_color(e: Entry) -> HSV {
    HSV { h: e.2, s: e.3, v: e.4 }
}

/// The entry for the pixel `p` of colour `c`.
pub open spec fn entry_of(p: Point, c: HSV) -> Entry {
    (p.x, p.y, c.h, c.s, c.v)
}

/// Every pending entry carries a valid colour.
pub open spec fn all_valid(pending: Seq<Entry>) -> bool {
    forall|i: int| 0 <= i < pending.len() ==> entry_color(#[trigger] pending[i]).wf()
}

/// A traversal between two steps: the mask's bytes and the nodes still to expand.
pub struct FloodState {
    pub cells: Seq<u8>,
    pub pending: Seq<Entry>,
}

/// The state after `node` has tried its neighbour in direction `v`.
///
/// Outside the mask nothing happens. Inside, the visit is recorded; where the
/// neighbour was unknown from this direction, has a colour, and that colour is
/// within `threshold` of the colour of `node`, the neighbour is selected and
/// queued with its own colour.
pub open spec fn reach(
    image: &Image,
    scale: &Scale,
    size: Dimensions,
    threshold: i32,
    st: FloodState,
    node: Entry,
    v: Vector,
) -> FloodState {
    let p = entry_point(node).add_spec(&v);
    match index_of(p.x, p.y, size.width, size.height, 1) {
        None => st,
        Some(i) => {
            let visited = st.cells.update(i, visit_byte(st.cells[i], v.di));
            let unknown = visit_state(st.cells[i], v.di) == NodeState::Unknown;
            match image.sample(p.x, p.y, scale) {
                Ok(c) => if unknown && c.within_spec(&entry_color(node), threshold) {
                    FloodState {
                        cells: visited.update(i, SELECTED),
                        pending: st.pending.push(entry_of(p, c)),
                    }
                } else {
                    FloodState { cells: visited, pending: st.pending }
                },
                Err(_) => FloodState { cells: visited, pending: st.pending },
            }
        },
    }
}

/// The state after `node` has tried all four neighbours: north, west, south, east.
pub open spec fn expand(
    image: &Image,
    scale: &Scale,
    size: Dimensions,
    threshold: i32,
    st: FloodState,
    node: Entry,
) -> FloodState {
    let a = reach(image, scale, size, threshold, st, node, north());
    let b = reach(image, scale, size, threshold, a, node, west());
    let c = reach(image, scale, size, threshold, b, node, south());
    reach(image, scale, size, threshold, c, node, east())
}

/// The state after at most `steps` nodes have left the queue and been expanded.
pub open spec fn run(
    image: &Image,
    scale: &Scale,
    size: Dimensions,
    threshold: i32,
    st: FloodState,
    steps: nat,
) -> FloodState
    decreases steps,
{
    if steps == 0 || st.pending.len() == 0 {
        st
    } else {
        run(
            image,
            scale,
            size,
            threshold,
            expand(
                image,
                scale,
                size,
                threshold,
                FloodState { cells: st.cells, pending: st.pending.drop_first() },
                st.pending[0],
            ),
            (steps - 1) as nat,
        )
    }
}

/// `pending`, followed by the pixel `(x, y)` with its colour where it has one.
pub open spec fn with_seed(image: &Image, scale: &Scale, pending: Seq<Entry>, x: usize, y: usize) -> Seq<Entry> {
    match image.sample(x, y, scale) {
        Ok(c) => pending.push(entry_of(Point { x, y }, c)),
        Err(_) => pending,
    }
}

/// Seeds of the first `n` columns of the rectangle: for each column its pixel
/// in the top row, then its pixel in the row just below the rectangle.
pub open spec fn seed_rows(image: &Image, scale: &Scale, x: usize, y: usize, height: usize, n: nat) -> Seq<Entry>
    decreases n,
{
    if n == 0 {
        Seq::empty()
    } else {
        let column = (x + n - 1) as usize;
        with_seed(
            image,
            scale,
            with_seed(
                image,
                scale,
                seed_rows(image, scale, x, y, height, (n - 1) as nat),
                column,
                y,
            ),
            column,
            (y + height) as usize,
        )
    }
}

/// `start`, then the seeds of the first `n` rows of the rectangle: for each
/// row its pixel in the left column, then its pixel in the column just right
/// of the rectangle.
pub open spec fn seed_columns(
    image: &Image,
    scale: &Scale,
    x: usize,
    y: usize,
    width: usize,
    start: Seq<Entry>,
    n: nat,
) -> Seq<Entry>
    decreases n,
{
    if n == 0 {
        start
    } else {
        let row = (y + n - 1) as usize;
        with_seed(
            image,
            scale,
            with_seed(
                image,
                scale,
                seed_columns(image, scale, x, y, width, start, (n - 1) as nat),
                x,
                row,
            ),
            (x + width) as usize,
            row,
        )
    }
}

/// The seed queue of a rectangle: the pixels along its edges that have a colour.
pub open spec fn seeds(image: &Image, scale: &Scale, x: usize, y: usize, width: usize, height: usize) -> Seq<Entry> {
    seed_columns(
        image,
        scale,
        x,
        y,
        width,
        seed_rows(image, scale, x, y, height, width as nat),
        height as nat,
    )
}

/// A mask of `size` with no pixel selected.
pub open spec fn blank(size: Dimensions) -> Seq<u8> {
    Seq::new((size.width * size.height) as nat, |i: int| 0u8)
}

/// A blank mask of `size` with the seed rectangle selected.
pub open spec fn seeded(size: Dimensions, x: usize, y: usize, width: usize, height: usize) -> Seq<u8> {
    rect_fill(
        blank(size),
        size.width as int,
        x as int,
        y as int,
        width as int,
        height as int,
        SELECTED,
    )
}

/// Whether a flood compares colours at all: the image has colour data and the
/// threshold is not negative.
pub open spec fn grows(image: &Image, threshold: i32) -> bool {
    image.colors().is_some() && threshold > -1
}

/// The scale that maps a mask of `size` onto `image`.
pub open spec fn scale_between(image: &Image, size: Dimensions) -> Scale {
    Scale {
        x_num: image.width(),
        x_den: size.width,
        y_num: image.height(),
        y_den: size.height,
    }
}

/// The state in which a traversal of at most `limit` steps ends.
pub open spec fn flood_end(
    image: &Image,
    size: Dimensions,
    x: usize,
    y: usize,
    width: usize,
    height: usize,
    threshold: i32,
    limit: nat,
) -> FloodState {
    let scale = scale_between(image, size);
    run(
        image,
        &scale,
        size,
        threshold,
        FloodState {
            cells: seeded(size, x, y, width, height),
            pending: seeds(image, &scale, x, y, width, height),
        },
        limit,
    )
}

/// The bytes of the mask that a flood produces.
pub open spec fn flood_cells(
    image: &Image,
    size: Dimensions,
    x: usize,
    y: usize,
    width: usize,
    height: usize,
    threshold: i32,
    limit: nat,
) -> Seq<u8> {
    if grows(image, threshold) {
        flood_end(image, size, x, y, width, height, threshold, limit).cells
    } else {
        seeded(size, x, y, width, height)
    }
}

/// Whether a flood stops at its step limit with nodes still pending.
pub open spec fn flood_truncated(
    image: &Image,
    size: Dimensions,
    x: usize,
    y: usize,
    width: usize,
    height: usize,
    threshold: i32,
    limit: nat,
) -> bool {
    grows(image, threshold) && flood_end(
        image,
        size,
        x,
        y,
        width,
        height,
        threshold,
        limit,
    ).pending.len() > 0
}

/// Queues the pixel `(x, y)` with its colour, where it has one.
fn enqueue_seed(image: &Image, scale: &Scale, q: &mut Queue<Entry>, x: usize, y: usize)
    requires
        image.wf(),
        all_valid(queue_items(*old(q))),
    ensures
        all_valid(queue_items(*final(q))),
        queue_items(*final(q)) == with_seed(image, scale, queue_items(*old(q)), x, y),
{
    match image.get(x, y, scale) {
        Ok(value) => {
            queue_add(q, (x, y, value.h, value.s, value.v));
        },
        Err(_) => {},
    }
}

/// Lets `node` try its neighbour in direction `vector`.
fn grow(
    image: &Image,
    scale: &Scale,
    threshold: i32,
    mask: &mut Mask,
    q: &mut Queue<Entry>,
    node: Entry,
    vector: &Vector,
)
    requires
        image.wf(),
        old(mask).wf(),
        entry_color(node).wf(),
        all_valid(queue_items(*old(q))),
    ensures
        final(mask).wf(),
        final(mask).width() == old(mask).width(),
        final(mask).height() == old(mask).height(),
        all_valid(queue_items(*final(q))),
        (FloodState { cells: final(mask)@, pending: queue_items(*final(q)) }) == reach(
            image,
            scale,
            Dimensions { width: old(mask).width(), height: old(mask).height() },
            threshold,
            FloodState { cells: old(mask)@, pending: queue_items(*old(q)) },
            node,
            *vector,
        ),
{
    let origin = Point { x: node.0, y: node.1 };
    let color = HSV { h: node.2, s: node.3, v: node.4 };
    let point = origin.add(vector);
    match mask.visit(&point, vector.di) {
        Ok(NodeState::Unknown) => match image.get(point.x, point.y, scale) {
            Ok(value) => {
                if value.within(&color, threshold) {
                    match mask.set(&point, SELECTED) {
                        Ok(()) => {
                            queue_add(q, (point.x, point.y, value.h, value.s, value.v));
                        },
                        Err(_) => {},
                    }
                }
            },
            Err(_) => {},
        },
        _ => {},
    }
}

/// Grows a selection from a seed rectangle.
///
/// The result is a fresh mask of size `dimensions` in which the rectangle at
/// `(x, y)` of `width` by `height` pixels is selected. Unless the image has no
/// colour data or `threshold` is negative, the pixels along the rectangle's
/// edges are queued, and at most `limit` nodes leave the queue; each selects
/// and queues those of its four neighbours whose colour is within `threshold`
/// of its own. The flag tells whether nodes were still pending at the limit.
pub fn flood(
    image: &Image,
    dimensions: Dimensions,
    x: usize,
    y: usize,
    width: usize,
    height: usize,
    threshold: i32,
    limit: usize,
) -> (out: (Mask, bool))
    requires
        image.wf(),
        dimensions.width * dimensions.height <= usize::MAX,
        x + width <= usize::MAX,
        y + height <= usize::MAX,
    ensures
        out.0.wf(),
        out.0.width() == dimensions.width,
        out.0.height() == dimensions.height,
        out.0@ == flood_cells(image, dimensions, x, y, width, height, threshold, limit as nat),
        out.1 == flood_truncated(image, dimensions, x, y, width, height, threshold, limit as nat),
{
    let mut mask = Mask::new(None, dimensions.width, dimensions.height);
    mask.fill_inplace(x, y, width, height, SELECTED);
    if !image.has_colors() || threshold <= -1 {
        return (mask, false);
    }
    let scale = Scale::between(image.dimensions(), dimensions);
    let mut q = queue_new();
    let mut i: usize = 0;
    while i < width
        invariant
            i <= width,
            image.wf(),
            x + width <= usize::MAX,
            y + height <= usize::MAX,
            all_valid(queue_items(q)),
            queue_items(q) == seed_rows(image, &scale, x, y, height, i as nat),
        decreases width - i,
    {
        enqueue_seed(image, &scale, &mut q, x + i, y);
        enqueue_seed(image, &scale, &mut q, x + i, y + height);
        i += 1;
    }
    let ghost top = queue_items(q);
    let mut j: usize = 0;
    while j < height
        invariant
            j <= height,
            image.wf(),
            x + width <= usize::MAX,
            y + height <= usize::MAX,
            all_valid(queue_items(q)),
            queue_items(q) == seed_columns(image, &scale, x, y, width, top, j as nat),
        decreases height - j,
    {
        enqueue_seed(image, &scale, &mut q, x, y + j);
        enqueue_seed(image, &scale, &mut q, x + width, y + j);
        j += 1;
    }
    let ghost start = FloodState { cells: mask@, pending: queue_items(q) };
    let dirs = directions();
    let mut count: usize = 0;
    while queue_size(&q) > 0 && count < limit
        invariant
            count <= limit,
            image.wf(),
            mask.wf(),
            mask.width() == dimensions.width,
            mask.height() == dimensions.height,
            all_valid(queue_items(q)),
            dirs[0] == north(),
            dirs[1] == west(),
            dirs[2] == south(),
            dirs[3] == east(),
            run(
                image,
                &scale,
                dimensions,
                threshold,
                FloodState { cells: mask@, pending: queue_items(q) },
                (limit - count) as nat,
            ) == run(image, &scale, dimensions, threshold, start, limit as nat),
        decreases limit - count,
    {
        let ghost before = FloodState { cells: mask@, pending: queue_items(q) };
        match queue_remove(&mut q) {
            Some(node) => {
                assert(entry_color(before.pending[0]).wf());
                grow(image, &scale, threshold, &mut mask, &mut q, node, &dirs[0]);
                grow(image, &scale, threshold, &mut mask, &mut q, node, &dirs[1]);
                grow(image, &scale, threshold, &mut mask, &mut q, node, &dirs[2]);
                grow(image, &scale, threshold, &mut mask, &mut q, node, &dirs[3]);
                assert((FloodState { cells: mask@, pending: queue_items(q) }) == expand(
                    image,
                    &scale,
                    dimensions,
                    threshold,
                    FloodState { cells: before.cells, pending: before.pending.drop_first() },
                    before.pending[0],
                ));
            },
            None => {},
        }
        count += 1;
    }
    let truncated = queue_size(&q) > 0;
    (mask, truncated)
}

/// With a negative threshold, or an image without colour data, a flood
/// selects the seed rectangle and nothing else, and is never cut short.
pub proof fn lemma_flood_without_comparison(
    image: &Image,
    size: Dimensions,
    x: usize,
    y: usize,
    width: usize,
    height: usize,
    threshold: i32,
    limit: nat,
)
    requires
        threshold < 0 || image.colors() is None,
    ensures
        flood_cells(image, size, x, y, width, height, threshold, limit) == seeded(
            size,
            x,
            y,
            width,
            height,
        ),
        !flood_truncated(image, size, x, y, width, height, threshold, limit),
{
}

/// With a step limit of zero a flood selects the seed rectangle and nothing
/// else; where colours are compared, it is cut short exactly if the rectangle
/// has a seed.
pub proof fn lemma_flood_limit_zero(
    image: &Image,
    size: Dimensions,
    x: usize,
    y: usize,
    width: usize,
    height: usize,
    threshold: i32,
)
    ensures
        flood_cells(image, size, x, y, width, height, threshold, 0) == seeded(
            size,
            x,
            y,
            width,
            height,
        ),
        flood_truncated(image, size, x, y, width, height, threshold, 0) == (grows(image, threshold)
            && seeds(image, &scale_between(image, size), x, y, width, height).len() > 0),
{
}

/// Whether `after` has every cell of `before`, with each selected cell still selected.
pub open spec fn keeps_selection(before: Seq<u8>, after: Seq<u8>) -> bool {
    after.len() == before.len() && forall|j: int|
        0 <= j < before.len() && before[j] == SELECTED ==> #[trigger] after[j] == SELECTED
}

/// Trying one neighbour unselects nothing.
pub proof fn lemma_reach_keeps_selection(
    image: &Image,
    scale: &Scale,
    size: Dimensions,
    threshold: i32,
    st: FloodState,
    node: Entry,
    v: Vector,
)
    requires
        st.cells.len() == size.width * size.height,
    ensures
        keeps_selection(st.cells, reach(image, scale, size, threshold, st, node, v).cells),
{
    let p = entry_point(node).add_spec(&v);
    if p.x < size.width && p.y < size.height {
        lemma_index_in_grid(p.x as int, p.y as int, size.width as int, size.height as int);
    }
}

/// Expanding one node unselects nothing.
pub proof fn lemma_expand_keeps_selection(
    image: &Image,
    scale: &Scale,
    size: Dimensions,
    threshold: i32,
    st: FloodState,
    node: Entry,
)
    requires
        st.cells.len() == size.width * size.height,
    ensures
        keeps_selection(st.cells, expand(image, scale, size, threshold, st, node).cells),
{
    let a = reach(image, scale, size, threshold, st, node, north());
    lemma_reach_keeps_selection(image, scale, size, threshold, st, node, north());
    let b = reach(image, scale, size, threshold, a, node, west());
    lemma_reach_keeps_selection(image, scale, size, threshold, a, node, west());
    let c = reach(image, scale, size, threshold, b, node, south());
    lemma_reach_keeps_selection(image, scale, size, threshold, b, node, south());
    lemma_reach_keeps_selection(image, scale, size, threshold, c, node, east());
}

/// A traversal of any number of steps unselects nothing.
pub proof fn lemma_run_keeps_selection(
    image: &Image,
    scale: &Scale,
    size: Dimensions,
    threshold: i32,
    st: FloodState,
    steps: nat,
)
    requires
        st.cells.len() == size.width * size.height,
    ensures
        keeps_selection(st.cells, run(image, scale, size, threshold, st, steps).cells),
    decreases steps,
{
    if steps > 0 && st.pending.len() > 0 {
        let rest = FloodState { cells: st.cells, pending: st.pending.drop_first() };
        let next = expand(image, scale, size, threshold, rest, st.pending[0]);
        lemma_expand_keeps_selection(image, scale, size, threshold, rest, st.pending[0]);
        lemma_run_keeps_selection(image, scale, size, threshold, next, (steps - 1) as nat);
    }
}

/// The seed rectangle is selected in every flood, whatever the colours, the
/// threshold and the limit; and the mask has one byte per pixel.
pub proof fn lemma_flood_keeps_rectangle(
    image: &Image,
    size: Dimensions,
    x: usize,
    y: usize,
    width: usize,
    height: usize,
    threshold: i32,
    limit: nat,
)
    ensures
        keeps_selection(
            seeded(size, x, y, width, height),
            flood_cells(image, size, x, y, width, height, threshold, limit),
        ),
{
    if grows(image, threshold) {
        let scale = scale_between(image, size);
        lemma_run_keeps_selection(
            image,
            &scale,
            size,
            threshold,
            FloodState {
                cells: seeded(size, x, y, width, height),
                pending: seeds(image, &scale, x, y, width, height),
            },
            limit,
        );
    }
}

} // verus!
