use vstd::prelude::*;

use crate::canvas::{lemma_row_major, Canvas, CanvasView};
use crate::error::RenderError;

verus! {

/// Width and height of the clock face, in pixels.
pub const CLOCK_SIZE: usize = 200;

/// Whether one of the first `n` marks lies at (x, y).
pub open spec fn marked(marks: Seq<(usize, usize)>, n: int, x: int, y: int) -> bool {
    exists|i: int| 0 <= i < n && marks[i].0 == x && marks[i].1 == y
}

pub open spec fn on_face(m: (usize, usize)) -> bool {
    m.0 < CLOCK_SIZE && m.1 < CLOCK_SIZE
}

/// A square clock face of `CLOCK_SIZE` pixels a side in the colour
/// `background`, with a pixel in the colour `mark` at each position of
/// `marks` (the hour marks). A mark off the face is an error: the first such
/// mark is reported, and no canvas is returned.
pub fn draw_clock<P: Copy>(marks: &Vec<(usize, usize)>, background: P, mark: P) -> (r: Result<
    Canvas<P>,
    RenderError,
>)
    ensures
        r is Ok <==> forall|i: int| 0 <= i < marks@.len() ==> on_face(#[trigger] marks@[i]),
        r matches Ok(c) ==> {
            &&& c.wf()
            &&& c@.width == CLOCK_SIZE
            &&& c@.height == CLOCK_SIZE
            &&& c@.background == background
            &&& forall|x: int, y: int|
                c@.in_bounds(x, y) ==> #[trigger] c@.at(x, y) == if marked(
                    marks@,
                    marks@.len() as int,
                    x,
                    y,
                ) {
                    mark
                } else {
                    background
                }
        },
        r matches Err(e) ==> exists|i: int|
            0 <= i < marks@.len() && !on_face(#[trigger] marks@[i]) && e == (RenderError::OutOfBounds {
                x: marks@[i].0,
                y: marks@[i].1,
            }) && forall|j: int| 0 <= j < i ==> on_face(#[trigger] marks@[j]),
{
    let mut face = Canvas::new(CLOCK_SIZE, CLOCK_SIZE, background);
    let mut k: usize = 0;
    while k < marks.len()
        invariant
            k <= marks@.len(),
            face.wf(),
            face@.width == CLOCK_SIZE,
            face@.height == CLOCK_SIZE,
            face@.background == background,
            forall|j: int| 0 <= j < k ==> on_face(#[trigger] marks@[j]),
            forall|x: int, y: int|
                face@.in_bounds(x, y) ==> #[trigger] face@.at(x, y) == if marked(
                    marks@,
                    k as int,
                    x,
                    y,
                ) {
                    mark
                } else {
                    background
                },
        decreases marks@.len() - k,
    {
        let (mx, my) = marks[k];
        let ghost before: CanvasView<P> = face@;
        match face.write(mx, my, mark) {
            Ok(()) => {},
            Err(e) => {
                return Err(e);
            },
        }
        proof {
            assert forall|x: int, y: int| face@.in_bounds(x, y) implies #[trigger] face@.at(x, y)
                == if marked(marks@, k + 1, x, y) {
                mark
            } else {
                background
            } by {
                lemma_row_major(before.width, before.height, x, y);
                lemma_row_major(before.width, before.height, mx as int, my as int);
                if x == mx && y == my {
                    assert(marked(marks@, k + 1, x, y));
                } else {
                    assert(before.index_of(x, y) != before.index_of(mx as int, my as int));
                    assert(face@.at(x, y) == before.at(x, y));
                    if marked(marks@, k + 1, x, y) {
                        let i = choose|i: int| 0 <= i < k + 1 && marks@[i].0 == x && marks@[i].1 == y;
                        assert(i != k);
                        assert(marked(marks@, k as int, x, y));
                    } else {
                        assert(!marked(marks@, k as int, x, y));
                    }
                }
            }
        }
        k += 1;
    }
    Ok(face)
}

} // verus!
