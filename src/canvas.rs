use vstd::prelude::*;

use crate::error::RenderError;

verus! {

/// What a canvas holds: its size, its background and its pixels, row by row.
pub struct CanvasView<P> {
    pub width: nat,
    pub height: nat,
    pub background: P,
    pub pixels: Seq<P>,
}

impl<P> CanvasView<P> {
    /// One pixel for each (x, y) of the grid.
    pub open spec fn wf(self) -> bool {
        self.pixels.len() == self.width * self.height
    }

    pub open spec fn in_bounds(self, x: int, y: int) -> bool {
        0 <= x < self.width && 0 <= y < self.height
    }

    /// Position of pixel (x, y) in the row-major pixel sequence.
    pub open spec fn index_of(self, x: int, y: int) -> int {
        y * self.width + x
    }

    pub open spec fn at(self, x: int, y: int) -> P {
        self.pixels[self.index_of(x, y)]
    }
}

/// Column of the `k`-th pixel of a row-major grid of the given width.
pub open spec fn column_of(width: nat, k: int) -> int {
    k % (width as int)
}

/// Row of the `k`-th pixel of a row-major grid of the given width.
pub open spec fn row_of(width: nat, k: int) -> int {
    k / (width as int)
}

/// The pixel that a row-major walk over a grid of the given width visits
/// `k`-th, as the (x, y) arguments of a call.
pub open spec fn coords_of(width: nat, k: int) -> (usize, usize) {
    (column_of(width, k) as usize, row_of(width, k) as usize)
}

/// Row-major order: (x, y) is the pixel at `index_of(x, y)`, and back.
pub proof fn lemma_row_major(width: nat, height: nat, x: int, y: int)
    requires
        0 <= x < width,
        0 <= y < height,
    ensures
        0 <= y * width + x < width * height,
        column_of(width, y * width + x) == x,
        row_of(width, y * width + x) == y,
{
    assert(y * width + x < width * height) by (nonlinear_arith)
        requires 0 <= x < width, 0 <= y < height;
    assert(0 <= y * width) by (nonlinear_arith)
        requires 0 <= y, 0 <= width;
    vstd::arithmetic::div_mod::lemma_fundamental_div_mod_converse(
        y * width + x, width as int, y, x);
}

/// The k-th pixel of a row-major grid lies inside the grid.
pub proof fn lemma_index_in_bounds(width: nat, height: nat, k: int)
    requires
        0 <= k < width * height,
    ensures
        0 <= column_of(width, k) < width,
        0 <= row_of(width, k) < height,
        row_of(width, k) * width + column_of(width, k) == k,
{
    assert(width > 0) by (nonlinear_arith)
        requires 0 <= k < width * height;
    vstd::arithmetic::div_mod::lemma_fundamental_div_mod(k, width as int);
    vstd::arithmetic::div_mod::lemma_div_pos_is_pos(k, width as int);
    vstd::arithmetic::div_mod::lemma_mod_bound(k, width as int);
    let q = k / (width as int);
    let w = width as int;
    let h = height as int;
    assert(q < h) by (nonlinear_arith)
        requires w > 0, k == w * q + k % w, 0 <= k % w, k < w * h;
    assert(q * w == w * q) by (nonlinear_arith);
}

/// After a walk that gave the `k`-th pixel of the row-major order a value
/// that `shade` returns for that pixel, each pixel (x, y) holds a value that
/// `shade(x, y)` returns.
pub proof fn lemma_rendered_pixel<P, F: Fn(usize, usize) -> Result<P, RenderError>>(
    c: CanvasView<P>,
    shade: F,
    x: usize,
    y: usize,
)
    requires
        c.wf(),
        c.in_bounds(x as int, y as int),
        forall|k: int|
            0 <= k < c.pixels.len() ==> call_ensures(
                shade,
                coords_of(c.width, k),
                Ok::<P, RenderError>(#[trigger] c.pixels[k]),
            ),
    ensures
        call_ensures(shade, (x, y), Ok::<P, RenderError>(c.at(x as int, y as int))),
{
    lemma_row_major(c.width, c.height, x as int, y as int);
    let k = c.index_of(x as int, y as int);
    assert(coords_of(c.width, k) == (x, y));
    assert(call_ensures(shade, coords_of(c.width, k), Ok::<P, RenderError>(c.pixels[k])));
}

/// A grid of pixels of type `P`, kept row by row in one vector.
pub struct Canvas<P> {
    width: usize,
    height: usize,
    bg: P,
    grid: Vec<P>,
}

impl<P> View for Canvas<P> {
    type V = CanvasView<P>;

    closed spec fn view(&self) -> CanvasView<P> {
        CanvasView {
            width: self.width as nat,
            height: self.height as nat,
            background: self.bg,
            pixels: self.grid@,
        }
    }
}

impl<P: Copy> Canvas<P> {
    pub open spec fn wf(&self) -> bool {
        &&& self@.wf()
        &&& self@.width * self@.height <= usize::MAX
    }

    /// A canvas of `width` x `height` pixels, each of them `bg`.
    pub fn new(width: usize, height: usize, bg: P) -> (r: Self)
        requires
            width * height <= usize::MAX,
        ensures
            r.wf(),
            r@.width == width,
            r@.height == height,
            r@.background == bg,
            r@.pixels == Seq::new((width * height) as nat, |i: int| bg),
    {
        let n: usize = width * height;
        let mut grid: Vec<P> = Vec::with_capacity(n);
        let mut k: usize = 0;
        while k < n
            invariant
                k <= n,
                grid@ == Seq::new(k as nat, |i: int| bg),
            decreases n - k,
        {
            grid.push(bg);
            k += 1;
            assert(grid@ =~= Seq::new(k as nat, |i: int| bg));
        }
        Canvas { width, height, bg, grid }
    }

    pub fn width(&self) -> (r: usize)
        ensures
            r == self@.width,
    {
        self.width
    }

    pub fn height(&self) -> (r: usize)
        ensures
            r == self@.height,
    {
        self.height
    }

    /// The colour of a pixel that nothing has been drawn on.
    pub fn background(&self) -> (r: P)
        ensures
            r == self@.background,
    {
        self.bg
    }

    /// The pixels, row by row.
    pub fn pixels(&self) -> (r: &Vec<P>)
        ensures
            r@ == self@.pixels,
    {
        &self.grid
    }

    /// Position of pixel (x, y) in the grid.
    fn index_of(&self, x: usize, y: usize) -> (r: usize)
        requires
            self.wf(),
            self@.in_bounds(x as int, y as int),
        ensures
            r == self@.index_of(x as int, y as int),
            r < self@.pixels.len(),
    {
        proof {
            lemma_row_major(self@.width, self@.height, x as int, y as int);
        }
        y * self.width + x
    }

    /// Sets pixel (x, y) to `val`; a pixel outside the canvas is refused and
    /// nothing changes.
    pub fn write(&mut self, x: usize, y: usize, val: P) -> (r: Result<(), RenderError>)
        requires
            old(self).wf(),
        ensures
            final(self).wf(),
            r is Ok <==> old(self)@.in_bounds(x as int, y as int),
            r is Ok ==> final(self)@ == (CanvasView {
                pixels: old(self)@.pixels.update(old(self)@.index_of(x as int, y as int), val),
                ..old(self)@
            }),
            r is Err ==> r == Err::<(), RenderError>(RenderError::OutOfBounds { x, y })
                && final(self)@ == old(self)@,
    {
        if x >= self.width || y >= self.height {
            return Err(RenderError::OutOfBounds { x, y });
        }
        let k = self.index_of(x, y);
        self.grid.set(k, val);
        Ok(())
    }

    /// The pixel at (x, y), or an error for a position outside the canvas.
    pub fn at(&self, x: usize, y: usize) -> (r: Result<P, RenderError>)
        requires
            self.wf(),
        ensures
            self@.in_bounds(x as int, y as int) ==> r == Ok::<P, RenderError>(
                self@.at(x as int, y as int),
            ),
            !self@.in_bounds(x as int, y as int) ==> r == Err::<P, RenderError>(
                RenderError::OutOfBounds { x, y },
            ),
    {
        if x >= self.width || y >= self.height {
            return Err(RenderError::OutOfBounds { x, y });
        }
        let k = self.index_of(x, y);
        Ok(self.grid[k])
    }

    /// Sets every pixel, and the background, to `bg`.
    pub fn reset(&mut self, bg: P)
        requires
            old(self).wf(),
        ensures
            final(self).wf(),
            final(self)@ == (CanvasView {
                width: old(self)@.width,
                height: old(self)@.height,
                background: bg,
                pixels: Seq::new(old(self)@.pixels.len(), |i: int| bg),
            }),
    {
        let ghost start = self@;
        let n: usize = self.grid.len();
        let mut k: usize = 0;
        while k < n
            invariant
                k <= n,
                n == self.grid@.len(),
                self@.width == start.width,
                self@.height == start.height,
                start.wf(),
                start.width * start.height <= usize::MAX,
                forall|j: int| 0 <= j < k ==> self.grid@[j] == bg,
            decreases n - k,
        {
            self.grid.set(k, bg);
            k += 1;
        }
        self.bg = bg;
        assert(self.grid@ =~= Seq::new(n as nat, |i: int| bg));
    }

    /// Fills the canvas pixel by pixel in row-major order (row 0 first, and
    /// in each row x = 0 first) with what `shade(x, y)` returns. The first
    /// error that `shade` returns stops the walk and is returned: the pixels
    /// walked before it hold their new values, that one and the rest their
    /// old ones.
    pub fn render<F: Fn(usize, usize) -> Result<P, RenderError>>(&mut self, shade: F) -> (r:
        Result<(), RenderError>)
        requires
            old(self).wf(),
            forall|x: usize, y: usize|
                old(self)@.in_bounds(x as int, y as int) ==> call_requires(shade, (x, y)),
        ensures
            final(self).wf(),
            final(self)@.width == old(self)@.width,
            final(self)@.height == old(self)@.height,
            final(self)@.background == old(self)@.background,
            r is Ok ==> forall|k: int|
                0 <= k < old(self)@.pixels.len() ==> call_ensures(
                    shade,
                    coords_of(old(self)@.width, k),
                    Ok::<P, RenderError>(#[trigger] final(self)@.pixels[k]),
                ),
            r matches Err(e) ==> exists|k: int|
                0 <= k < old(self)@.pixels.len() && #[trigger] call_ensures(
                    shade,
                    coords_of(old(self)@.width, k),
                    Err::<P, RenderError>(e),
                ) && (forall|j: int|
                    0 <= j < k ==> call_ensures(
                        shade,
                        coords_of(old(self)@.width, j),
                        Ok::<P, RenderError>(#[trigger] final(self)@.pixels[j]),
                    )) && (forall|j: int|
                    k <= j < old(self)@.pixels.len() ==> #[trigger] final(self)@.pixels[j]
                        == old(self)@.pixels[j]),
    {
        let ghost start = self@;
        let n: usize = self.grid.len();
        let mut k: usize = 0;
        while k < n
            invariant
                self.wf(),
                start.wf(),
                start == old(self)@,
                self@.width == start.width,
                self@.height == start.height,
                self@.background == start.background,
                n == start.pixels.len(),
                k <= n,
                forall|x: usize, y: usize|
                    start.in_bounds(x as int, y as int) ==> call_requires(shade, (x, y)),
                forall|j: int|
                    0 <= j < k ==> call_ensures(
                        shade,
                        coords_of(start.width, j),
                        Ok::<P, RenderError>(#[trigger] self@.pixels[j]),
                    ),
                forall|j: int| k <= j < n ==> #[trigger] self@.pixels[j] == start.pixels[j],
            decreases n - k,
        {
            proof {
                lemma_index_in_bounds(start.width, start.height, k as int);
            }
            let x: usize = k % self.width;
            let y: usize = k / self.width;
            assert(coords_of(start.width, k as int) == (x, y));
            assert(start.in_bounds(x as int, y as int));
            match shade(x, y) {
                Ok(v) => {
                    self.grid.set(k, v);
                },
                Err(e) => {
                    return Err(e);
                },
            }
            k += 1;
        }
        Ok(())
    }

    /// The canvas with `f` applied to every pixel and to the background.
    pub fn map<Q: Copy, F: Fn(P) -> Q>(&self, f: F) -> (r: Canvas<Q>)
        requires
            self.wf(),
            call_requires(f, (self@.background,)),
            forall|k: int| 0 <= k < self@.pixels.len() ==> call_requires(f, (self@.pixels[k],)),
        ensures
            r.wf(),
            r@.width == self@.width,
            r@.height == self@.height,
            call_ensures(f, (self@.background,), r@.background),
            forall|k: int|
                0 <= k < self@.pixels.len() ==> call_ensures(
                    f,
                    (self@.pixels[k],),
                    #[trigger] r@.pixels[k],
                ),
    {
        let n: usize = self.grid.len();
        let mut grid: Vec<Q> = Vec::with_capacity(n);
        let mut k: usize = 0;
        while k < n
            invariant
                k <= n,
                n == self.grid@.len(),
                grid@.len() == k,
                forall|j: int| 0 <= j < n ==> call_requires(f, (self.grid@[j],)),
                forall|j: int|
                    0 <= j < k ==> call_ensures(f, (self.grid@[j],), #[trigger] grid@[j]),
            decreases n - k,
        {
            let q = f(self.grid[k]);
            grid.push(q);
            k += 1;
        }
        let bg = f(self.bg);
        Canvas { width: self.width, height: self.height, bg, grid }
    }
}

} // verus!
