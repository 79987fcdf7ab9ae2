//! The 64×32 one-bit framebuffer, kept in a two-dimensional `ndarray` array
//! that is indexed `[column, row]`.

use vstd::prelude::*;

verus! {

/// The width of the screen in pixels.
pub const DISPLAY_COLUMNS: usize = 64;

/// The height of the screen in pixels.
pub const DISPLAY_ROWS: usize = 32;

/// The framebuffer. It owns an `ndarray::Array2<bool>`; the array itself is
/// opaque to the verifier, which knows it only through `display_pixels`.
#[verifier::external_body]
pub struct Display {
    grid: ndarray::Array2<bool>,
}

/// What the array holds: `display_pixels(d)[x][y]` is the pixel in column `x`
/// and row `y`. The outer length is the array's first dimension, each inner
/// length its second.
pub uninterp spec fn display_pixels(display: Display) -> Seq<Seq<bool>>;

/// A grid of the given shape with every pixel equal to `on`.
pub open spec fn uniform_pixels(columns: nat, rows: nat, on: bool) -> Seq<Seq<bool>> {
    Seq::new(columns, |x: int| Seq::new(rows, |y: int| on))
}

/// `ndarray::Array2::from_elem` with the shape `[columns, rows]`: a new
/// array of that shape whose elements all equal `on`. The call panics when
/// the product of the axis lengths that are not zero is over `isize::MAX`;
/// `requires` rules that out: with one length zero the other must fit, with
/// none zero their product must.
#[verifier::external_body]
fn grid_from_elem(columns: usize, rows: usize, on: bool) -> (display: Display)
    requires
        columns <= isize::MAX,
        rows <= isize::MAX,
        columns * rows <= isize::MAX,
    ensures
        display_pixels(display) == uniform_pixels(columns as nat, rows as nat, on),
{
    Display { grid: ndarray::Array2::from_elem([columns, rows], on) }
}

/// Indexing an `ndarray` array by `[x, y]`: the element in column `x` and row
/// `y`. The index must lie inside the shape, else the call panics.
#[verifier::external_body]
fn grid_index(display: &Display, x: usize, y: usize) -> (on: bool)
    requires
        x < display_pixels(*display).len(),
        y < display_pixels(*display)[x as int].len(),
    ensures
        on == display_pixels(*display)[x as int][y as int],
{
    display.grid[[x, y]]
}

/// Assigning through the mutable index of an `ndarray` array: the element at
/// `[x, y]` becomes `on` and no other element changes. The index must lie
/// inside the shape, else the call panics.
#[verifier::external_body]
fn grid_index_set(display: &mut Display, x: usize, y: usize, on: bool)
    requires
        x < display_pixels(*old(display)).len(),
        y < display_pixels(*old(display))[x as int].len(),
    ensures
        display_pixels(*final(display)) == display_pixels(*old(display)).update(
            x as int,
            display_pixels(*old(display))[x as int].update(y as int, on),
        ),
{
    display.grid[[x, y]] = on;
}

/// `ndarray`'s `fill`: every element becomes `on`, the shape stays.
#[verifier::external_body]
fn grid_fill(display: &mut Display, on: bool)
    ensures
        display_pixels(*final(display)).len() == display_pixels(*old(display)).len(),
        forall|x: int|
            0 <= x < display_pixels(*old(display)).len() ==> #[trigger] display_pixels(
                *final(display),
            )[x] == Seq::new(display_pixels(*old(display))[x].len(), |y: int| on),
{
    display.grid.fill(on);
}

impl View for Display {
    type V = Seq<Seq<bool>>;

    open spec fn view(&self) -> Seq<Seq<bool>> {
        display_pixels(*self)
    }
}

/// The grid of a screen on which no pixel is lit.
pub open spec fn blank_pixels() -> Seq<Seq<bool>> {
    uniform_pixels(DISPLAY_COLUMNS as nat, DISPLAY_ROWS as nat, false)
}

/// A grid has the shape of the screen: 64 columns of 32 pixels each.
pub open spec fn screen_shaped(pixels: Seq<Seq<bool>>) -> bool {
    &&& pixels.len() == DISPLAY_COLUMNS
    &&& forall|x: int| 0 <= x < DISPLAY_COLUMNS ==> (#[trigger] pixels[x]).len() == DISPLAY_ROWS
}

impl Display {
    /// The display has the shape of the screen.
    pub open spec fn wf(&self) -> bool {
        screen_shaped(self@)
    }

    /// A blank screen.
    pub fn new() -> (display: Display)
        ensures
            display.wf(),
            display@ == blank_pixels(),
    {
        grid_from_elem(DISPLAY_COLUMNS, DISPLAY_ROWS, false)
    }

    /// The pixel in column `x` and row `y`.
    pub fn get(&self, x: usize, y: usize) -> (on: bool)
        requires
            self.wf(),
            x < DISPLAY_COLUMNS,
            y < DISPLAY_ROWS,
        ensures
            on == self@[x as int][y as int],
    {
        grid_index(self, x, y)
    }

    /// Sets the pixel in column `x` and row `y`.
    pub fn set(&mut self, x: usize, y: usize, on: bool)
        requires
            old(self).wf(),
            x < DISPLAY_COLUMNS,
            y < DISPLAY_ROWS,
        ensures
            final(self).wf(),
            final(self)@ == old(self)@.update(x as int, old(self)@[x as int].update(y as int, on)),
    {
        grid_index_set(self, x, y, on);
    }

    /// Turns every pixel off.
    pub fn clear(&mut self)
        requires
            old(self).wf(),
        ensures
            final(self).wf(),
            final(self)@ == blank_pixels(),
    {
        grid_fill(self, false);
        assert(self@ =~= blank_pixels());
    }
}

} // verus!
