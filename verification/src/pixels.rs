//! The pixel store of the rendering engine, as the board uses it.
//!
//! A `PixelContainer` is opaque to the verifier. Its contents are named by
//! [`container_cells`]; every item below is trusted: its contract restates
//! what the engine's source does and is not proved here.

use gemini_engine::containers::{CanCollide, PixelContainer};
use gemini_engine::primitives::Rect;
use vstd::prelude::*;

verus! {

/// The engine's `PixelContainer`, made known to the verifier as a type it
/// cannot look into.
#[verifier::external_type_specification]
#[verifier::external_body]
pub struct ExPixelContainer(PixelContainer);

/// The positions of the pixels held by a container, in the order in which
/// they were plotted.
pub uninterp spec fn container_cells(c: PixelContainer) -> Seq<(i64, i64)>;

/// The cells of a `w` by `h` rectangle whose top-left corner is `(x, y)`,
/// column by column, each column from the top down.
pub open spec fn rect_cells(x: i64, y: i64, w: i64, h: i64) -> Seq<(i64, i64)> {
    if w <= 0 || h <= 0 {
        Seq::empty()
    } else {
        Seq::new((w * h) as nat, |k: int| ((x + k / (h as int)) as i64, (y + k % (h as int)) as i64))
    }
}

/// `PixelContainer::new`: a container that holds no pixel.
#[verifier::external_body]
pub(crate) fn container_new() -> (c: PixelContainer)
    ensures
        container_cells(c) == Seq::<(i64, i64)>::empty(),
{
    PixelContainer::new()
}

/// `PixelContainer::plot`: appends one pixel at `(x, y)`, drawn as a solid
/// block in the colour `rgb`, after the pixels already held.
#[verifier::external_body]
pub(crate) fn container_plot(c: &mut PixelContainer, x: i64, y: i64, rgb: (u8, u8, u8))
    ensures
        container_cells(*final(c)) == container_cells(*old(c)).push((x, y)),
{
    let colour = gemini_engine::core::ColChar::SOLID.with_rgb(rgb.0, rgb.1, rgb.2);
    c.plot(gemini_engine::core::Vec2D::new(x, y), colour);
}

/// `PixelContainer::draw` of a `Rect`: appends the rectangle's pixels, which
/// `Rect::draw_to` plots column by column. The sums stay inside `i64`, so the
/// engine's vector addition cannot overflow.
#[verifier::external_body]
pub(crate) fn container_draw_rect(c: &mut PixelContainer, x: i64, y: i64, w: i64, h: i64)
    requires
        x + w <= i64::MAX,
        y + h <= i64::MAX,
    ensures
        container_cells(*final(c)) == container_cells(*old(c)) + rect_cells(x, y, w, h),
{
    let pos = gemini_engine::core::Vec2D::new(x, y);
    let size = gemini_engine::core::Vec2D::new(w, h);
    c.draw(&Rect::new(pos, size, gemini_engine::core::ColChar::SOLID));
}

/// `Vec::len` of the container's public `pixels`: how many pixels it holds.
#[verifier::external_body]
pub(crate) fn container_len(c: &PixelContainer) -> (n: usize)
    ensures
        n == container_cells(*c).len(),
{
    c.pixels.len()
}

/// Reads the position of the pixel at index `i` of the container's public
/// `pixels`.
#[verifier::external_body]
pub(crate) fn container_cell(c: &PixelContainer, i: usize) -> (cell: (i64, i64))
    requires
        i < container_cells(*c).len(),
    ensures
        cell == container_cells(*c)[i as int],
{
    (c.pixels[i].pos.x, c.pixels[i].pos.y)
}

/// `Vec::remove` on the container's public `pixels`: drops the pixel at
/// index `i` and keeps the others in order.
#[verifier::external_body]
pub(crate) fn container_remove(c: &mut PixelContainer, i: usize)
    requires
        i < container_cells(*old(c)).len(),
    ensures
        container_cells(*final(c)) == container_cells(*old(c)).remove(i as int),
{
    c.pixels.remove(i);
}

/// Writes the row of the pixel at index `i` of the container's public
/// `pixels`; its column, its colour and the other pixels stay.
#[verifier::external_body]
pub(crate) fn container_set_row(c: &mut PixelContainer, i: usize, y: i64)
    requires
        i < container_cells(*old(c)).len(),
    ensures
        container_cells(*final(c)) == container_cells(*old(c)).update(
            i as int,
            (container_cells(*old(c))[i as int].0, y),
        ),
{
    c.pixels[i].pos.y = y;
}

/// `CanCollide::collides_with_pos` of a `PixelContainer`: whether some pixel
/// it holds lies at `(x, y)`.
#[verifier::external_body]
pub(crate) fn container_collides(c: &PixelContainer, x: i64, y: i64) -> (hit: bool)
    ensures
        hit == container_cells(*c).contains((x, y)),
{
    c.collides_with_pos(gemini_engine::core::Vec2D::new(x, y))
}

} // verus!
