use vstd::prelude::*;
use rgb::RGBA8;
use crate::keys::{KeySet, MyKeys};
use crate::render::{pixel_offset, put_pixel, with_pixel};
use crate::schedule::DoneStatus;

verus! {

/// The coordinate at which the demo stops moving.
pub const DONE_LIMIT: usize = 50;

/// A demo app: a single pixel that the arrow keys move around.
pub struct MovingPixel {
    pub pos: (usize, usize),
}

/// One when `b` holds, zero otherwise.
pub open spec fn indicator(b: bool) -> int {
    if b {
        1
    } else {
        0
    }
}

impl MovingPixel {
    /// A pixel at `(x, y)`.
    pub fn new(x: usize, y: usize) -> (r: MovingPixel)
        ensures
            r.pos == (x, y),
    {
        MovingPixel { pos: (x, y) }
    }

    /// One tick: each held arrow moves the pixel one step its way (up is
    /// toward row zero). Returns whether an arrow was held. The pixel must
    /// not be pushed past the edge of `usize`.
    pub fn on_tick(&mut self, pressed_keys: &KeySet) -> (r: bool)
        requires
            pressed_keys.wf(),
            pressed_keys@.contains(MyKeys::Left) ==> old(self).pos.0 > 0,
            pressed_keys@.contains(MyKeys::Right) ==> old(self).pos.0 < usize::MAX,
            pressed_keys@.contains(MyKeys::Up) ==> old(self).pos.1 > 0,
            pressed_keys@.contains(MyKeys::Down) ==> old(self).pos.1 < usize::MAX,
        ensures
            final(self).pos.0 == old(self).pos.0 - indicator(pressed_keys@.contains(MyKeys::Left))
                + indicator(pressed_keys@.contains(MyKeys::Right)),
            final(self).pos.1 == old(self).pos.1 - indicator(pressed_keys@.contains(MyKeys::Up))
                + indicator(pressed_keys@.contains(MyKeys::Down)),
            r == (pressed_keys@.contains(MyKeys::Left) || pressed_keys@.contains(MyKeys::Right)
                || pressed_keys@.contains(MyKeys::Up) || pressed_keys@.contains(MyKeys::Down)),
    {
        let mut ret = false;
        if pressed_keys.contains(MyKeys::Left) {
            self.pos.0 = self.pos.0 - 1;
            ret = true;
        }
        if pressed_keys.contains(MyKeys::Right) {
            self.pos.0 = self.pos.0 + 1;
            ret = true;
        }
        if pressed_keys.contains(MyKeys::Up) {
            self.pos.1 = self.pos.1 - 1;
            ret = true;
        }
        if pressed_keys.contains(MyKeys::Down) {
            self.pos.1 = self.pos.1 + 1;
            ret = true;
        }
        ret
    }

    /// Paints the pixel in `color` on a row-major RGBA8 frame `width` pixels
    /// wide, but only while the product of its coordinates is below the
    /// frame's length in bytes, and only where it lies inside the frame;
    /// otherwise leaves the frame alone. Returns whether it painted.
    pub fn draw(&self, frame: &mut [u8], width: usize, color: RGBA8) -> (r: bool)
        ensures
            r == (self.pos.0 * self.pos.1 < old(frame)@.len() && pixel_offset(
                width as int,
                self.pos.0 as int,
                self.pos.1 as int,
            ) + 4 <= old(frame)@.len()),
            r ==> final(frame)@ == with_pixel(
                old(frame)@,
                pixel_offset(width as int, self.pos.0 as int, self.pos.1 as int),
                color,
            ),
            !r ==> final(frame)@ == old(frame)@,
    {
        let (x, y) = self.pos;
        let len = frame.len();
        let small = match x.checked_mul(y) {
            Some(p) => p < len,
            None => false,
        };
        if !small {
            return false;
        }
        let pixels = frame.len() / 4;
        if width != 0 && y > pixels / width {
            proof {
                assert(pixel_offset(width as int, x as int, y as int) + 4 > frame@.len()) by (nonlinear_arith)
                    requires
                        width > 0,
                        y > pixels / width,
                        pixels == frame@.len() / 4,
                        x >= 0,
                ;
            }
            return false;
        }
        proof {
            assert(y * width <= pixels) by (nonlinear_arith)
                requires
                    width == 0 || y <= pixels / width,
            ;
        }
        let row_start = y * width;
        if x >= pixels - row_start {
            proof {
                assert(pixel_offset(width as int, x as int, y as int) + 4 > frame@.len()) by (nonlinear_arith)
                    requires
                        row_start == y * width,
                        x >= pixels - row_start,
                        pixels == frame@.len() / 4,
                ;
            }
            return false;
        }
        proof {
            assert(pixel_offset(width as int, x as int, y as int) + 4 <= frame@.len()) by (nonlinear_arith)
                requires
                    row_start == y * width,
                    x < pixels - row_start,
                    pixels == frame@.len() / 4,
            ;
        }
        put_pixel(frame, width, x, y, color);
        true
    }

    /// Done and remaining on screen once x drops under `DONE_LIMIT`; else
    /// asking to exit once y does; else not done.
    pub fn done(&self) -> (r: DoneStatus)
        ensures
            r == (if self.pos.0 < DONE_LIMIT {
                DoneStatus::Remain
            } else if self.pos.1 < DONE_LIMIT {
                DoneStatus::Exit
            } else {
                DoneStatus::NotDone
            }),
    {
        if self.pos.0 < DONE_LIMIT {
            DoneStatus::Remain
        } else if self.pos.1 < DONE_LIMIT {
            DoneStatus::Exit
        } else {
            DoneStatus::NotDone
        }
    }
}

impl Default for MovingPixel {
    fn default() -> (r: MovingPixel)
        ensures
            r.pos == (0usize, 0usize),
    {
        MovingPixel { pos: (0, 0) }
    }
}

} // verus!
