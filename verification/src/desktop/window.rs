//! Where windows are on screen, which one a point falls in, and where key
//! presses go.
use vstd::prelude::*;
use crate::desktop::renderable::WindowId;
use crate::desktop::input::InputTarget;

verus! {

/// A window's place on screen.
#[derive(Debug, Clone, Copy, PartialEq, Eq, Structural)]
pub struct WindowFrame {
    pub id: WindowId,
    pub x: i32,
    pub y: i32,
    pub width: u32,
    pub height: u32,
    pub visible: bool,
}

/// The checks of a point against a window stay within `i32`; the width and
/// height are taken as `i32`, wrapping as a cast does.
pub open spec fn point_test_fits(f: WindowFrame, px: i32, py: i32) -> bool {
    &&& px >= f.x ==> i32::MIN <= f.x + (f.width as i32) <= i32::MAX
    &&& px >= f.x && px < f.x + (f.width as i32) && py >= f.y ==> i32::MIN <= f.y + (f.height as i32) <= i32::MAX
}

/// The point lies in the window.
pub open spec fn frame_contains(f: WindowFrame, px: i32, py: i32) -> bool {
    px >= f.x && px < f.x + (f.width as i32) && py >= f.y && py < f.y + (f.height as i32)
}

/// Where a point goes: the topmost visible window that holds it (the last
/// in the list is on top), or the desktop.
pub open spec fn hit(frames: Seq<WindowFrame>, px: i32, py: i32) -> InputTarget
    decreases frames.len(),
{
    if frames.len() == 0 {
        InputTarget::Desktop
    } else if frames.last().visible && frame_contains(frames.last(), px, py) {
        InputTarget::Window(frames.last().id)
    } else {
        hit(frames.drop_last(), px, py)
    }
}

/// The point tests made from the top down to the window hit stay within `i32`.
pub open spec fn hit_fits(frames: Seq<WindowFrame>, px: i32, py: i32) -> bool
    decreases frames.len(),
{
    if frames.len() == 0 {
        true
    } else {
        &&& frames.last().visible ==> point_test_fits(frames.last(), px, py)
        &&& (frames.last().visible && frame_contains(frames.last(), px, py)) || hit_fits(frames.drop_last(), px, py)
    }
}

impl WindowFrame {
    pub fn contains_point(&self, px: i32, py: i32) -> (r: bool)
        requires
            point_test_fits(*self, px, py),
        ensures
            r == frame_contains(*self, px, py),
    {
        px >= self.x && px < self.x + self.width as i32 && py >= self.y && py < self.y + self.height as i32
    }

    pub fn bounds(&self) -> (r: (i32, i32, u32, u32))
        ensures
            r == (self.x, self.y, self.width, self.height),
    {
        (self.x, self.y, self.width, self.height)
    }
}

/// Whether testing the point against the window stays within `i32`.
pub fn point_test_in_range(f: &WindowFrame, px: i32, py: i32) -> (r: bool)
    ensures
        r == point_test_fits(*f, px, py),
{
    let w = f.width as i32;
    let h = f.height as i32;
    if px >= f.x {
        let right = f.x as i64 + w as i64;
        if right < i32::MIN as i64 || right > i32::MAX as i64 {
            return false;
        }
        if px < f.x + w && py >= f.y {
            let bottom = f.y as i64 + h as i64;
            if bottom < i32::MIN as i64 || bottom > i32::MAX as i64 {
                return false;
            }
        }
    }
    true
}

/// Whether searching for the window a point falls in stays within `i32`.
pub fn hit_test_in_range(px: i32, py: i32, frames: &[WindowFrame]) -> (r: bool)
    ensures
        r == hit_fits(frames@, px, py),
{
    let mut k: usize = frames.len();
    assert(frames@.take(k as int) =~= frames@);
    while k > 0
        invariant
            k <= frames@.len(),
            hit_fits(frames@, px, py) == hit_fits(frames@.take(k as int), px, py),
        decreases k,
    {
        let f = frames[k - 1];
        proof {
            let t = frames@.take(k as int);
            assert(t.last() == f);
            assert(t.drop_last() =~= frames@.take(k - 1));
        }
        if f.visible {
            if !point_test_in_range(&f, px, py) {
                return false;
            }
            if f.contains_point(px, py) {
                return true;
            }
        }
        k -= 1;
    }
    true
}

/// The window a point falls in, searching from the top.
pub fn hit_test(px: i32, py: i32, frames: &[WindowFrame]) -> (r: InputTarget)
    requires
        hit_fits(frames@, px, py),
    ensures
        r == hit(frames@, px, py),
{
    let mut k: usize = frames.len();
    assert(frames@.take(k as int) =~= frames@);
    while k > 0
        invariant
            k <= frames@.len(),
            hit(frames@, px, py) == hit(frames@.take(k as int), px, py),
            hit_fits(frames@.take(k as int), px, py),
        decreases k,
    {
        let f = frames[k - 1];
        proof {
            let t = frames@.take(k as int);
            assert(t.last() == f);
            assert(t.drop_last() =~= frames@.take(k - 1));
        }
        if f.visible && f.contains_point(px, py) {
            return InputTarget::Window(f.id);
        }
        k -= 1;
    }
    InputTarget::Desktop
}

/// Key presses go to the focused window, or to the desktop.
pub fn route_key(focused: Option<WindowId>) -> (r: InputTarget)
    ensures
        r == match focused {
            Some(id) => InputTarget::Window(id),
            None => InputTarget::Desktop,
        },
{
    match focused {
        Some(id) => InputTarget::Window(id),
        None => InputTarget::Desktop,
    }
}

} // verus!
