//! The two blits of a buffer as a caller sees them: `copy_pixels` and
//! `draw` pick the source rectangle and the path that a placement asks for.

use vstd::prelude::*;
use crate::buffer::Buffer;
use crate::copy::copied;
use crate::copy::scaled_copied;
use crate::draw::drawn;
use crate::draw::rotated;
use crate::draw::scaled_drawn;
use crate::placement::Rotation;
use crate::placement::Scaling;
use crate::rect::Rect;

verus! {

/// How a source is placed on a destination, once its transform is resolved
/// to whole numbers.
#[derive(Debug, Copy, Clone, PartialEq, Eq, Structural)]
pub enum Placement {
    /// Neither scaled nor rotated: drawn as it is, at `(x, y)`.
    Plain { x: i32, y: i32 },
    /// Scaled along the axes, perhaps mirrored, and drawn at `(x, y)`.
    Scaled { x: i32, y: i32, plan: Scaling },
    /// Rotated, and perhaps scaled and mirrored.
    Rotated(Rotation),
}

/// The paths that a drawing can take.
#[derive(Debug, Copy, Clone, PartialEq, Eq, Structural)]
pub enum DrawPath {
    /// No transform: the plain blit at the given place.
    Basic,
    /// A transform that only moves the origin: the plain blit at the place
    /// less the origin.
    BasicMoved,
    /// A transform that scales but does not rotate.
    Scaled,
    /// A transform that rotates.
    RotateScaled,
}

/// The paths that a copy can take.
#[derive(Debug, Copy, Clone, PartialEq, Eq, Structural)]
pub enum CopyPath {
    /// A scale of zero along an axis: nothing is copied.
    Nothing,
    /// A scale of one along both axes.
    Basic,
    /// Any other scale.
    Scaled,
}

/// Picks the path of a drawing: without a transform the plain blit; with
/// one that rotates the rotating blit, whatever its scale; with one that
/// does not rotate the scaling blit, or the plain blit where its scale is
/// one along both axes.
pub fn draw_path(has_transform: bool, unrotated: bool, unscaled: bool) -> (path: DrawPath)
    ensures
        path == (if !has_transform {
            DrawPath::Basic
        } else if !unrotated {
            DrawPath::RotateScaled
        } else if unscaled {
            DrawPath::BasicMoved
        } else {
            DrawPath::Scaled
        }),
{
    if !has_transform {
        DrawPath::Basic
    } else if unrotated && unscaled {
        DrawPath::BasicMoved
    } else if unrotated {
        DrawPath::Scaled
    } else {
        DrawPath::RotateScaled
    }
}

/// Picks the path of a copy from what is known of the magnitudes of its
/// two scale factors.
pub fn copy_path(zero_scale: bool, unit_scale: bool) -> (path: CopyPath)
    ensures
        path == (if zero_scale {
            CopyPath::Nothing
        } else if unit_scale {
            CopyPath::Basic
        } else {
            CopyPath::Scaled
        }),
{
    if zero_scale {
        CopyPath::Nothing
    } else if unit_scale {
        CopyPath::Basic
    } else {
        CopyPath::Scaled
    }
}

impl Buffer {
    /// Whether `sub` may select from this buffer: a rectangle with area has
    /// to lie inside the grid.
    pub open spec fn admits(&self, sub: Option<Rect>) -> bool {
        match sub {
            Some(s) => s.is_empty() || self.holds(s),
            None => true,
        }
    }

    /// The rectangle that `sub` selects: the whole grid where none is
    /// given, and nothing where the given one has no area.
    pub open spec fn selected(&self, sub: Option<Rect>) -> Option<Rect> {
        match sub {
            Some(s) => if s.is_empty() {
                None
            } else {
                Some(s)
            },
            None => Some(self.bounds()),
        }
    }

    /// Whether `sub` may select from this buffer, decided.
    pub fn can_select(&self, sub: Option<Rect>) -> (ok: bool)
        ensures
            ok == self.admits(sub),
    {
        match sub {
            Some(s) => s.w <= 0 || s.h <= 0 || (s.x >= 0 && s.y >= 0 && s.x as i64 + s.w as i64
                <= self.w as i64 && s.y as i64 + s.h as i64 <= self.h as i64),
            None => true,
        }
    }

    /// Resolves the source rectangle of a blit.
    pub fn select(&self, sub: Option<Rect>) -> (s: Option<Rect>)
        requires
            self.wf(),
            self.admits(sub),
        ensures
            s == self.selected(sub),
            s matches Some(r) ==> self.holds(r) && !r.is_empty(),
    {
        match sub {
            Some(s) => {
                if s.w <= 0 || s.h <= 0 {
                    None
                } else {
                    Some(s)
                }
            },
            None => Some(Rect::new(0, 0, self.w, self.h)),
        }
    }

    /// Copies pixels of `src` to `(x, y)`: the rectangle `sub`, or all of
    /// `src` where none is given; as they are, or scaled where a scaling is
    /// given. A rectangle without area copies nothing.
    pub fn copy_pixels(
        &mut self,
        src: &Buffer,
        x: i32,
        y: i32,
        sub: Option<Rect>,
        scale: Option<Scaling>,
    )
        requires
            old(self).wf(),
            src.wf(),
            src.admits(sub),
        ensures
            match src.selected(sub) {
                None => *final(self) == *old(self),
                Some(s) => match scale {
                    None => copied(*old(self), *final(self), *src, x as int, y as int, s),
                    Some(plan) => scaled_copied(
                        *old(self),
                        *final(self),
                        *src,
                        x as int,
                        y as int,
                        s,
                        plan,
                    ),
                },
            },
    {
        /* Check sub rectangle */
        let s = match src.select(sub) {
            Some(s) => s,
            None => {
                return ;
            },
        };
        /* Dispatch */
        match scale {
            None => crate::copy::basic(self, src, x, y, s),
            Some(plan) => crate::copy::scaled(self, src, x, y, s, &plan),
        }
    }

    /// Draws pixels of `src`: the rectangle `sub`, or all of `src` where
    /// none is given; at `(x, y)` as they are where no placement is given,
    /// and as the placement says where one is. A rectangle without area
    /// draws nothing.
    pub fn draw(&mut self, src: &Buffer, x: i32, y: i32, sub: Option<Rect>, t: Option<Placement>)
        requires
            old(self).wf(),
            src.wf(),
            src.admits(sub),
        ensures
            match src.selected(sub) {
                None => *final(self) == *old(self),
                Some(s) => match t {
                    None => drawn(*old(self), *final(self), *src, x as int, y as int, s),
                    Some(Placement::Plain { x: tx, y: ty }) => drawn(
                        *old(self),
                        *final(self),
                        *src,
                        tx as int,
                        ty as int,
                        s,
                    ),
                    Some(Placement::Scaled { x: tx, y: ty, plan }) => scaled_drawn(
                        *old(self),
                        *final(self),
                        *src,
                        tx as int,
                        ty as int,
                        s,
                        plan,
                    ),
                    Some(Placement::Rotated(plan)) => rotated(*old(self), *final(self), *src, s, plan),
                },
            },
    {
        /* Init sub rect */
        let s = match src.select(sub) {
            Some(s) => s,
            None => {
                return ;
            },
        };
        /* Draw */
        match t {
            None => crate::draw::basic(self, src, x, y, s),
            Some(Placement::Plain { x: tx, y: ty }) => crate::draw::basic(self, src, tx, ty, s),
            Some(Placement::Scaled { x: tx, y: ty, plan }) => crate::draw::scaled(
                self,
                src,
                tx,
                ty,
                s,
                &plan,
            ),
            Some(Placement::Rotated(plan)) => crate::draw::rotate_scaled(self, src, s, &plan),
        }
    }
}

} // verus!
