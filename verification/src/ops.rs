//! Arithmetic on channels, pixels and rectangles, field by field.

use vstd::prelude::*;
use crate::pixel::packed;
use crate::pixel::Channel;
use crate::pixel::Pixel;
use crate::rect::xdiv;
use crate::rect::xdiv_i32;
use crate::rect::Rect;

verus! {

/// The quotient of two bytes, and zero where the divisor is zero.
pub open spec fn div_or_zero(a: u8, b: u8) -> u8 {
    if b == 0 {
        0
    } else {
        a / b
    }
}

/// Divides two bytes; a zero divisor gives zero.
fn div_byte(a: u8, b: u8) -> (q: u8)
    ensures
        q == div_or_zero(a, b),
{
    if b == 0 {
        0
    } else {
        a / b
    }
}

impl core::ops::Add for Channel {
    type Output = Channel;

    /// Adds channel by channel; a sum beyond 255 wraps around.
    fn add(self, rhs: Channel) -> (c: Channel) {
        Channel {
            r: self.r.wrapping_add(rhs.r),
            g: self.g.wrapping_add(rhs.g),
            b: self.b.wrapping_add(rhs.b),
            a: self.a.wrapping_add(rhs.a),
        }
    }
}

impl vstd::std_specs::ops::AddSpecImpl for Channel {
    open spec fn obeys_add_spec() -> bool {
        true
    }

    open spec fn add_req(self, rhs: Channel) -> bool {
        true
    }

    open spec fn add_spec(self, rhs: Channel) -> Channel {
        Channel {
            r: self.r.wrapping_add(rhs.r),
            g: self.g.wrapping_add(rhs.g),
            b: self.b.wrapping_add(rhs.b),
            a: self.a.wrapping_add(rhs.a),
        }
    }
}

impl core::ops::Sub for Channel {
    type Output = Channel;

    /// Subtracts channel by channel; a difference below 0 wraps around.
    fn sub(self, rhs: Channel) -> (c: Channel) {
        Channel {
            r: self.r.wrapping_sub(rhs.r),
            g: self.g.wrapping_sub(rhs.g),
            b: self.b.wrapping_sub(rhs.b),
            a: self.a.wrapping_sub(rhs.a),
        }
    }
}

impl vstd::std_specs::ops::SubSpecImpl for Channel {
    open spec fn obeys_sub_spec() -> bool {
        true
    }

    open spec fn sub_req(self, rhs: Channel) -> bool {
        true
    }

    open spec fn sub_spec(self, rhs: Channel) -> Channel {
        Channel {
            r: self.r.wrapping_sub(rhs.r),
            g: self.g.wrapping_sub(rhs.g),
            b: self.b.wrapping_sub(rhs.b),
            a: self.a.wrapping_sub(rhs.a),
        }
    }
}

impl core::ops::Mul for Channel {
    type Output = Channel;

    /// Multiplies channel by channel; a product beyond 255 wraps around.
    fn mul(self, rhs: Channel) -> (c: Channel) {
        Channel {
            r: self.r.wrapping_mul(rhs.r),
            g: self.g.wrapping_mul(rhs.g),
            b: self.b.wrapping_mul(rhs.b),
            a: self.a.wrapping_mul(rhs.a),
        }
    }
}

impl vstd::std_specs::ops::MulSpecImpl for Channel {
    open spec fn obeys_mul_spec() -> bool {
        true
    }

    open spec fn mul_req(self, rhs: Channel) -> bool {
        true
    }

    open spec fn mul_spec(self, rhs: Channel) -> Channel {
        Channel {
            r: self.r.wrapping_mul(rhs.r),
            g: self.g.wrapping_mul(rhs.g),
            b: self.b.wrapping_mul(rhs.b),
            a: self.a.wrapping_mul(rhs.a),
        }
    }
}

impl core::ops::Div for Channel {
    type Output = Channel;

    /// Divides channel by channel; a channel divided by zero is zero.
    fn div(self, rhs: Channel) -> (c: Channel) {
        Channel {
            r: div_byte(self.r, rhs.r),
            g: div_byte(self.g, rhs.g),
            b: div_byte(self.b, rhs.b),
            a: div_byte(self.a, rhs.a),
        }
    }
}

impl vstd::std_specs::ops::DivSpecImpl for Channel {
    open spec fn obeys_div_spec() -> bool {
        true
    }

    open spec fn div_req(self, rhs: Channel) -> bool {
        true
    }

    open spec fn div_spec(self, rhs: Channel) -> Channel {
        Channel {
            r: div_or_zero(self.r, rhs.r),
            g: div_or_zero(self.g, rhs.g),
            b: div_or_zero(self.b, rhs.b),
            a: div_or_zero(self.a, rhs.a),
        }
    }
}

impl core::ops::Add for Pixel {
    type Output = Pixel;

    /// Adds the channels of two pixels, wrapping around.
    fn add(self, rhs: Pixel) -> (p: Pixel) {
        Pixel::from_rgba(self.rgba() + rhs.rgba())
    }
}

impl vstd::std_specs::ops::AddSpecImpl for Pixel {
    open spec fn obeys_add_spec() -> bool {
        true
    }

    open spec fn add_req(self, rhs: Pixel) -> bool {
        true
    }

    open spec fn add_spec(self, rhs: Pixel) -> Pixel {
        packed(vstd::std_specs::ops::AddSpec::add_spec(self@, rhs@))
    }
}

impl core::ops::Sub for Pixel {
    type Output = Pixel;

    /// Subtracts the channels of two pixels, wrapping around.
    fn sub(self, rhs: Pixel) -> (p: Pixel) {
        Pixel::from_rgba(self.rgba() - rhs.rgba())
    }
}

impl vstd::std_specs::ops::SubSpecImpl for Pixel {
    open spec fn obeys_sub_spec() -> bool {
        true
    }

    open spec fn sub_req(self, rhs: Pixel) -> bool {
        true
    }

    open spec fn sub_spec(self, rhs: Pixel) -> Pixel {
        packed(vstd::std_specs::ops::SubSpec::sub_spec(self@, rhs@))
    }
}

impl core::ops::Mul for Pixel {
    type Output = Pixel;

    /// Multiplies the channels of two pixels, wrapping around.
    fn mul(self, rhs: Pixel) -> (p: Pixel) {
        Pixel::from_rgba(self.rgba() * rhs.rgba())
    }
}

impl vstd::std_specs::ops::MulSpecImpl for Pixel {
    open spec fn obeys_mul_spec() -> bool {
        true
    }

    open spec fn mul_req(self, rhs: Pixel) -> bool {
        true
    }

    open spec fn mul_spec(self, rhs: Pixel) -> Pixel {
        packed(vstd::std_specs::ops::MulSpec::mul_spec(self@, rhs@))
    }
}

impl core::ops::Div for Pixel {
    type Output = Pixel;

    /// Divides the channels of two pixels; a channel divided by zero is zero.
    fn div(self, rhs: Pixel) -> (p: Pixel) {
        Pixel::from_rgba(self.rgba() / rhs.rgba())
    }
}

impl vstd::std_specs::ops::DivSpecImpl for Pixel {
    open spec fn obeys_div_spec() -> bool {
        true
    }

    open spec fn div_req(self, rhs: Pixel) -> bool {
        true
    }

    open spec fn div_spec(self, rhs: Pixel) -> Pixel {
        packed(vstd::std_specs::ops::DivSpec::div_spec(self@, rhs@))
    }
}

impl core::ops::Add for Rect {
    type Output = Rect;

    /// Adds field by field.
    fn add(self, rhs: Rect) -> (r: Rect) {
        Rect { x: self.x + rhs.x, y: self.y + rhs.y, w: self.w + rhs.w, h: self.h + rhs.h }
    }
}

impl vstd::std_specs::ops::AddSpecImpl for Rect {
    open spec fn obeys_add_spec() -> bool {
        true
    }

    /// No field of the result may leave the range of a 32-bit number.
    open spec fn add_req(self, rhs: Rect) -> bool {
        &&& i32::MIN <= self.x + rhs.x <= i32::MAX
        &&& i32::MIN <= self.y + rhs.y <= i32::MAX
        &&& i32::MIN <= self.w + rhs.w <= i32::MAX
        &&& i32::MIN <= self.h + rhs.h <= i32::MAX
    }

    open spec fn add_spec(self, rhs: Rect) -> Rect {
        Rect {
            x: (self.x + rhs.x) as i32,
            y: (self.y + rhs.y) as i32,
            w: (self.w + rhs.w) as i32,
            h: (self.h + rhs.h) as i32,
        }
    }
}

impl core::ops::Sub for Rect {
    type Output = Rect;

    /// Subtracts field by field.
    fn sub(self, rhs: Rect) -> (r: Rect) {
        Rect { x: self.x - rhs.x, y: self.y - rhs.y, w: self.w - rhs.w, h: self.h - rhs.h }
    }
}

impl vstd::std_specs::ops::SubSpecImpl for Rect {
    open spec fn obeys_sub_spec() -> bool {
        true
    }

    /// No field of the result may leave the range of a 32-bit number.
    open spec fn sub_req(self, rhs: Rect) -> bool {
        &&& i32::MIN <= self.x - rhs.x <= i32::MAX
        &&& i32::MIN <= self.y - rhs.y <= i32::MAX
        &&& i32::MIN <= self.w - rhs.w <= i32::MAX
        &&& i32::MIN <= self.h - rhs.h <= i32::MAX
    }

    open spec fn sub_spec(self, rhs: Rect) -> Rect {
        Rect {
            x: (self.x - rhs.x) as i32,
            y: (self.y - rhs.y) as i32,
            w: (self.w - rhs.w) as i32,
            h: (self.h - rhs.h) as i32,
        }
    }
}

impl core::ops::Mul for Rect {
    type Output = Rect;

    /// Multiplies field by field.
    fn mul(self, rhs: Rect) -> (r: Rect) {
        Rect { x: self.x * rhs.x, y: self.y * rhs.y, w: self.w * rhs.w, h: self.h * rhs.h }
    }
}

impl vstd::std_specs::ops::MulSpecImpl for Rect {
    open spec fn obeys_mul_spec() -> bool {
        true
    }

    /// No field of the result may leave the range of a 32-bit number.
    open spec fn mul_req(self, rhs: Rect) -> bool {
        &&& i32::MIN <= self.x * rhs.x <= i32::MAX
        &&& i32::MIN <= self.y * rhs.y <= i32::MAX
        &&& i32::MIN <= self.w * rhs.w <= i32::MAX
        &&& i32::MIN <= self.h * rhs.h <= i32::MAX
    }

    open spec fn mul_spec(self, rhs: Rect) -> Rect {
        Rect {
            x: (self.x * rhs.x) as i32,
            y: (self.y * rhs.y) as i32,
            w: (self.w * rhs.w) as i32,
            h: (self.h * rhs.h) as i32,
        }
    }
}

/// Whether the machine can divide `n` by `d`: the one quotient that does not
/// fit is left out.
pub open spec fn divides(n: i32, d: i32) -> bool {
    !(n == i32::MIN && d == -1)
}

impl core::ops::Div for Rect {
    type Output = Rect;

    /// Divides field by field; a field divided by zero stays as it is.
    fn div(self, rhs: Rect) -> (r: Rect) {
        Rect {
            x: xdiv_i32(self.x, rhs.x),
            y: xdiv_i32(self.y, rhs.y),
            w: xdiv_i32(self.w, rhs.w),
            h: xdiv_i32(self.h, rhs.h),
        }
    }
}

impl vstd::std_specs::ops::DivSpecImpl for Rect {
    open spec fn obeys_div_spec() -> bool {
        true
    }

    open spec fn div_req(self, rhs: Rect) -> bool {
        &&& divides(self.x, rhs.x)
        &&& divides(self.y, rhs.y)
        &&& divides(self.w, rhs.w)
        &&& divides(self.h, rhs.h)
    }

    open spec fn div_spec(self, rhs: Rect) -> Rect {
        Rect {
            x: xdiv(self.x as int, rhs.x as int) as i32,
            y: xdiv(self.y as int, rhs.y as int) as i32,
            w: xdiv(self.w as int, rhs.w as int) as i32,
            h: xdiv(self.h as int, rhs.h as int) as i32,
        }
    }
}

impl core::ops::Neg for Rect {
    type Output = Rect;

    /// Negates field by field.
    fn neg(self) -> (r: Rect) {
        Rect { x: -self.x, y: -self.y, w: -self.w, h: -self.h }
    }
}

impl vstd::std_specs::ops::NegSpecImpl for Rect {
    open spec fn obeys_neg_spec() -> bool {
        true
    }

    /// The least 32-bit number has no negative.
    open spec fn neg_req(self) -> bool {
        self.x > i32::MIN && self.y > i32::MIN && self.w > i32::MIN && self.h > i32::MIN
    }

    open spec fn neg_spec(self) -> Rect {
        Rect { x: (-self.x) as i32, y: (-self.y) as i32, w: (-self.w) as i32, h: (-self.h) as i32 }
    }
}

} // verus!
