//! RGBA colours packed into one 32-bit value, red in the high byte.

use vstd::prelude::*;

verus! {

/// A colour with red, green, blue and alpha channels.
pub trait RgbaColor: Sized {
    /// The four channels: red, green, blue, alpha.
    spec fn channels(&self) -> (u8, u8, u8, u8);

    fn from_rgba(r: u8, g: u8, b: u8, a: u8) -> (c: Self)
        ensures
            c.channels() == (r, g, b, a),
    ;

    fn r(&self) -> (v: u8)
        ensures
            v == self.channels().0,
    ;

    fn g(&self) -> (v: u8)
        ensures
            v == self.channels().1,
    ;

    fn b(&self) -> (v: u8)
        ensures
            v == self.channels().2,
    ;

    fn a(&self) -> (v: u8)
        ensures
            v == self.channels().3,
    ;
}

impl RgbaColor for u32 {
    open spec fn channels(&self) -> (u8, u8, u8, u8) {
        (
            (*self / 0x1000000) as u8,
            ((*self / 0x10000) % 0x100) as u8,
            ((*self / 0x100) % 0x100) as u8,
            (*self % 0x100) as u8,
        )
    }

    fn from_rgba(r: u8, g: u8, b: u8, a: u8) -> (c: u32) {
        let c = (r as u32) * 0x1000000 + (g as u32) * 0x10000 + (b as u32) * 0x100 + a as u32;
        assert(c / 0x1000000 == r && (c / 0x10000) % 0x100 == g && (c / 0x100) % 0x100 == b && c
            % 0x100 == a) by (nonlinear_arith)
            requires
                c == r * 0x1000000 + g * 0x10000 + b * 0x100 + a,
                r < 0x100,
                g < 0x100,
                b < 0x100,
                a < 0x100,
        ;
        c
    }

    fn r(&self) -> (v: u8) {
        (*self / 0x1000000) as u8
    }

    fn g(&self) -> (v: u8) {
        ((*self / 0x10000) % 0x100) as u8
    }

    fn b(&self) -> (v: u8) {
        ((*self / 0x100) % 0x100) as u8
    }

    fn a(&self) -> (v: u8) {
        (*self % 0x100) as u8
    }
}

} // verus!
