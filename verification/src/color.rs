//! Colours, and the text of a pixel.

use crate::math::Point3;
use vstd::prelude::*;

verus! {

/// A colour, as three components that are expected to lie in `[0, 1]`.
pub type Color = Point3;

/// Writing a colour as the text of one pixel.
pub trait WriteColor {
    fn write_color(&self) -> String;
}

/// One pixel: its three channels, each from 0 to 255.
#[derive(Clone, Copy, Debug, PartialEq, Eq, Structural)]
pub struct Rgb {
    pub r: u8,
    pub g: u8,
    pub b: u8,
}

/// The character of a decimal digit.
pub open spec fn digit(d: u8) -> char
    recommends
        d <= 9,
{
    (d + 48) as char
}

/// A channel in decimal, without leading zeros.
pub open spec fn decimal(n: u8) -> Seq<char> {
    if n < 10 {
        seq![digit(n)]
    } else if n < 100 {
        seq![digit(n / 10), digit(n % 10)]
    } else {
        seq![digit(n / 100), digit(n / 10 % 10), digit(n % 10)]
    }
}

/// The text of a pixel: red, green and blue in decimal, a space between them.
pub open spec fn pixel_text(c: Rgb) -> Seq<char> {
    decimal(c.r) + seq![' '] + decimal(c.g) + seq![' '] + decimal(c.b)
}

/// `String::push` of the standard library appends the character to the end
/// of the string and changes nothing else of it.
pub assume_specification[ String::push ](s: &mut String, c: char)
    ensures
        final(s)@ == old(s)@.push(c),
;

fn push_digit(s: &mut String, d: u8)
    requires
        d <= 9,
    ensures
        final(s)@ == old(s)@.push(digit(d)),
{
    s.push((d + 48) as char);
}

fn push_decimal(s: &mut String, n: u8)
    ensures
        final(s)@ == old(s)@ + decimal(n),
{
    if n >= 100 {
        push_digit(s, n / 100);
    }
    if n >= 10 {
        push_digit(s, n / 10 % 10);
    }
    push_digit(s, n % 10);
    assert(s@ =~= old(s)@ + decimal(n));
}

impl Rgb {
    pub fn new(r: u8, g: u8, b: u8) -> (c: Self)
        ensures
            c.r == r,
            c.g == g,
            c.b == b,
    {
        Rgb { r, g, b }
    }
}

impl WriteColor for Rgb {
    fn write_color(&self) -> (s: String)
        ensures
            s@ == pixel_text(*self),
    {
        let mut s = String::new();
        push_decimal(&mut s, self.r);
        s.push(' ');
        push_decimal(&mut s, self.g);
        s.push(' ');
        push_decimal(&mut s, self.b);
        assert(s@ =~= pixel_text(*self));
        s
    }
}

} // verus!
