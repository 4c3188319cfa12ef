//! Colors from reflected rays.
use vstd::prelude::*;
use crate::fixed::Fixed;
use crate::fixed_lemmas::lemma_mul_sign;
use super::{Ray, R3, X};

verus! {

/// A color of three 8-bit channels.
#[derive(Clone, Copy, Debug, PartialEq, Eq, Structural)]
pub struct Color {
    pub r: u8,
    pub g: u8,
    pub b: u8,
}

/// One of the three channels of a color.
#[derive(Clone, Copy, Debug, PartialEq, Eq, Structural)]
pub enum Channel {
    Red,
    Green,
    Blue,
}

/// The direction from which the light comes: against the first axis.
pub open spec fn spec_toward_light() -> R3 {
    Fixed::spec_from_int(-1).spec_times(R3::spec_x())
}

/// How far `reflected` points toward the light, from 0 (not at all) to one.
/// Directions that point away from the light count as 0.
pub open spec fn spec_alignment(reflected: Ray) -> Fixed {
    let a = reflected.dir.spec_dot(spec_toward_light());
    if a@ < 0 {
        Fixed::spec_zero()
    } else {
        a
    }
}

/// The brightness of a reflected ray: its alignment with the light times
/// 255, without the fraction, and no more than 255.
pub open spec fn spec_intensity(reflected: Ray) -> u8 {
    let level = spec_alignment(reflected).spec_mul(Fixed::spec_from_int(255)).spec_trunc();
    if level > 255 {
        255u8
    } else {
        level as u8
    }
}

/// The color that has `level` on `channel` and nothing on the others.
pub open spec fn spec_tint(channel: Channel, level: u8) -> Color {
    match channel {
        Channel::Red => Color { r: level, g: 0, b: 0 },
        Channel::Green => Color { r: 0, g: level, b: 0 },
        Channel::Blue => Color { r: 0, g: 0, b: level },
    }
}

/// The color of a pixel whose ray hit nothing: white.
pub open spec fn spec_background() -> Color {
    Color { r: 255, g: 255, b: 255 }
}

/// The color of a pixel: the background on a miss, and on a hit the
/// brightness of the reflected ray on the channel of the shape that was hit.
pub open spec fn spec_shade(hit: Option<(Channel, Ray)>) -> Color {
    match hit {
        Some((channel, reflected)) => spec_tint(channel, spec_intensity(reflected)),
        None => spec_background(),
    }
}

/// The brightness of a reflected ray, from 0 to 255.
pub fn intensity(reflected: Ray) -> (level: u8)
    ensures
        level == spec_intensity(reflected),
{
    let a = reflected.dir.dot(Fixed::from_int(-1) * X());
    let clamped = if a.is_negative() {
        Fixed::zero()
    } else {
        a
    };
    let level: i64 = (clamped * Fixed::from_int(255)).trunc();
    if level > 255 {
        255
    } else {
        assert(level >= 0) by {
            lemma_mul_sign(clamped, Fixed::spec_from_int(255));
        }
        level as u8
    }
}

/// The color that has `level` on `channel` and nothing on the others.
pub fn tint(channel: Channel, level: u8) -> (c: Color)
    ensures
        c == spec_tint(channel, level),
{
    match channel {
        Channel::Red => Color { r: level, g: 0, b: 0 },
        Channel::Green => Color { r: 0, g: level, b: 0 },
        Channel::Blue => Color { r: 0, g: 0, b: level },
    }
}

/// The color of a pixel whose ray hit nothing.
pub fn background() -> (c: Color)
    ensures
        c == spec_background(),
{
    Color { r: 255, g: 255, b: 255 }
}

/// The color of a pixel from what its ray hit.
pub fn shade(hit: Option<(Channel, Ray)>) -> (c: Color)
    ensures
        c == spec_shade(hit),
{
    match hit {
        Some((channel, reflected)) => tint(channel, intensity(reflected)),
        None => background(),
    }
}

} // verus!
