//! The color palette used by entities and messages.

use vstd::prelude::*;
use crate::entity::Color;

verus! {

/// The spec-level value of [`white`].
pub open spec fn white_v() -> Color {
    Color { r: 255, g: 255, b: 255 }
}

pub fn white() -> (c: Color)
    ensures
        c == white_v(),
{
    Color { r: 255, g: 255, b: 255 }
}

/// The spec-level value of [`red`].
pub open spec fn red_v() -> Color {
    Color { r: 255, g: 0, b: 0 }
}

pub fn red() -> (c: Color)
    ensures
        c == red_v(),
{
    Color { r: 255, g: 0, b: 0 }
}

/// The spec-level value of [`dark_red`].
pub open spec fn dark_red_v() -> Color {
    Color { r: 191, g: 0, b: 0 }
}

pub fn dark_red() -> (c: Color)
    ensures
        c == dark_red_v(),
{
    Color { r: 191, g: 0, b: 0 }
}

/// The spec-level value of [`green`].
pub open spec fn green_v() -> Color {
    Color { r: 0, g: 255, b: 0 }
}

pub fn green() -> (c: Color)
    ensures
        c == green_v(),
{
    Color { r: 0, g: 255, b: 0 }
}

/// The spec-level value of [`light_green`].
pub open spec fn light_green_v() -> Color {
    Color { r: 63, g: 255, b: 63 }
}

pub fn light_green() -> (c: Color)
    ensures
        c == light_green_v(),
{
    Color { r: 63, g: 255, b: 63 }
}

/// The spec-level value of [`desaturated_green`].
pub open spec fn desaturated_green_v() -> Color {
    Color { r: 63, g: 127, b: 63 }
}

pub fn desaturated_green() -> (c: Color)
    ensures
        c == desaturated_green_v(),
{
    Color { r: 63, g: 127, b: 63 }
}

/// The spec-level value of [`darker_green`].
pub open spec fn darker_green_v() -> Color {
    Color { r: 0, g: 127, b: 0 }
}

pub fn darker_green() -> (c: Color)
    ensures
        c == darker_green_v(),
{
    Color { r: 0, g: 127, b: 0 }
}

/// The spec-level value of [`yellow`].
pub open spec fn yellow_v() -> Color {
    Color { r: 255, g: 255, b: 0 }
}

pub fn yellow() -> (c: Color)
    ensures
        c == yellow_v(),
{
    Color { r: 255, g: 255, b: 0 }
}

/// The spec-level value of [`light_yellow`].
pub open spec fn light_yellow_v() -> Color {
    Color { r: 255, g: 255, b: 63 }
}

pub fn light_yellow() -> (c: Color)
    ensures
        c == light_yellow_v(),
{
    Color { r: 255, g: 255, b: 63 }
}

/// The spec-level value of [`orange`].
pub open spec fn orange_v() -> Color {
    Color { r: 255, g: 127, b: 0 }
}

pub fn orange() -> (c: Color)
    ensures
        c == orange_v(),
{
    Color { r: 255, g: 127, b: 0 }
}

/// The spec-level value of [`darker_orange`].
pub open spec fn darker_orange_v() -> Color {
    Color { r: 127, g: 63, b: 0 }
}

pub fn darker_orange() -> (c: Color)
    ensures
        c == darker_orange_v(),
{
    Color { r: 127, g: 63, b: 0 }
}

/// The spec-level value of [`violet`].
pub open spec fn violet_v() -> Color {
    Color { r: 127, g: 0, b: 255 }
}

pub fn violet() -> (c: Color)
    ensures
        c == violet_v(),
{
    Color { r: 127, g: 0, b: 255 }
}

/// The spec-level value of [`light_violet`].
pub open spec fn light_violet_v() -> Color {
    Color { r: 159, g: 63, b: 255 }
}

pub fn light_violet() -> (c: Color)
    ensures
        c == light_violet_v(),
{
    Color { r: 159, g: 63, b: 255 }
}

/// The spec-level value of [`light_blue`].
pub open spec fn light_blue_v() -> Color {
    Color { r: 63, g: 63, b: 255 }
}

pub fn light_blue() -> (c: Color)
    ensures
        c == light_blue_v(),
{
    Color { r: 63, g: 63, b: 255 }
}

/// The spec-level value of [`light_cyan`].
pub open spec fn light_cyan_v() -> Color {
    Color { r: 63, g: 255, b: 255 }
}

pub fn light_cyan() -> (c: Color)
    ensures
        c == light_cyan_v(),
{
    Color { r: 63, g: 255, b: 255 }
}

/// The spec-level value of [`sky`].
pub open spec fn sky_v() -> Color {
    Color { r: 0, g: 191, b: 255 }
}

pub fn sky() -> (c: Color)
    ensures
        c == sky_v(),
{
    Color { r: 0, g: 191, b: 255 }
}

} // verus!
