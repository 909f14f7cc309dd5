//! Style vocabulary of the terminal views.
use vstd::prelude::*;

verus! {

/// Weight of a text.
#[derive(Clone, Copy, PartialEq, Eq, Debug)]
pub enum BoldType {
    ULTRA,
    NONE,
    NORMAL,
    SOME,
    BITMORE,
}

/// Slant of a text.
#[derive(Clone, Copy, PartialEq, Eq, Debug)]
pub enum ITALLICType {
    ULTRA,
    NONE,
    NORMAL,
    SOME,
    BITMORE,
}

/// Colour of a text or a cell.
#[derive(Clone, Debug)]
pub enum Color {
    RGB(u8, u8, u8),
    HEX(String),
    RGBA(u8, u8, u8),
    TRANSPARENT,
    DEFAULT,
    RANDOM,
}

/// Horizontal placement of a text in a wider field.
#[derive(Clone, Copy, PartialEq, Eq, Debug)]
pub enum AllignmentType {
    CENTER,
    LEFT,
    RIGHT,
}

} // verus!
