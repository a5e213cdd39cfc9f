//! Types for callers on the other side of a foreign-function boundary.

use vstd::prelude::*;

verus! {

/// Stands for a screen where only a handle to one is passed around. No value
/// of it can be made outside this module.
pub struct ScreenImpl {
    _opaque: (),
}

/// Stands for a cell where only a handle to one is passed around. No value
/// of it can be made outside this module.
pub struct CellImpl {
    _opaque: (),
}

/// A color packed into one 32-bit word.
#[allow(deprecated)]
pub struct ColorImpl(pub libc::uint32_t);

/// A position on the screen, with the integer type that C callers use.
pub struct Loc {
    pub row: libc::c_int,
    pub col: libc::c_int,
}

} // verus!
