//! Trusted boundary to the host rendering framework (`ratatui_core`).
//!
//! The gauge draws into the host's `Buffer`, a grid of character cells.  The
//! buffer is opaque to the verifier; what the contracts need of it is named
//! here: the rectangle of cells it covers ([`grid_area`]), the symbol shown in
//! each cell ([`grid_symbols`]), and the style most recently patched onto each
//! cell ([`grid_patches`]).  Style values themselves are carried through
//! unexamined.

use vstd::prelude::*;
use ratatui_core::buffer::Buffer;
use ratatui_core::style::Style;

verus! {

#[verifier::external_type_specification]
#[verifier::external_body]
pub struct ExStyle(Style);

#[verifier::external_type_specification]
#[verifier::external_body]
pub struct ExBuffer(Buffer);

/// The symbol each cell of the buffer displays, as a sequence of characters,
/// keyed by the cell's global `(x, y)` position.
pub uninterp spec fn grid_symbols(buf: Buffer) -> Map<(u16, u16), Seq<char>>;

/// The rectangle of cells the buffer covers, as `(x, y, width, height)`.
pub uninterp spec fn grid_area(buf: Buffer) -> (u16, u16, u16, u16);

/// The style most recently patched onto each cell, keyed by the cell's global
/// `(x, y)` position.  `Cell::set_style` merges a style's set fields into the
/// cell, so this map records which style was handed to the latest patch — the
/// fill or empty color decision — not the cell's accumulated colors.  A patch
/// whose fields are all unset changes the cell's pixels not at all, yet still
/// counts as the cell's latest patch.
pub uninterp spec fn grid_patches(buf: Buffer) -> Map<(u16, u16), Style>;

/// Whether the cell position `(x, y)` lies inside the buffer's area.
pub open spec fn in_grid(buf: Buffer, x: u16, y: u16) -> bool {
    let a = grid_area(buf);
    &&& a.0 <= x < a.0 + a.2
    &&& a.1 <= y < a.1 + a.3
}

/// Relies on `Buffer`'s `IndexMut` and `Cell::set_char`: indexing an in-area
/// position yields its cell, and `set_char` replaces that cell's symbol with
/// the single character `ch`, leaving every other cell alone.
#[verifier::external_body]
pub fn cell_set_char(buf: &mut Buffer, x: u16, y: u16, ch: char)
    requires
        in_grid(*old(buf), x, y),
    ensures
        grid_area(*final(buf)) == grid_area(*old(buf)),
        grid_symbols(*final(buf)) == grid_symbols(*old(buf)).insert((x, y), seq![ch]),
        grid_patches(*final(buf)) == grid_patches(*old(buf)),
{
    buf[(x, y)].set_char(ch);
}

/// Relies on `Buffer`'s `IndexMut` and `Cell::set_style`: `set_style` patches
/// the given style's colors and modifiers into that cell — so it becomes the
/// cell's latest patch — and leaves every cell's symbol alone.
#[verifier::external_body]
pub fn cell_set_style(buf: &mut Buffer, x: u16, y: u16, style: Style)
    requires
        in_grid(*old(buf), x, y),
    ensures
        grid_area(*final(buf)) == grid_area(*old(buf)),
        grid_symbols(*final(buf)) == grid_symbols(*old(buf)),
        grid_patches(*final(buf)) == grid_patches(*old(buf)).insert((x, y), style),
{
    buf[(x, y)].set_style(style);
}

/// The offset above U+2800 of the braille glyph whose dots are the set bits of
/// `code`, where bit `2*row + col` of `code` addresses the dot at that row and
/// column of the cell's 2 x 4 dot grid (row 0 on top).
#[verifier::opaque]
pub open spec fn braille_offset(code: u8) -> int {
    (if code & 0x01 != 0 { 0x01int } else { 0 })
    + (if code & 0x02 != 0 { 0x08int } else { 0 })
    + (if code & 0x04 != 0 { 0x02int } else { 0 })
    + (if code & 0x08 != 0 { 0x10int } else { 0 })
    + (if code & 0x10 != 0 { 0x04int } else { 0 })
    + (if code & 0x20 != 0 { 0x20int } else { 0 })
    + (if code & 0x40 != 0 { 0x40int } else { 0 })
    + (if code & 0x80 != 0 { 0x80int } else { 0 })
}

/// Relies on `symbols::braille::BRAILLE`: the 256-entry table lists, in
/// row-major dot order, the braille glyph for each dot-occupancy code, which
/// is the character `U+2800 + braille_offset(code)`.
#[verifier::external_body]
pub fn braille_glyph(code: u8) -> (ch: char)
    ensures
        ch as u32 == 0x2800 + braille_offset(code),
{
    ratatui_core::symbols::braille::BRAILLE[code as usize]
}

} // verus!
