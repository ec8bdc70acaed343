//! The rasterizer: a single stateless pass from a gauge descriptor and a
//! target region to cell writes on the host buffer.
//!
//! Every cell of the region is scanned dot by dot.  A cell holding at least
//! one ring dot gets the braille glyph of its dot-occupancy code: in the fill
//! style if any of its ring dots is filled, in the empty style otherwise, and
//! no write at all if no empty style is set.  A centered label — explicit or
//! the synthesized percentage — is then overlaid, clipped to the region.
//!
//! The contract of [`CircleGauge::render`] pins, for every cell of the
//! buffer, both its symbol and its latest style patch: label cells show the
//! label's characters (in the label's style, if it has one), ring cells show
//! their glyph (patched with the fill style where a dot is filled, the empty
//! style otherwise), and every other cell — outside the region, outside the
//! ring, or in an unwritten empty ring cell — keeps exactly its old entries.
//! Styles themselves stay opaque: the model records which of the gauge's
//! styles was patched where, never what colors a style holds.

use vstd::prelude::*;
use ratatui_core::buffer::Buffer;
use ratatui_core::style::Style;
use crate::geometry::{dot_in_ring, dot_filled, TURN};
use crate::gauge::{CircleGauge, gauge_valid, default_label_chars};
use crate::host::{
    grid_area,
    grid_symbols,
    grid_patches,
    cell_set_char,
    cell_set_style,
    braille_glyph,
    braille_offset,
};

verus! {

/// A rectangular region of cells, in global cell coordinates.
#[derive(Clone, Copy)]
pub struct Region {
    pub x: u16,
    pub y: u16,
    pub width: u16,
    pub height: u16,
}

/// Whether the cell position `(i, j)` lies inside the region.
pub open spec fn in_region(r: Region, i: int, j: int) -> bool {
    &&& r.x <= i < r.x + r.width
    &&& r.y <= j < r.y + r.height
}

/// The dot-occupancy code of the cell at region-relative column `cx`, row
/// `cy`: bit `2*dy + dx` is set iff the dot at cell-local column `dx`, row
/// `dy` lies in the ring.
#[verifier::opaque]
pub open spec fn cell_code(width: u16, height: u16, stroke: u32, cx: int, cy: int) -> u8 {
    ((if dot_in_ring(width, height, stroke, 2 * cx, 4 * cy) {
        1int
    } else {
        0int
    }) + (if dot_in_ring(width, height, stroke, 2 * cx + 1, 4 * cy) {
        2int
    } else {
        0int
    }) + (if dot_in_ring(width, height, stroke, 2 * cx, 4 * cy + 1) {
        4int
    } else {
        0int
    }) + (if dot_in_ring(width, height, stroke, 2 * cx + 1, 4 * cy + 1) {
        8int
    } else {
        0int
    }) + (if dot_in_ring(width, height, stroke, 2 * cx, 4 * cy + 2) {
        16int
    } else {
        0int
    }) + (if dot_in_ring(width, height, stroke, 2 * cx + 1, 4 * cy + 2) {
        32int
    } else {
        0int
    }) + (if dot_in_ring(width, height, stroke, 2 * cx, 4 * cy + 3) {
        64int
    } else {
        0int
    }) + (if dot_in_ring(width, height, stroke, 2 * cx + 1, 4 * cy + 3) {
        128int
    } else {
        0int
    })) as u8
}

/// Whether any dot of the cell at region-relative `(cx, cy)` is filled.
#[verifier::opaque]
pub open spec fn cell_any_filled(
    width: u16,
    height: u16,
    stroke: u32,
    start: u32,
    ratio: u32,
    cx: int,
    cy: int,
) -> bool {
    ||| dot_filled(width, height, stroke, start, ratio, 2 * cx, 4 * cy)
    ||| dot_filled(width, height, stroke, start, ratio, 2 * cx + 1, 4 * cy)
    ||| dot_filled(width, height, stroke, start, ratio, 2 * cx, 4 * cy + 1)
    ||| dot_filled(width, height, stroke, start, ratio, 2 * cx + 1, 4 * cy + 1)
    ||| dot_filled(width, height, stroke, start, ratio, 2 * cx, 4 * cy + 2)
    ||| dot_filled(width, height, stroke, start, ratio, 2 * cx + 1, 4 * cy + 2)
    ||| dot_filled(width, height, stroke, start, ratio, 2 * cx, 4 * cy + 3)
    ||| dot_filled(width, height, stroke, start, ratio, 2 * cx + 1, 4 * cy + 3)
}

/// Whether the ring pass writes the cell at region-relative `(cx, cy)`: it
/// holds a ring dot, and is either filled or drawn in a set empty style.
pub open spec fn cell_written(g: CircleGauge, width: u16, height: u16, cx: int, cy: int) -> bool {
    &&& cell_code(width, height, g.stroke, cx, cy) != 0
    &&& (cell_any_filled(width, height, g.stroke, g.start_angle, g.ratio, cx, cy)
        || g.empty_style is Some)
}

/// The characters of the label that the render writes: the explicit label's,
/// or the synthesized percentage's.
pub open spec fn label_seq(g: CircleGauge) -> Seq<char> {
    if g.label is Some {
        g.label->Some_0.chars@
    } else {
        default_label_chars(g.ratio)
    }
}

/// The label's display width in cells: the host-measured width of an explicit
/// label, or the character count of the synthesized one.
pub open spec fn label_width(g: CircleGauge) -> int {
    if g.label is Some {
        g.label->Some_0.width as int
    } else {
        default_label_chars(g.ratio).len() as int
    }
}

/// The row the label is written on: the region's middle row, biased toward
/// the lower half on odd heights.
pub open spec fn label_row(r: Region) -> int {
    r.y + (r.height as int) / 2
}

/// The column the label starts at: horizontally centered, clamped so it never
/// starts left of the region.
pub open spec fn label_col(g: CircleGauge, r: Region) -> int {
    if label_width(g) >= r.width {
        r.x as int
    } else {
        r.x + (r.width - label_width(g)) / 2
    }
}

/// How many label cells are written: the label's characters, clipped to the
/// region's width and to the label's own width.
pub open spec fn label_len(g: CircleGauge, r: Region) -> int {
    let w = if label_width(g) <= r.width {
        label_width(g)
    } else {
        r.width as int
    };
    if w <= label_seq(g).len() {
        w
    } else {
        label_seq(g).len() as int
    }
}

/// Whether the label overlay writes the cell at global position `(i, j)`.
pub open spec fn label_covers(g: CircleGauge, r: Region, i: int, j: int) -> bool {
    &&& r.width > 0 && r.height > 0
    &&& j == label_row(r)
    &&& label_col(g, r) <= i < label_col(g, r) + label_len(g, r)
}

/// Whether rendering `g` into region `r` writes the cell at `(i, j)` at all.
pub open spec fn touched(g: CircleGauge, r: Region, i: int, j: int) -> bool {
    &&& r.width > 0 && r.height > 0
    &&& in_region(r, i, j)
    &&& (label_covers(g, r, i, j) || cell_written(g, r.width, r.height, i - r.x, j - r.y))
}

/// The cell map `m2` has exactly the entry of `m1` at `p`: present in one
/// iff present in the other, and then equal.
pub open spec fn entry_kept<V>(
    m2: Map<(u16, u16), V>,
    m1: Map<(u16, u16), V>,
    p: (u16, u16),
) -> bool {
    &&& m2.contains_key(p) == m1.contains_key(p)
    &&& (m1.contains_key(p) ==> m2[p] == m1[p])
}

/// The symbol map shows, at `p`, the braille glyph of that cell's
/// dot-occupancy code.
pub open spec fn shows_glyph(
    m: Map<(u16, u16), Seq<char>>,
    g: CircleGauge,
    r: Region,
    p: (u16, u16),
) -> bool {
    &&& m.contains_key(p)
    &&& m[p].len() == 1
    &&& m[p][0] as u32 == 0x2800 + braille_offset(
        cell_code(r.width, r.height, g.stroke, p.0 - r.x, p.1 - r.y),
    )
}

/// The symbol map shows, at `p`, the label character that falls on `p`.
pub open spec fn shows_label_char(
    m: Map<(u16, u16), Seq<char>>,
    g: CircleGauge,
    r: Region,
    p: (u16, u16),
) -> bool {
    &&& m.contains_key(p)
    &&& m[p] == seq![label_seq(g)[p.0 - label_col(g, r)]]
}

/// The style of the rendered label: the explicit label's, if it has one; the
/// synthesized percentage label carries none.
pub open spec fn label_style(g: CircleGauge) -> Option<Style> {
    if g.label is Some {
        g.label->Some_0.style
    } else {
        None
    }
}

/// The style the ring pass patches onto the cell at `p`, if any: the fill
/// style where one of the cell's dots is filled, the empty style otherwise.
/// A written cell whose style side is `None` gets its glyph with no patch.
pub open spec fn ring_patch(g: CircleGauge, r: Region, p: (u16, u16)) -> Option<Style> {
    if in_region(r, p.0 as int, p.1 as int) && cell_written(
        g,
        r.width,
        r.height,
        p.0 - r.x,
        p.1 - r.y,
    ) {
        if cell_any_filled(r.width, r.height, g.stroke, g.start_angle, g.ratio, p.0 - r.x, p.1
            - r.y) {
            g.fill_style
        } else {
            g.empty_style
        }
    } else {
        None
    }
}

/// The style a render leaves as the latest patch on the cell at `p`, if it
/// patches one at all: the label's own style on label cells that have one,
/// else whatever the ring pass patched.
pub open spec fn style_patch(g: CircleGauge, r: Region, p: (u16, u16)) -> Option<Style> {
    if label_covers(g, r, p.0 as int, p.1 as int) && label_style(g) is Some {
        label_style(g)
    } else {
        ring_patch(g, r, p)
    }
}

/// The style map records `st` as the latest patch at `p`.
pub open spec fn patched_with(m: Map<(u16, u16), Style>, st: Style, p: (u16, u16)) -> bool {
    &&& m.contains_key(p)
    &&& m[p] == st
}

/// Law: a cell's dot-occupancy code is nonzero exactly when one of its eight
/// dots lies in the ring.  Together with the render contract — cells whose
/// code is zero keep their old entry — nothing is ever drawn outside the
/// annulus band.
pub proof fn lemma_code_zero_means_no_ring_dot(
    width: u16,
    height: u16,
    stroke: u32,
    cx: int,
    cy: int,
)
    ensures
        cell_code(width, height, stroke, cx, cy) != 0 <==> (dot_in_ring(
            width,
            height,
            stroke,
            2 * cx,
            4 * cy,
        ) || dot_in_ring(width, height, stroke, 2 * cx + 1, 4 * cy) || dot_in_ring(
            width,
            height,
            stroke,
            2 * cx,
            4 * cy + 1,
        ) || dot_in_ring(width, height, stroke, 2 * cx + 1, 4 * cy + 1) || dot_in_ring(
            width,
            height,
            stroke,
            2 * cx,
            4 * cy + 2,
        ) || dot_in_ring(width, height, stroke, 2 * cx + 1, 4 * cy + 2) || dot_in_ring(
            width,
            height,
            stroke,
            2 * cx,
            4 * cy + 3,
        ) || dot_in_ring(width, height, stroke, 2 * cx + 1, 4 * cy + 3)),
{
    reveal(cell_code);
}

/// Law: a cell with a filled dot holds a ring dot — the filled dots are a
/// subset of the ring dots, so the fill never reaches outside the ring.
pub proof fn lemma_filled_cell_holds_ring_dot(
    width: u16,
    height: u16,
    stroke: u32,
    start: u32,
    ratio: u32,
    cx: int,
    cy: int,
)
    ensures
        cell_any_filled(width, height, stroke, start, ratio, cx, cy) ==> cell_code(
            width,
            height,
            stroke,
            cx,
            cy,
        ) != 0,
{
    reveal(cell_code);
    reveal(cell_any_filled);
}

/// Law: the set of filled cells grows monotonically with the ratio — a cell
/// with a filled dot at a smaller ratio keeps one at any larger ratio, so the
/// cells that receive the fill style never shrink as the ratio grows.
pub proof fn lemma_cell_fill_monotone(
    width: u16,
    height: u16,
    stroke: u32,
    start: u32,
    r1: u32,
    r2: u32,
    cx: int,
    cy: int,
)
    requires
        r1 <= r2,
    ensures
        cell_any_filled(width, height, stroke, start, r1, cx, cy) ==> cell_any_filled(
            width,
            height,
            stroke,
            start,
            r2,
            cx,
            cy,
        ),
{
    reveal(cell_any_filled);
    crate::geometry::lemma_fill_monotone(width, height, stroke, start, r1, r2, 2 * cx, 4 * cy);
    crate::geometry::lemma_fill_monotone(width, height, stroke, start, r1, r2, 2 * cx + 1, 4 * cy);
    crate::geometry::lemma_fill_monotone(width, height, stroke, start, r1, r2, 2 * cx, 4 * cy + 1);
    crate::geometry::lemma_fill_monotone(
        width,
        height,
        stroke,
        start,
        r1,
        r2,
        2 * cx + 1,
        4 * cy + 1,
    );
    crate::geometry::lemma_fill_monotone(width, height, stroke, start, r1, r2, 2 * cx, 4 * cy + 2);
    crate::geometry::lemma_fill_monotone(
        width,
        height,
        stroke,
        start,
        r1,
        r2,
        2 * cx + 1,
        4 * cy + 2,
    );
    crate::geometry::lemma_fill_monotone(width, height, stroke, start, r1, r2, 2 * cx, 4 * cy + 3);
    crate::geometry::lemma_fill_monotone(
        width,
        height,
        stroke,
        start,
        r1,
        r2,
        2 * cx + 1,
        4 * cy + 3,
    );
}

/// Law: at ratio zero a cell counts as filled — and so would receive the
/// fill style — only in the borderline case that one of its ring dots sits
/// exactly on the start ray, its pseudo-angle coinciding with the start
/// angle; every other cell is drawn in the empty style or left alone.
pub proof fn lemma_zero_ratio_cell(
    width: u16,
    height: u16,
    stroke: u32,
    start: u32,
    cx: int,
    cy: int,
)
    ensures
        cell_any_filled(width, height, stroke, start, 0, cx, cy) ==> exists|px: int, py: int|
            dot_in_ring(width, height, stroke, px, py) && crate::geometry::sweep_num(
                start,
                crate::geometry::off_x(width, px),
                crate::geometry::off_y(height, py),
            ) == 0,
{
    reveal(cell_any_filled);
    if cell_any_filled(width, height, stroke, start, 0, cx, cy) {
        crate::geometry::lemma_zero_ratio(width, height, stroke, start, 2 * cx, 4 * cy);
        crate::geometry::lemma_zero_ratio(width, height, stroke, start, 2 * cx + 1, 4 * cy);
        crate::geometry::lemma_zero_ratio(width, height, stroke, start, 2 * cx, 4 * cy + 1);
        crate::geometry::lemma_zero_ratio(width, height, stroke, start, 2 * cx + 1, 4 * cy + 1);
        crate::geometry::lemma_zero_ratio(width, height, stroke, start, 2 * cx, 4 * cy + 2);
        crate::geometry::lemma_zero_ratio(width, height, stroke, start, 2 * cx + 1, 4 * cy + 2);
        crate::geometry::lemma_zero_ratio(width, height, stroke, start, 2 * cx, 4 * cy + 3);
        crate::geometry::lemma_zero_ratio(width, height, stroke, start, 2 * cx + 1, 4 * cy + 3);
    }
}

/// Law: at the full ratio every ring cell is a filled cell, so the ring pass
/// patches the gauge's fill style — and never the empty style — onto every
/// cell that holds a ring dot.
pub proof fn lemma_full_ratio_patches_fill(g: CircleGauge, r: Region, p: (u16, u16))
    requires
        g.ratio == TURN,
        g.start_angle <= TURN,
    ensures
        in_region(r, p.0 as int, p.1 as int) ==> ring_patch(g, r, p) == (if cell_code(
            r.width,
            r.height,
            g.stroke,
            p.0 - r.x,
            p.1 - r.y,
        ) != 0 {
            g.fill_style
        } else {
            None
        }),
{
    lemma_full_ratio_writes_ring_cells(g, r.width, r.height, p.0 - r.x, p.1 - r.y);
}

/// Law: at the full ratio the ring is drawn whole — a cell is written exactly
/// when it holds a ring dot, whether or not an empty style is set, and it is
/// written as filled.
pub proof fn lemma_full_ratio_writes_ring_cells(
    g: CircleGauge,
    width: u16,
    height: u16,
    cx: int,
    cy: int,
)
    requires
        g.ratio == TURN,
        g.start_angle <= TURN,
    ensures
        cell_written(g, width, height, cx, cy) <==> cell_code(width, height, g.stroke, cx, cy)
            != 0,
        cell_code(width, height, g.stroke, cx, cy) != 0 ==> cell_any_filled(
            width,
            height,
            g.stroke,
            g.start_angle,
            g.ratio,
            cx,
            cy,
        ),
{
    reveal(cell_code);
    reveal(cell_any_filled);
    let s = g.stroke;
    if cell_code(width, height, s, cx, cy) != 0 {
        if dot_in_ring(width, height, s, 2 * cx, 4 * cy) {
            crate::geometry::lemma_full_ratio_fills(width, height, s, g.start_angle, 2 * cx, 4 * cy);
        } else if dot_in_ring(width, height, s, 2 * cx + 1, 4 * cy) {
            crate::geometry::lemma_full_ratio_fills(
                width,
                height,
                s,
                g.start_angle,
                2 * cx + 1,
                4 * cy,
            );
        } else if dot_in_ring(width, height, s, 2 * cx, 4 * cy + 1) {
            crate::geometry::lemma_full_ratio_fills(
                width,
                height,
                s,
                g.start_angle,
                2 * cx,
                4 * cy + 1,
            );
        } else if dot_in_ring(width, height, s, 2 * cx + 1, 4 * cy + 1) {
            crate::geometry::lemma_full_ratio_fills(
                width,
                height,
                s,
                g.start_angle,
                2 * cx + 1,
                4 * cy + 1,
            );
        } else if dot_in_ring(width, height, s, 2 * cx, 4 * cy + 2) {
            crate::geometry::lemma_full_ratio_fills(
                width,
                height,
                s,
                g.start_angle,
                2 * cx,
                4 * cy + 2,
            );
        } else if dot_in_ring(width, height, s, 2 * cx + 1, 4 * cy + 2) {
            crate::geometry::lemma_full_ratio_fills(
                width,
                height,
                s,
                g.start_angle,
                2 * cx + 1,
                4 * cy + 2,
            );
        } else if dot_in_ring(width, height, s, 2 * cx, 4 * cy + 3) {
            crate::geometry::lemma_full_ratio_fills(
                width,
                height,
                s,
                g.start_angle,
                2 * cx,
                4 * cy + 3,
            );
        } else {
            assert(dot_in_ring(width, height, s, 2 * cx + 1, 4 * cy + 3));
            crate::geometry::lemma_full_ratio_fills(
                width,
                height,
                s,
                g.start_angle,
                2 * cx + 1,
                4 * cy + 3,
            );
        }
    }
}

/// Scans the 8 dots of one cell: returns the cell's dot-occupancy code and
/// whether any of its dots is filled.
pub fn scan_cell(width: u16, height: u16, stroke: u32, start: u32, ratio: u32, cx: u16, cy: u16)
    -> (r: (u8, bool))
    requires
        cx < width,
        cy < height,
        start <= TURN,
        ratio <= TURN,
    ensures
        r.0 == cell_code(width, height, stroke, cx as int, cy as int),
        r.1 == cell_any_filled(width, height, stroke, start, ratio, cx as int, cy as int),
{
    let px: u32 = 2 * (cx as u32);
    let py: u32 = 4 * (cy as u32);
    let (r00, f00) = crate::geometry::dot_state(width, height, stroke, start, ratio, px, py);
    let (r10, f10) = crate::geometry::dot_state(width, height, stroke, start, ratio, px + 1, py);
    let (r01, f01) = crate::geometry::dot_state(width, height, stroke, start, ratio, px, py + 1);
    let (r11, f11) = crate::geometry::dot_state(
        width,
        height,
        stroke,
        start,
        ratio,
        px + 1,
        py + 1,
    );
    let (r02, f02) = crate::geometry::dot_state(width, height, stroke, start, ratio, px, py + 2);
    let (r12, f12) = crate::geometry::dot_state(
        width,
        height,
        stroke,
        start,
        ratio,
        px + 1,
        py + 2,
    );
    let (r03, f03) = crate::geometry::dot_state(width, height, stroke, start, ratio, px, py + 3);
    let (r13, f13) = crate::geometry::dot_state(
        width,
        height,
        stroke,
        start,
        ratio,
        px + 1,
        py + 3,
    );
    let code: u8 = (if r00 {
        1u8
    } else {
        0u8
    }) + (if r10 {
        2u8
    } else {
        0u8
    }) + (if r01 {
        4u8
    } else {
        0u8
    }) + (if r11 {
        8u8
    } else {
        0u8
    }) + (if r02 {
        16u8
    } else {
        0u8
    }) + (if r12 {
        32u8
    } else {
        0u8
    }) + (if r03 {
        64u8
    } else {
        0u8
    }) + (if r13 {
        128u8
    } else {
        0u8
    });
    let fill: bool = f00 || f10 || f01 || f11 || f02 || f12 || f03 || f13;
    proof {
        reveal(cell_code);
        reveal(cell_any_filled);
    }
    (code, fill)
}

/// Which cells the ring pass has handled when the scan stands at row `cy`,
/// column `cx` of the region (row-major order).
spec fn scanned(r: Region, i: int, j: int, cy: int, cx: int) -> bool {
    in_region(r, i, j) && ((j - r.y) < cy || ((j - r.y) == cy && (i - r.x) < cx))
}

impl CircleGauge {
    /// Renders the gauge into the given region of the buffer.
    ///
    /// Afterwards every cell of the buffer shows: the label's character, on
    /// the label cells; the braille glyph of its dot-occupancy code, on ring
    /// cells the pass writes; and exactly its old entry everywhere else —
    /// outside the region, where no dot is in the ring, or in an empty ring
    /// cell when no empty style is set.  Each cell's latest style patch is
    /// pinned the same way: the label's own style on its cells, else the fill
    /// style where a dot is filled and the empty style where none is, and no
    /// patch anywhere else.  A zero-sized region writes nothing.
    #[verifier::rlimit(100)]
    pub fn render(self, region: Region, buf: &mut Buffer)
        requires
            gauge_valid(self),
            ({
                let a = grid_area(*old(buf));
                a.0 <= region.x && region.x + region.width <= a.0 + a.2 && a.1 <= region.y
                    && region.y + region.height <= a.1 + a.3
            }),
            region.x + region.width <= 65536,
            region.y + region.height <= 65536,
        ensures
            grid_area(*final(buf)) == grid_area(*old(buf)),
            forall|p: (u16, u16)|
                !touched(self, region, p.0 as int, p.1 as int) ==> #[trigger] entry_kept(
                    grid_symbols(*final(buf)),
                    grid_symbols(*old(buf)),
                    p,
                ),
            forall|p: (u16, u16)|
                label_covers(self, region, p.0 as int, p.1 as int) ==> #[trigger] shows_label_char(
                    grid_symbols(*final(buf)),
                    self,
                    region,
                    p,
                ),
            forall|p: (u16, u16)|
                (in_region(region, p.0 as int, p.1 as int) && !label_covers(
                    self,
                    region,
                    p.0 as int,
                    p.1 as int,
                ) && cell_written(
                    self,
                    region.width,
                    region.height,
                    p.0 - region.x,
                    p.1 - region.y,
                )) ==> #[trigger] shows_glyph(grid_symbols(*final(buf)), self, region, p),
            forall|p: (u16, u16)|
                style_patch(self, region, p) is Some ==> #[trigger] patched_with(
                    grid_patches(*final(buf)),
                    style_patch(self, region, p)->Some_0,
                    p,
                ),
            forall|p: (u16, u16)|
                style_patch(self, region, p) is None ==> #[trigger] entry_kept(
                    grid_patches(*final(buf)),
                    grid_patches(*old(buf)),
                    p,
                ),
    {
        if region.width == 0 || region.height == 0 {
            return ;
        }
        let ghost g = self;
        let ghost m0 = grid_symbols(*buf);
        let ghost m0p = grid_patches(*buf);

        // Ring pass: scan every cell of the region, row-major.
        let mut cy: u16 = 0;
        while cy < region.height
            invariant
                cy <= region.height,
                region.width > 0,
                region.height > 0,
                g == self,
                gauge_valid(g),
                grid_area(*buf) == grid_area(*old(buf)),
                m0 == grid_symbols(*old(buf)),
                ({
                    let a = grid_area(*old(buf));
                    a.0 <= region.x && region.x + region.width <= a.0 + a.2 && a.1 <= region.y
                        && region.y + region.height <= a.1 + a.3
                }),
                region.x + region.width <= 65536,
                region.y + region.height <= 65536,
                forall|p: (u16, u16)|
                    (scanned(region, p.0 as int, p.1 as int, cy as int, 0) && cell_written(
                        g,
                        region.width,
                        region.height,
                        p.0 - region.x,
                        p.1 - region.y,
                    )) ==> ((#[trigger] grid_symbols(*buf).contains_key(p)) && grid_symbols(
                        *buf,
                    )[p].len() == 1 && grid_symbols(*buf)[p][0] as u32 == 0x2800 + braille_offset(
                        cell_code(region.width, region.height, g.stroke, p.0 - region.x, p.1
                            - region.y),
                    )),
                forall|p: (u16, u16)|
                    !(scanned(region, p.0 as int, p.1 as int, cy as int, 0) && cell_written(
                        g,
                        region.width,
                        region.height,
                        p.0 - region.x,
                        p.1 - region.y,
                    )) ==> ((#[trigger] grid_symbols(*buf).contains_key(p)) == m0.contains_key(p)
                        && (m0.contains_key(p) ==> grid_symbols(*buf)[p] == m0[p])),
                forall|p: (u16, u16)|
                    (scanned(region, p.0 as int, p.1 as int, cy as int, 0) && ring_patch(
                        g,
                        region,
                        p,
                    ) is Some) ==> #[trigger] patched_with(
                        grid_patches(*buf),
                        ring_patch(g, region, p)->Some_0,
                        p,
                    ),
                forall|p: (u16, u16)|
                    !(scanned(region, p.0 as int, p.1 as int, cy as int, 0) && ring_patch(
                        g,
                        region,
                        p,
                    ) is Some) ==> #[trigger] entry_kept(grid_patches(*buf), m0p, p),
            decreases region.height - cy,
        {
            let mut cx: u16 = 0;
            while cx < region.width
                invariant
                    cx <= region.width,
                    cy < region.height,
                    region.width > 0,
                    region.height > 0,
                    g == self,
                    gauge_valid(g),
                    grid_area(*buf) == grid_area(*old(buf)),
                    m0 == grid_symbols(*old(buf)),
                    ({
                        let a = grid_area(*old(buf));
                        a.0 <= region.x && region.x + region.width <= a.0 + a.2 && a.1 <= region.y
                            && region.y + region.height <= a.1 + a.3
                    }),
                    region.x + region.width <= 65536,
                    region.y + region.height <= 65536,
                    forall|p: (u16, u16)|
                        (scanned(region, p.0 as int, p.1 as int, cy as int, cx as int)
                            && cell_written(
                            g,
                            region.width,
                            region.height,
                            p.0 - region.x,
                            p.1 - region.y,
                        )) ==> ((#[trigger] grid_symbols(*buf).contains_key(p)) && grid_symbols(
                            *buf,
                        )[p].len() == 1 && grid_symbols(*buf)[p][0] as u32 == 0x2800
                            + braille_offset(
                            cell_code(region.width, region.height, g.stroke, p.0 - region.x, p.1
                                - region.y),
                        )),
                    forall|p: (u16, u16)|
                        !(scanned(region, p.0 as int, p.1 as int, cy as int, cx as int)
                            && cell_written(
                            g,
                            region.width,
                            region.height,
                            p.0 - region.x,
                            p.1 - region.y,
                        )) ==> ((#[trigger] grid_symbols(*buf).contains_key(p)) == m0.contains_key(
                            p,
                        ) && (m0.contains_key(p) ==> grid_symbols(*buf)[p] == m0[p])),
                    forall|p: (u16, u16)|
                        (scanned(region, p.0 as int, p.1 as int, cy as int, cx as int)
                            && ring_patch(g, region, p) is Some) ==> #[trigger] patched_with(
                            grid_patches(*buf),
                            ring_patch(g, region, p)->Some_0,
                            p,
                        ),
                    forall|p: (u16, u16)|
                        !(scanned(region, p.0 as int, p.1 as int, cy as int, cx as int)
                            && ring_patch(g, region, p) is Some) ==> #[trigger] entry_kept(
                            grid_patches(*buf),
                            m0p,
                            p,
                        ),
                decreases region.width - cx,
            {
                let (code, fill) = scan_cell(
                    region.width,
                    region.height,
                    self.stroke,
                    self.start_angle,
                    self.ratio,
                    cx,
                    cy,
                );
                let gx: u16 = region.x + cx;
                let gy: u16 = region.y + cy;
                let ghost mb = grid_symbols(*buf);
                let ghost mbp = grid_patches(*buf);
                // Restate the loop invariant over the snapshots `mb` and
                // `mbp`, so that after the writes below the step proof can
                // still appeal to the pre-write state of the scanned cells.
                proof {
                    assert forall|p: (u16, u16)|
                        (scanned(region, p.0 as int, p.1 as int, cy as int, cx as int)
                            && cell_written(
                            g,
                            region.width,
                            region.height,
                            p.0 - region.x,
                            p.1 - region.y,
                        )) implies ((#[trigger] mb.contains_key(p)) && mb[p].len() == 1
                        && mb[p][0] as u32 == 0x2800 + braille_offset(
                        cell_code(region.width, region.height, g.stroke, p.0 - region.x, p.1
                            - region.y),
                    )) by {
                        assert(grid_symbols(*buf).contains_key(p) && grid_symbols(*buf)[p].len()
                            == 1 && grid_symbols(*buf)[p][0] as u32 == 0x2800 + braille_offset(
                            cell_code(region.width, region.height, g.stroke, p.0 - region.x, p.1
                                - region.y),
                        ));
                    }
                    assert forall|p: (u16, u16)|
                        !(scanned(region, p.0 as int, p.1 as int, cy as int, cx as int)
                            && cell_written(
                            g,
                            region.width,
                            region.height,
                            p.0 - region.x,
                            p.1 - region.y,
                        )) implies ((#[trigger] mb.contains_key(p)) == m0.contains_key(p) && (
                        m0.contains_key(p) ==> mb[p] == m0[p])) by {
                        assert((grid_symbols(*buf).contains_key(p)) == m0.contains_key(p) && (
                        m0.contains_key(p) ==> grid_symbols(*buf)[p] == m0[p]));
                    }
                    assert forall|p: (u16, u16)|
                        (scanned(region, p.0 as int, p.1 as int, cy as int, cx as int)
                            && ring_patch(g, region, p) is Some) implies #[trigger] patched_with(
                        mbp,
                        ring_patch(g, region, p)->Some_0,
                        p,
                    ) by {
                        assert(patched_with(grid_patches(*buf), ring_patch(g, region, p)->Some_0,
                                p));
                    }
                    assert forall|p: (u16, u16)|
                        !(scanned(region, p.0 as int, p.1 as int, cy as int, cx as int)
                            && ring_patch(g, region, p) is Some) implies #[trigger] entry_kept(
                        mbp,
                        m0p,
                        p,
                    ) by {
                        assert(entry_kept(grid_patches(*buf), m0p, p));
                    }
                }
                let wrote: bool = code != 0 && (fill || self.empty_style.is_some());
                let patch: Option<Style> = if !wrote {
                    None
                } else if fill {
                    self.fill_style
                } else {
                    self.empty_style
                };
                let ch: char = braille_glyph(code);
                if wrote {
                    cell_set_char(buf, gx, gy, ch);
                    match patch {
                        Some(st) => {
                            cell_set_style(buf, gx, gy, st);
                        },
                        None => {},
                    }
                }
                proof {
                    let q = (gx, gy);
                    assert(wrote == cell_written(g, region.width, region.height, cx as int,
                            cy as int));
                    assert(patch == ring_patch(g, region, q));
                    if wrote {
                        assert(grid_symbols(*buf) == mb.insert(q, seq![ch]));
                    } else {
                        assert(grid_symbols(*buf) == mb);
                    }
                    if patch is Some {
                        assert(grid_patches(*buf) == mbp.insert(q, patch->Some_0));
                    } else {
                        assert(grid_patches(*buf) == mbp);
                    }
                    assert forall|p: (u16, u16)|
                        (scanned(region, p.0 as int, p.1 as int, cy as int, cx as int + 1)
                            && cell_written(
                            g,
                            region.width,
                            region.height,
                            p.0 - region.x,
                            p.1 - region.y,
                        )) implies ((#[trigger] grid_symbols(*buf).contains_key(p))
                        && grid_symbols(*buf)[p].len() == 1 && grid_symbols(*buf)[p][0] as u32
                        == 0x2800 + braille_offset(
                        cell_code(region.width, region.height, g.stroke, p.0 - region.x, p.1
                            - region.y),
                    )) by {
                        if p == q {
                            assert(p.0 - region.x == cx as int && p.1 - region.y == cy as int);
                            assert(wrote);
                            assert(grid_symbols(*buf)[p] == seq![ch]);
                        } else {
                            assert(scanned(region, p.0 as int, p.1 as int, cy as int, cx as int));
                            assert(mb.contains_key(p));
                            assert(mb[p].len() == 1);
                            assert(mb[p][0] as u32 == 0x2800 + braille_offset(
                                cell_code(region.width, region.height, g.stroke, p.0 - region.x, p.1
                                    - region.y),
                            ));
                            assert(grid_symbols(*buf).contains_key(p) && grid_symbols(*buf)[p]
                                == mb[p]);
                        }
                    }
                    assert forall|p: (u16, u16)|
                        !(scanned(region, p.0 as int, p.1 as int, cy as int, cx as int + 1)
                            && cell_written(
                            g,
                            region.width,
                            region.height,
                            p.0 - region.x,
                            p.1 - region.y,
                        )) implies ((#[trigger] grid_symbols(*buf).contains_key(p))
                        == m0.contains_key(p) && (m0.contains_key(p) ==> grid_symbols(*buf)[p]
                        == m0[p])) by {
                        if p == q {
                            assert(scanned(region, p.0 as int, p.1 as int, cy as int, cx as int
                                    + 1));
                            assert(!wrote);
                        } else {
                            assert(!(scanned(region, p.0 as int, p.1 as int, cy as int, cx as int)
                                && cell_written(
                                g,
                                region.width,
                                region.height,
                                p.0 - region.x,
                                p.1 - region.y,
                            )));
                            assert((mb.contains_key(p)) == m0.contains_key(p));
                            assert(m0.contains_key(p) ==> mb[p] == m0[p]);
                            assert((grid_symbols(*buf).contains_key(p)) == mb.contains_key(p) && (
                            mb.contains_key(p) ==> grid_symbols(*buf)[p] == mb[p]));
                        }
                    }
                    assert forall|p: (u16, u16)|
                        (scanned(region, p.0 as int, p.1 as int, cy as int, cx as int + 1)
                            && ring_patch(g, region, p) is Some) implies #[trigger] patched_with(
                        grid_patches(*buf),
                        ring_patch(g, region, p)->Some_0,
                        p,
                    ) by {
                        if p == q {
                            assert(patch is Some);
                            assert(grid_patches(*buf).contains_key(p));
                            assert(grid_patches(*buf)[p] == patch->Some_0);
                        } else {
                            assert(scanned(region, p.0 as int, p.1 as int, cy as int, cx as int));
                            assert(patched_with(mbp, ring_patch(g, region, p)->Some_0, p));
                            assert(grid_patches(*buf).contains_key(p));
                            assert(grid_patches(*buf)[p] == mbp[p]);
                        }
                    }
                    assert forall|p: (u16, u16)|
                        !(scanned(region, p.0 as int, p.1 as int, cy as int, cx as int + 1)
                            && ring_patch(g, region, p) is Some) implies #[trigger] entry_kept(
                        grid_patches(*buf),
                        m0p,
                        p,
                    ) by {
                        if p == q {
                            assert(scanned(region, p.0 as int, p.1 as int, cy as int, cx as int
                                    + 1));
                            assert(patch is None);
                            assert(grid_patches(*buf) == mbp);
                            assert(entry_kept(mbp, m0p, p));
                        } else {
                            assert(!(scanned(region, p.0 as int, p.1 as int, cy as int, cx as int)
                                && ring_patch(g, region, p) is Some));
                            assert(entry_kept(mbp, m0p, p));
                            assert((grid_patches(*buf).contains_key(p)) == mbp.contains_key(p));
                            assert(mbp.contains_key(p) ==> grid_patches(*buf)[p] == mbp[p]);
                        }
                    }
                }
                cx = cx + 1;
            }
            proof {
                assert forall|p: (u16, u16)|
                    scanned(region, p.0 as int, p.1 as int, cy as int, region.width as int)
                        == scanned(region, p.0 as int, p.1 as int, cy as int + 1, 0) by {}
            }
            cy = cy + 1;
        }
        proof {
            assert forall|p: (u16, u16)|
                scanned(region, p.0 as int, p.1 as int, region.height as int, 0) == in_region(
                    region,
                    p.0 as int,
                    p.1 as int,
                ) by {}
        }
        let ghost m1 = grid_symbols(*buf);
        let ghost m1p = grid_patches(*buf);

        // Label overlay: the explicit label, or the synthesized percentage.
        let (chars, lwidth, lstyle): (Vec<char>, u16, Option<Style>) = match self.label {
            Some(lab) => (lab.chars, lab.width, lab.style),
            None => {
                let c: Vec<char> = crate::gauge::make_default_label(self.ratio);
                let w: u16 = c.len() as u16;
                (c, w, None)
            },
        };
        assert(chars@ == label_seq(g) && lwidth as int == label_width(g));
        assert(lstyle == label_style(g));
        let maxw: u16 = if lwidth <= region.width {
            lwidth
        } else {
            region.width
        };
        let count: usize = if (maxw as usize) <= chars.len() {
            maxw as usize
        } else {
            chars.len()
        };
        let off: u16 = if lwidth >= region.width {
            0
        } else {
            (region.width - lwidth) / 2
        };
        let lx: u16 = region.x + off;
        let ly: u16 = region.y + region.height / 2;
        proof {
            if lwidth < region.width {
                let d = (region.width - lwidth) as int;
                assert(0 <= d / 2 && d / 2 <= d) by (nonlinear_arith)
                    requires
                        d >= 0,
                ;
            }
            assert((region.height as int) / 2 < region.height as int) by (nonlinear_arith)
                requires
                    region.height >= 1,
            ;
        }
        assert(lx as int == label_col(g, region));
        assert(ly as int == label_row(region));
        assert(count as int == label_len(g, region));
        assert(lx as int + count <= region.x + region.width);
        assert(region.y <= ly < region.y + region.height);
        let mut k: usize = 0;
        while k < count
            invariant
                k <= count,
                count <= chars.len(),
                grid_area(*buf) == grid_area(*old(buf)),
                ({
                    let a = grid_area(*old(buf));
                    a.0 <= region.x && region.x + region.width <= a.0 + a.2 && a.1 <= region.y
                        && region.y + region.height <= a.1 + a.3
                }),
                region.x + region.width <= 65536,
                lx as int + count <= region.x + region.width,
                region.x <= lx,
                region.y <= ly < region.y + region.height,
                forall|p: (u16, u16)|
                    (p.1 == ly && lx <= p.0 < lx as int + k) ==> ((#[trigger] grid_symbols(
                        *buf,
                    ).contains_key(p)) && grid_symbols(*buf)[p] == seq![chars@[p.0 - lx]]),
                forall|p: (u16, u16)|
                    !(p.1 == ly && lx <= p.0 < lx as int + k) ==> ((#[trigger] grid_symbols(
                        *buf,
                    ).contains_key(p)) == m1.contains_key(p) && (m1.contains_key(p)
                        ==> grid_symbols(*buf)[p] == m1[p])),
                forall|p: (u16, u16)|
                    (lstyle is Some && p.1 == ly && lx <= p.0 < lx as int + k)
                        ==> #[trigger] patched_with(grid_patches(*buf), lstyle->Some_0, p),
                forall|p: (u16, u16)|
                    !(lstyle is Some && p.1 == ly && lx <= p.0 < lx as int + k)
                        ==> #[trigger] entry_kept(grid_patches(*buf), m1p, p),
            decreases count - k,
        {
            let ch: char = chars[k];
            let gx: u16 = lx + (k as u16);
            let ghost mb = grid_symbols(*buf);
            let ghost mbp = grid_patches(*buf);
            cell_set_char(buf, gx, ly, ch);
            match lstyle {
                Some(st) => {
                    cell_set_style(buf, gx, ly, st);
                },
                None => {},
            }
            proof {
                let q = (gx, ly);
                assert(grid_symbols(*buf) == mb.insert(q, seq![ch]));
                if lstyle is Some {
                    assert(grid_patches(*buf) == mbp.insert(q, lstyle->Some_0));
                } else {
                    assert(grid_patches(*buf) == mbp);
                }
                assert forall|p: (u16, u16)|
                    (p.1 == ly && lx <= p.0 < lx as int + (k as int + 1)) implies ((
                    #[trigger] grid_symbols(*buf).contains_key(p)) && grid_symbols(*buf)[p]
                        == seq![chars@[p.0 - lx]]) by {
                    if p == q {
                        assert(p.0 - lx == k as int);
                        assert(grid_symbols(*buf)[p] == seq![ch]);
                    } else {
                        assert(p.1 == ly && lx <= p.0 < lx as int + k);
                    }
                }
                assert forall|p: (u16, u16)|
                    !(p.1 == ly && lx <= p.0 < lx as int + (k as int + 1)) implies ((
                    #[trigger] grid_symbols(*buf).contains_key(p)) == m1.contains_key(p) && (
                    m1.contains_key(p) ==> grid_symbols(*buf)[p] == m1[p])) by {
                    assert(p != q);
                    assert(!(p.1 == ly && lx <= p.0 < lx as int + k));
                }
                assert forall|p: (u16, u16)|
                    (lstyle is Some && p.1 == ly && lx <= p.0 < lx as int + (k as int + 1))
                    implies #[trigger] patched_with(grid_patches(*buf), lstyle->Some_0, p) by {
                    if p == q {
                        assert(grid_patches(*buf).contains_key(p));
                        assert(grid_patches(*buf)[p] == lstyle->Some_0);
                    } else {
                        assert(lstyle is Some && p.1 == ly && lx <= p.0 < lx as int + k);
                        assert(patched_with(mbp, lstyle->Some_0, p));
                        assert(grid_patches(*buf).contains_key(p));
                        assert(grid_patches(*buf)[p] == mbp[p]);
                    }
                }
                assert forall|p: (u16, u16)|
                    !(lstyle is Some && p.1 == ly && lx <= p.0 < lx as int + (k as int + 1))
                    implies #[trigger] entry_kept(grid_patches(*buf), m1p, p) by {
                    if lstyle is Some {
                        assert(p != q);
                        assert(!(lstyle is Some && p.1 == ly && lx <= p.0 < lx as int + k));
                        assert(entry_kept(mbp, m1p, p));
                        assert((grid_patches(*buf).contains_key(p)) == mbp.contains_key(p));
                        assert(mbp.contains_key(p) ==> grid_patches(*buf)[p] == mbp[p]);
                    } else {
                        assert(grid_patches(*buf) == mbp);
                        assert(entry_kept(mbp, m1p, p));
                    }
                }
            }
            k = k + 1;
        }
        proof {
            assert forall|p: (u16, u16)|
                label_covers(g, region, p.0 as int, p.1 as int) == (p.1 == ly && lx <= p.0
                    < lx as int + count) by {}
            assert forall|p: (u16, u16)|
                !touched(self, region, p.0 as int, p.1 as int) implies #[trigger] entry_kept(
                    grid_symbols(*buf),
                    m0,
                    p,
                ) by {
                assert(!touched(g, region, p.0 as int, p.1 as int));
                assert(!(p.1 == ly && lx <= p.0 < lx as int + count));
                assert((grid_symbols(*buf).contains_key(p)) == m1.contains_key(p));
                assert(m1.contains_key(p) ==> grid_symbols(*buf)[p] == m1[p]);
                assert(!(scanned(region, p.0 as int, p.1 as int, region.height as int, 0)
                    && cell_written(
                    g,
                    region.width,
                    region.height,
                    p.0 - region.x,
                    p.1 - region.y,
                )));
                assert((m1.contains_key(p)) == m0.contains_key(p));
                assert(m0.contains_key(p) ==> m1[p] == m0[p]);
            }
            assert forall|p: (u16, u16)|
                label_covers(self, region, p.0 as int, p.1 as int) implies #[trigger] shows_label_char(
                    grid_symbols(*buf),
                    self,
                    region,
                    p,
                ) by {
                assert(label_covers(g, region, p.0 as int, p.1 as int));
                assert(p.1 == ly && lx <= p.0 < lx as int + count);
                assert(grid_symbols(*buf).contains_key(p));
                assert(grid_symbols(*buf)[p] == seq![chars@[p.0 - lx]]);
                assert(chars@[p.0 - lx] == label_seq(self)[p.0 - label_col(self, region)]);
            }
            assert forall|p: (u16, u16)|
                (in_region(region, p.0 as int, p.1 as int) && !label_covers(
                    self,
                    region,
                    p.0 as int,
                    p.1 as int,
                ) && cell_written(
                    self,
                    region.width,
                    region.height,
                    p.0 - region.x,
                    p.1 - region.y,
                )) implies #[trigger] shows_glyph(grid_symbols(*buf), self, region, p) by {
                assert(label_covers(g, region, p.0 as int, p.1 as int) == label_covers(
                    self,
                    region,
                    p.0 as int,
                    p.1 as int,
                ));
                assert(!(p.1 == ly && lx <= p.0 < lx as int + count));
                assert((grid_symbols(*buf).contains_key(p)) == m1.contains_key(p));
                assert(m1.contains_key(p) ==> grid_symbols(*buf)[p] == m1[p]);
                assert(scanned(region, p.0 as int, p.1 as int, region.height as int, 0));
                assert(m1.contains_key(p));
                assert(m1[p].len() == 1);
                assert(m1[p][0] as u32 == 0x2800 + braille_offset(
                    cell_code(region.width, region.height, g.stroke, p.0 - region.x, p.1
                        - region.y),
                ));
            }
            assert forall|p: (u16, u16)|
                style_patch(self, region, p) is Some implies #[trigger] patched_with(
                grid_patches(*buf),
                style_patch(self, region, p)->Some_0,
                p,
            ) by {
                assert(style_patch(g, region, p) == style_patch(self, region, p));
                if label_covers(g, region, p.0 as int, p.1 as int) && label_style(g) is Some {
                    assert(lstyle is Some && p.1 == ly && lx <= p.0 < lx as int + count);
                    assert(patched_with(grid_patches(*buf), lstyle->Some_0, p));
                } else {
                    assert(ring_patch(g, region, p) is Some);
                    assert(in_region(region, p.0 as int, p.1 as int));
                    assert(scanned(region, p.0 as int, p.1 as int, region.height as int, 0));
                    assert(patched_with(m1p, ring_patch(g, region, p)->Some_0, p));
                    assert(!(lstyle is Some && p.1 == ly && lx <= p.0 < lx as int + count));
                    assert(entry_kept(grid_patches(*buf), m1p, p));
                    assert(grid_patches(*buf).contains_key(p));
                    assert(grid_patches(*buf)[p] == m1p[p]);
                }
            }
            assert forall|p: (u16, u16)|
                style_patch(self, region, p) is None implies #[trigger] entry_kept(
                grid_patches(*buf),
                m0p,
                p,
            ) by {
                assert(style_patch(g, region, p) == style_patch(self, region, p));
                assert(!(lstyle is Some && p.1 == ly && lx <= p.0 < lx as int + count));
                assert(entry_kept(grid_patches(*buf), m1p, p));
                assert(ring_patch(g, region, p) is None);
                assert(!(scanned(region, p.0 as int, p.1 as int, region.height as int, 0)
                    && ring_patch(g, region, p) is Some));
                assert(entry_kept(m1p, m0p, p));
            }
        }
    }
}

} // verus!
