use circle_gauge::gauge::{CircleGauge, GaugeLabel};
use circle_gauge::render::Region;
use circle_gauge::TURN;
use ratatui_core::buffer::Buffer;
use ratatui_core::layout::Rect;
use ratatui_core::style::{Color, Style};
use ratatui_core::symbols::braille::BRAILLE;

fn region(x: u16, y: u16, width: u16, height: u16) -> Region {
    Region {
        x,
        y,
        width,
        height,
    }
}

fn buffer(width: u16, height: u16) -> Buffer {
    Buffer::empty(Rect::new(0, 0, width, height))
}

fn symbol(buf: &Buffer, x: u16, y: u16) -> String {
    buf.cell((x, y)).unwrap().symbol().to_string()
}

fn fg(buf: &Buffer, x: u16, y: u16) -> Color {
    buf.cell((x, y)).unwrap().fg
}

/// The dot-occupancy code the rasterizer assigns to a cell, recomputed
/// directly from the annulus test in half-dot units.
fn expected_code(width: u16, height: u16, stroke: i64, cx: u16, cy: u16) -> u8 {
    let pw = 2 * width as i64;
    let ph = 4 * height as i64;
    let r = pw.min(ph);
    let s = stroke.clamp(0, r);
    let mut code = 0u8;
    for dy in 0..4u16 {
        for dx in 0..2u16 {
            let fx = 2 * (2 * cx + dx) as i64 + 1 - pw;
            let fy = ph - (2 * (4 * cy + dy) as i64 + 1);
            let d2 = fx * fx + fy * fy;
            if d2 <= r * r && d2 >= (r - s) * (r - s) {
                code |= 1 << (dy * 2 + dx);
            }
        }
    }
    code
}

fn empty_label() -> GaugeLabel {
    GaugeLabel {
        chars: vec![],
        width: 0,
        style: None,
    }
}

#[test]
fn default_gauge_fields() {
    let g = CircleGauge::default();
    assert_eq!(g.ratio, 0);
    assert_eq!(g.start_angle, TURN / 4);
    assert_eq!(g.stroke, 4);
    assert!(g.fill_style.is_none());
    assert!(g.empty_style.is_none());
    assert!(g.label.is_none());
}

#[test]
fn unset_fill_style_leaves_cell_styles_alone() {
    // the glyphs are written, but with no fill style the cells' styles stay
    // exactly as they were
    let mut buf = buffer(6, 3);
    CircleGauge::default()
        .ratio(TURN)
        .label(empty_label())
        .render(region(0, 0, 6, 3), &mut buf);
    let mut glyphs = 0;
    for cy in 0..3u16 {
        for cx in 0..6u16 {
            assert_eq!(fg(&buf, cx, cy), Color::Reset);
            if symbol(&buf, cx, cy) != " " {
                glyphs += 1;
            }
        }
    }
    assert!(glyphs > 0);
}

#[test]
fn setters_accept_range_endpoints() {
    assert_eq!(CircleGauge::default().ratio(0).ratio, 0);
    assert_eq!(CircleGauge::default().ratio(TURN).ratio, TURN);
    assert_eq!(CircleGauge::default().percent(0).ratio, 0);
    assert_eq!(CircleGauge::default().percent(100).ratio, TURN);
    assert_eq!(CircleGauge::default().angle(0).ratio, 0);
    assert_eq!(CircleGauge::default().angle(TURN).ratio, TURN);
    assert_eq!(CircleGauge::default().start_angle(0).start_angle, 0);
    assert_eq!(CircleGauge::default().start_angle(TURN).start_angle, TURN);
}

#[test]
fn percent_equals_ratio_of_hundredth() {
    for p in 0..=100u16 {
        let via_percent = CircleGauge::default().percent(p);
        let via_ratio = CircleGauge::default().ratio(p as u32 * (TURN / 100));
        assert_eq!(via_percent.ratio, via_ratio.ratio);
        // the stored fixed-point fraction is exactly p/100 of a revolution
        assert_eq!(via_percent.ratio as u64 * 100, p as u64 * TURN as u64);
    }
}

#[test]
fn angle_equals_ratio_of_turn_fraction() {
    for a in [0u32, 1, 123_456, TURN / 2, TURN] {
        let via_angle = CircleGauge::default().angle(a);
        let via_ratio = CircleGauge::default().ratio(a);
        assert_eq!(via_angle.ratio, via_ratio.ratio);
    }
}

#[test]
fn zero_size_region_is_a_no_op() {
    let fresh = buffer(10, 10);
    let mut buf = buffer(10, 10);
    CircleGauge::default()
        .ratio(TURN)
        .empty_style(Style::new().fg(Color::Blue))
        .render(region(2, 2, 0, 5), &mut buf);
    assert_eq!(buf, fresh);
    CircleGauge::default()
        .ratio(TURN)
        .empty_style(Style::new().fg(Color::Blue))
        .render(region(2, 2, 5, 0), &mut buf);
    assert_eq!(buf, fresh);
}

#[test]
fn default_label_is_centered_percentage() {
    let mut buf = buffer(10, 3);
    CircleGauge::default()
        .ratio(TURN / 2)
        .render(region(0, 0, 10, 3), &mut buf);
    // "50%" centered in 10 columns starts at (10 - 3) / 2 = 3, on row 3 / 2 = 1
    assert_eq!(symbol(&buf, 3, 1), "5");
    assert_eq!(symbol(&buf, 4, 1), "0");
    assert_eq!(symbol(&buf, 5, 1), "%");
}

#[test]
fn default_label_rounds_half_up() {
    // 50.5% rounds away from zero to 51%
    let mut buf = buffer(3, 1);
    CircleGauge::default()
        .ratio(505_000)
        .render(region(0, 0, 3, 1), &mut buf);
    assert_eq!(symbol(&buf, 0, 0), "5");
    assert_eq!(symbol(&buf, 1, 0), "1");
    assert_eq!(symbol(&buf, 2, 0), "%");

    // 0.4999% rounds down to 0%
    let mut buf = buffer(2, 1);
    CircleGauge::default()
        .ratio(4_999)
        .render(region(0, 0, 2, 1), &mut buf);
    assert_eq!(symbol(&buf, 0, 0), "0");
    assert_eq!(symbol(&buf, 1, 0), "%");

    // 0.5% rounds up to 1%
    let mut buf = buffer(2, 1);
    CircleGauge::default()
        .ratio(5_000)
        .render(region(0, 0, 2, 1), &mut buf);
    assert_eq!(symbol(&buf, 0, 0), "1");
    assert_eq!(symbol(&buf, 1, 0), "%");
}

#[test]
fn explicit_label_is_clipped_to_region() {
    let mut buf = buffer(3, 1);
    let label = GaugeLabel {
        chars: vec!['a', 'b', 'c', 'd', 'e', 'f', 'g'],
        width: 7,
        style: None,
    };
    CircleGauge::default()
        .label(label)
        .render(region(0, 0, 3, 1), &mut buf);
    assert_eq!(symbol(&buf, 0, 0), "a");
    assert_eq!(symbol(&buf, 1, 0), "b");
    assert_eq!(symbol(&buf, 2, 0), "c");
}

#[test]
fn explicit_label_carries_its_style() {
    let mut buf = buffer(5, 1);
    let label = GaugeLabel {
        chars: vec!['h', 'i'],
        width: 2,
        style: Some(Style::new().fg(Color::Green)),
    };
    CircleGauge::default()
        .label(label)
        .render(region(0, 0, 5, 1), &mut buf);
    // centered: (5 - 2) / 2 = 1
    assert_eq!(symbol(&buf, 1, 0), "h");
    assert_eq!(symbol(&buf, 2, 0), "i");
    assert_eq!(fg(&buf, 1, 0), Color::Green);
    assert_eq!(fg(&buf, 2, 0), Color::Green);
}

#[test]
fn full_ratio_draws_symmetric_ring() {
    // 20 x 10 cells: a 40 x 40 dot canvas; stroke of 2 dots (4 half-dots).
    let mut buf = buffer(20, 10);
    CircleGauge::default()
        .start_angle(0)
        .ratio(TURN)
        .stroke(4)
        .fill_style(Style::new().fg(Color::Red))
        .label(empty_label())
        .render(region(0, 0, 20, 10), &mut buf);
    for cy in 0..10u16 {
        for cx in 0..20u16 {
            let code = expected_code(20, 10, 4, cx, cy);
            if code != 0 {
                // every ring dot is filled at the full ratio
                assert_eq!(symbol(&buf, cx, cy), BRAILLE[code as usize].to_string());
                assert_eq!(fg(&buf, cx, cy), Color::Red);
            } else {
                // nothing is written outside the annulus band
                assert_eq!(symbol(&buf, cx, cy), " ");
                assert_eq!(fg(&buf, cx, cy), Color::Reset);
            }
        }
    }
}

#[test]
fn zero_ratio_fills_no_dot() {
    let mut buf = buffer(6, 3);
    CircleGauge::default()
        .ratio(0)
        .fill_style(Style::new().fg(Color::Red))
        .empty_style(Style::new().fg(Color::Blue))
        .label(empty_label())
        .render(region(0, 0, 6, 3), &mut buf);
    let mut blue = 0;
    for cy in 0..3u16 {
        for cx in 0..6u16 {
            assert_ne!(fg(&buf, cx, cy), Color::Red);
            if fg(&buf, cx, cy) == Color::Blue {
                blue += 1;
            }
        }
    }
    assert!(blue > 0);
}

#[test]
fn filled_cells_grow_with_ratio() {
    let mut last = 0usize;
    for ratio in [0u32, TURN / 4, TURN / 2, 3 * (TURN / 4), TURN] {
        let mut buf = buffer(12, 6);
        CircleGauge::default()
            .ratio(ratio)
            .fill_style(Style::new().fg(Color::Red))
            .label(empty_label())
            .render(region(0, 0, 12, 6), &mut buf);
        let mut red = 0usize;
        for cy in 0..6u16 {
            for cx in 0..12u16 {
                if fg(&buf, cx, cy) == Color::Red {
                    red += 1;
                }
            }
        }
        assert!(red >= last);
        last = red;
    }
    assert!(last > 0);
}

#[test]
fn oversized_stroke_fills_a_disk() {
    // 4 x 2 cells: an 8 x 8 dot canvas; a stroke far beyond the radius
    // clamps, so every dot within the radius is in the ring.
    let mut buf = buffer(4, 2);
    CircleGauge::default()
        .ratio(TURN)
        .stroke(1_000_000)
        .fill_style(Style::new().fg(Color::Red))
        .label(empty_label())
        .render(region(0, 0, 4, 2), &mut buf);
    for cy in 0..2u16 {
        for cx in 0..4u16 {
            let code = expected_code(4, 2, 8, cx, cy);
            if code != 0 {
                assert_eq!(symbol(&buf, cx, cy), BRAILLE[code as usize].to_string());
            } else {
                assert_eq!(symbol(&buf, cx, cy), " ");
            }
        }
    }
}

#[test]
fn occupancy_code_three_maps_to_top_row_glyph() {
    // 1 x 2 cells: a 2 x 8 dot canvas with radius 2 half-dots; as a disk it
    // covers only the two dots beside the center.  The lower cell holds them
    // in its top row: occupancy code 0b00000011, the glyph for "top row set".
    let mut buf = buffer(1, 2);
    CircleGauge::default()
        .ratio(0)
        .stroke(1_000)
        .empty_style(Style::new().fg(Color::Blue))
        .label(empty_label())
        .render(region(0, 0, 1, 2), &mut buf);
    assert_eq!(expected_code(1, 2, 2, 0, 1), 0b0000_0011);
    assert_eq!(symbol(&buf, 0, 1), "\u{2809}");
    assert_eq!(symbol(&buf, 0, 1), BRAILLE[0b0000_0011].to_string());
    // the upper cell holds the mirrored pair in its bottom row
    assert_eq!(symbol(&buf, 0, 0), "\u{28C0}");
}

/// Whether the rasterizer counts the given dot as filled, recomputed from the
/// exact fixed-point pseudo-angle comparison.
fn expected_dot_filled(
    width: u16,
    height: u16,
    stroke: i64,
    start: u64,
    ratio: u64,
    px: i64,
    py: i64,
) -> bool {
    let pw = 2 * width as i64;
    let ph = 4 * height as i64;
    let r = pw.min(ph);
    let s = stroke.clamp(0, r);
    let fx = 2 * px + 1 - pw;
    let fy = ph - (2 * py + 1);
    let d2 = fx * fx + fy * fy;
    if !(d2 <= r * r && d2 >= (r - s) * (r - s)) {
        return false;
    }
    let (ax, ay) = (fx.unsigned_abs(), fy.unsigned_abs());
    let den = ax + ay;
    let tn = if fx > 0 && fy > 0 {
        ay
    } else if fx < 0 && fy > 0 {
        den + ax
    } else if fx < 0 && fy < 0 {
        2 * den + ay
    } else {
        3 * den + ax
    };
    let m = 4 * den * 1_000_000;
    let wrapped = (start * 4 * den + m - tn * 1_000_000) % m;
    wrapped <= ratio * 4 * den
}

#[test]
fn quarter_ratio_fills_exactly_the_swept_sector() {
    let (w, h) = (14u16, 7u16);
    let (start, ratio) = (circle_gauge::TURN / 4, circle_gauge::TURN / 4);
    let mut buf = buffer(w, h);
    CircleGauge::default()
        .start_angle(start)
        .ratio(ratio)
        .stroke(4)
        .fill_style(Style::new().fg(Color::Red))
        .empty_style(Style::new().fg(Color::Blue))
        .label(empty_label())
        .render(region(0, 0, w, h), &mut buf);
    for cy in 0..h {
        for cx in 0..w {
            let code = expected_code(w, h, 4, cx, cy);
            let mut filled = false;
            for dy in 0..4i64 {
                for dx in 0..2i64 {
                    filled |= expected_dot_filled(
                        w,
                        h,
                        4,
                        start as u64,
                        ratio as u64,
                        2 * cx as i64 + dx,
                        4 * cy as i64 + dy,
                    );
                }
            }
            let want = if code == 0 {
                Color::Reset
            } else if filled {
                Color::Red
            } else {
                Color::Blue
            };
            assert_eq!(fg(&buf, cx, cy), want, "cell ({cx}, {cy})");
        }
    }
}

#[test]
fn render_offsets_into_buffer_region() {
    let mut buf = buffer(12, 8);
    CircleGauge::default()
        .ratio(TURN)
        .empty_style(Style::new().fg(Color::Blue))
        .label(empty_label())
        .render(region(3, 2, 6, 3), &mut buf);
    // cells outside the region stay blank
    for y in 0..8u16 {
        for x in 0..12u16 {
            let inside = (3..9).contains(&x) && (2..5).contains(&y);
            if !inside {
                assert_eq!(symbol(&buf, x, y), " ");
            }
        }
    }
    // the region shows the same picture a same-sized buffer shows at its origin
    let mut small = buffer(6, 3);
    CircleGauge::default()
        .ratio(TURN)
        .empty_style(Style::new().fg(Color::Blue))
        .label(empty_label())
        .render(region(0, 0, 6, 3), &mut small);
    for y in 0..3u16 {
        for x in 0..6u16 {
            assert_eq!(symbol(&buf, x + 3, y + 2), symbol(&small, x, y));
        }
    }
}
