//! The gauge descriptor: an immutable-once-built value object holding the
//! filled ratio, start angle, stroke and presentation choices, built by
//! chained setters that each validate their input range.
//!
//! Fractions of a revolution (the ratio and both angles) are fixed-point
//! numbers with [`TURN`] units to the full turn; the stroke is in half-dot
//! units, so the default stroke of two dots is 4.

use vstd::prelude::*;
use ratatui_core::style::Style;
use crate::geometry::TURN;

verus! {

/// A pre-measured text label: the characters to write, the display width in
/// cells that the host measured for them, and an optional style.  A label
/// without a style changes only the symbols of the cells it covers.
pub struct GaugeLabel {
    pub chars: Vec<char>,
    pub width: u16,
    pub style: Option<Style>,
}

/// A circular progress gauge: a ring of the given stroke, filled for `ratio`
/// of a revolution clockwise on screen from `start_angle`, with a centered
/// label.
pub struct CircleGauge {
    /// Filled fraction of a revolution, in `TURN` units; at most `TURN`.
    pub ratio: u32,
    /// Angle of the fill's starting edge, counterclockwise from the positive
    /// x axis, in `TURN` units; at most `TURN`.
    pub start_angle: u32,
    /// Desired ring thickness in half-dot units; clamped to the available
    /// radius at render time.
    pub stroke: u32,
    /// Style for cells holding at least one filled dot; `None` writes their
    /// glyph without touching their style.
    pub fill_style: Option<Style>,
    /// Style for ring cells with no filled dot; `None` leaves such cells
    /// entirely untouched.
    pub empty_style: Option<Style>,
    /// Label overlaid on the ring; `None` renders `<percent>%` instead.
    pub label: Option<GaugeLabel>,
}

/// Whether the descriptor's angular fields are within their closed ranges;
/// every constructor establishes this and every setter preserves it.
pub open spec fn gauge_valid(g: CircleGauge) -> bool {
    g.ratio <= TURN && g.start_angle <= TURN
}

impl Default for CircleGauge {
    /// The default gauge: empty, starting at the top (a quarter turn), with a
    /// stroke of two dots, no styles and no explicit label.
    fn default() -> (g: Self)
        ensures
            g == (CircleGauge {
                ratio: 0,
                start_angle: TURN / 4,
                stroke: 4,
                fill_style: None,
                empty_style: None,
                label: None,
            }),
    {
        CircleGauge {
            ratio: 0,
            start_angle: TURN / 4,
            stroke: 4,
            fill_style: None,
            empty_style: None,
            label: None,
        }
    }
}

impl CircleGauge {
    /// Sets the filled fraction directly; `ratio` must lie in `[0, TURN]`.
    pub fn ratio(self, ratio: u32) -> (g: Self)
        requires
            ratio <= TURN,
        ensures
            g == (CircleGauge { ratio, ..self }),
    {
        CircleGauge { ratio, ..self }
    }

    /// Sets the filled fraction as a whole percentage in `[0, 100]`.
    pub fn percent(self, percent: u16) -> (g: Self)
        requires
            percent <= 100,
        ensures
            g == (CircleGauge { ratio: ((percent as int) * ((TURN as int) / 100)) as u32, ..self }),
    {
        assert((percent as int) * ((TURN as int) / 100) <= 1000000) by (nonlinear_arith)
            requires
                percent <= 100,
        ;
        CircleGauge { ratio: (percent as u32) * (TURN / 100), ..self }
    }

    /// Sets the filled fraction as the angle it subtends, in `TURN` units of a
    /// revolution; `angle` must lie in `[0, TURN]`.
    pub fn angle(self, angle: u32) -> (g: Self)
        requires
            angle <= TURN,
        ensures
            g == (CircleGauge { ratio: angle, ..self }),
    {
        CircleGauge { ratio: angle, ..self }
    }

    /// Sets the angle of the fill's starting edge, in `TURN` units of a
    /// revolution; `angle` must lie in `[0, TURN]`.
    pub fn start_angle(self, angle: u32) -> (g: Self)
        requires
            angle <= TURN,
        ensures
            g == (CircleGauge { start_angle: angle, ..self }),
    {
        CircleGauge { start_angle: angle, ..self }
    }

    /// Sets the style of cells holding at least one filled dot.
    pub fn fill_style(self, style: Style) -> (g: Self)
        ensures
            g == (CircleGauge { fill_style: Some(style), ..self }),
    {
        CircleGauge { fill_style: Some(style), ..self }
    }

    /// Sets the style of ring cells with no filled dot, which are otherwise
    /// left untouched.
    pub fn empty_style(self, style: Style) -> (g: Self)
        ensures
            g == (CircleGauge { empty_style: Some(style), ..self }),
    {
        CircleGauge { empty_style: Some(style), ..self }
    }

    /// Sets the desired ring thickness in half-dot units; any value is
    /// accepted and clamped to the available radius at render time.
    pub fn stroke(self, stroke: u32) -> (g: Self)
        ensures
            g == (CircleGauge { stroke, ..self }),
    {
        CircleGauge { stroke, ..self }
    }

    /// Overrides the synthesized percentage label.
    pub fn label(self, label: GaugeLabel) -> (g: Self)
        ensures
            g == (CircleGauge { label: Some(label), ..self }),
    {
        CircleGauge { label: Some(label), ..self }
    }
}

/// Law: `percent(p)` is `ratio` at exactly `p / 100` of a revolution.  The
/// value `r` it stores is a valid `ratio` argument and represents `p / 100`
/// without rounding: `r / TURN == p / 100`, cross-multiplied below.  So
/// `g.percent(p)` and `g.ratio(r)` yield equal descriptors for every `g`.
pub proof fn lemma_percent_is_ratio(p: u16)
    requires
        p <= 100,
    ensures
        ({
            let r = ((p as int) * ((TURN as int) / 100)) as u32;
            r <= TURN && (r as int) * 100 == (p as int) * (TURN as int)
        }),
{
    assert((p as int) * 10000 <= 1000000 && ((p as int) * 10000) * 100 == (p as int) * 1000000)
        by (nonlinear_arith)
        requires
            0 <= p <= 100,
    ;
}

/// Law: `angle(a)` is `ratio` at `a / TURN` of a revolution.  Angles and
/// ratios are measured in the same fixed-point units, so the fraction of a
/// revolution that `angle(a)` stores is exactly `a`, and `g.angle(a)` and
/// `g.ratio(a)` yield equal descriptors for every `g`.
pub proof fn lemma_angle_is_ratio(g: CircleGauge, a: u32)
    requires
        a <= TURN,
    ensures
        (CircleGauge { ratio: a, ..g }).ratio == a,
{
}

/// The percentage the default label shows: the ratio as a percentage, rounded
/// half away from zero.
pub open spec fn rounded_percent(ratio: u32) -> int {
    (100 * (ratio as int) + (TURN as int) / 2) / (TURN as int)
}

/// The character for one decimal digit.
pub open spec fn digit_char(d: int) -> char {
    if d == 0 {
        '0'
    } else if d == 1 {
        '1'
    } else if d == 2 {
        '2'
    } else if d == 3 {
        '3'
    } else if d == 4 {
        '4'
    } else if d == 5 {
        '5'
    } else if d == 6 {
        '6'
    } else if d == 7 {
        '7'
    } else if d == 8 {
        '8'
    } else {
        '9'
    }
}

/// Decimal digits of `n`, for `n` up to three digits, without leading zeros.
pub open spec fn decimal_chars(n: int) -> Seq<char>
    recommends
        0 <= n < 1000,
{
    if n >= 100 {
        seq![digit_char(n / 100), digit_char((n / 10) % 10), digit_char(n % 10)]
    } else if n >= 10 {
        seq![digit_char(n / 10), digit_char(n % 10)]
    } else {
        seq![digit_char(n)]
    }
}

/// The characters of the synthesized label: the rounded percentage, then `%`.
pub open spec fn default_label_chars(ratio: u32) -> Seq<char> {
    decimal_chars(rounded_percent(ratio)).push('%')
}

/// One decimal digit as a character.
fn digit_char_of(d: u32) -> (c: char)
    requires
        d < 10,
    ensures
        c == digit_char(d as int),
{
    if d == 0 {
        '0'
    } else if d == 1 {
        '1'
    } else if d == 2 {
        '2'
    } else if d == 3 {
        '3'
    } else if d == 4 {
        '4'
    } else if d == 5 {
        '5'
    } else if d == 6 {
        '6'
    } else if d == 7 {
        '7'
    } else if d == 8 {
        '8'
    } else {
        '9'
    }
}

/// Builds the characters of the synthesized `<percent>%` label.
pub fn make_default_label(ratio: u32) -> (chars: Vec<char>)
    requires
        ratio <= TURN,
    ensures
        chars@ == default_label_chars(ratio),
        1 <= chars@.len() <= 4,
{
    let n: u32 = (100 * ratio + TURN / 2) / TURN;
    assert(n == rounded_percent(ratio));
    assert(n <= 100) by (nonlinear_arith)
        requires
            n == (100 * (ratio as int) + 500000) / 1000000,
            ratio <= 1000000,
    ;
    let mut chars: Vec<char> = Vec::new();
    if n >= 100 {
        chars.push(digit_char_of(n / 100));
        chars.push(digit_char_of((n / 10) % 10));
        chars.push(digit_char_of(n % 10));
    } else if n >= 10 {
        chars.push(digit_char_of(n / 10));
        chars.push(digit_char_of(n % 10));
    } else {
        chars.push(digit_char_of(n));
    }
    chars.push('%');
    assert(chars@ =~= default_label_chars(ratio));
    chars
}

} // verus!
