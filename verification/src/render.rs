//! Layout arithmetic and text framing for the text-mode waveform view: the
//! frame window, which channels fit, which frames each column covers, the
//! character canvas of a channel panel, and the boxed lines around it.
use vstd::prelude::*;
use vstd::utf8::{
    decode_utf8, encode_utf8, encode_utf8_decode_utf8, encode_utf8_valid_utf8, is_ascii_chars,
    is_ascii_chars_encode_utf8, is_char_boundary_iff_not_is_continuation_byte,
};
use vstd::string::StringSliceAdditionalSpecFns;
use crate::text::{padded_decimal, push_padded_decimal, push_repeated, repeat};

verus! {

pub const MIN_PLOT_HEIGHT: usize = 6;
pub const MIN_PLOT_WIDTH: usize = 32;

// ---------------------------------------------------------------------------
// The frame window
// ---------------------------------------------------------------------------

pub open spec fn max_int(a: int, b: int) -> int {
    if a >= b {
        a
    } else {
        b
    }
}

pub open spec fn min_int(a: int, b: int) -> int {
    if a <= b {
        a
    } else {
        b
    }
}

/// The window `(start, span)` clamped into `total` frames (at least one).
pub open spec fn spec_clamp_window(start: int, span: int, total: int) -> (int, int) {
    let t = max_int(total, 1);
    let s = if span < 1 {
        1
    } else if span > t {
        t
    } else {
        span
    };
    (min_int(start, t - s), s)
}

/// Clamps a window of `frame_span` frames starting at `start_frame` so that
/// it holds between one frame and all `total_frames` frames and ends inside
/// them.
pub fn clamp_window(start_frame: usize, frame_span: usize, total_frames: usize) -> (r: (
    usize,
    usize,
))
    ensures
        (r.0 as int, r.1 as int) == spec_clamp_window(
            start_frame as int,
            frame_span as int,
            total_frames as int,
        ),
{
    let total = if total_frames > 1 {
        total_frames
    } else {
        1
    };
    let span = if frame_span < 1 {
        1
    } else if frame_span > total {
        total
    } else {
        frame_span
    };
    let limit = total - span;
    let start = if start_frame < limit {
        start_frame
    } else {
        limit
    };
    (start, span)
}

/// A clamped window lies inside the frames, and clamping it again leaves it
/// as it is.
pub proof fn lemma_clamp_window(start: int, span: int, total: int)
    ensures
        ({
            let (s, n) = spec_clamp_window(start, span, total);
            &&& 1 <= n <= max_int(total, 1)
            &&& s + n <= max_int(total, 1)
            &&& start >= 0 ==> s >= 0
            &&& spec_clamp_window(s, n, total) == (s, n)
            &&& (0 <= start && 1 <= span && start + span <= max_int(total, 1)) ==> (s, n) == (
                start,
                span,
            )
        }),
{
}

// ---------------------------------------------------------------------------
// Columns
// ---------------------------------------------------------------------------

/// Frames covered by the window `start..end` (at least one).
pub open spec fn window_span(start: int, end: int) -> int {
    max_int(end - start, 1)
}

/// The first frame of `column` out of `width` columns.
pub open spec fn column_start(start: int, end: int, column: int, width: int) -> int {
    start + (window_span(start, end) * column) / max_int(width, 1)
}

/// Where `column` would end without the one-frame minimum.
pub open spec fn column_natural_end(start: int, end: int, column: int, width: int) -> int {
    start + (window_span(start, end) * (column + 1)) / max_int(width, 1)
}

/// Whether computing the frames of `column` stays within `usize`.
pub open spec fn column_range_fits(start: int, end: int, column: int, width: int) -> bool {
    &&& window_span(start, end) * (column + 1) <= usize::MAX
    &&& column_natural_end(start, end, column, width) <= usize::MAX
    &&& column_start(start, end, column, width) + 1 <= usize::MAX
}

/// The frames shown in `column` of a plot `width` columns wide over the
/// window `start..end`: columns split the window evenly and each covers at
/// least one frame.
pub fn frame_range_for_column(start: usize, end: usize, column: usize, width: usize) -> (r:
    std::ops::Range<usize>)
    requires
        column_range_fits(start as int, end as int, column as int, width as int),
    ensures
        r.start == column_start(start as int, end as int, column as int, width as int),
        r.end == max_int(
            column_natural_end(start as int, end as int, column as int, width as int),
            r.start + 1,
        ),
{
    let span = if end > start && end - start > 1 {
        end - start
    } else {
        1
    };
    let w = if width > 1 {
        width
    } else {
        1
    };
    proof {
        assert(span * column <= span * (column + 1) && column + 1 <= span * (column + 1)) by (nonlinear_arith)
            requires
                span >= 1,
                column >= 0,
        ;
        assert((span * column) / (w as int) <= (span * (column + 1)) / (w as int)) by {
            vstd::arithmetic::div_mod::lemma_div_is_ordered(
                span * column,
                span * (column + 1),
                w as int,
            );
        }
        assert((span * column) / (w as int) >= 0) by {
            assert(span * column >= 0) by (nonlinear_arith)
                requires
                    span >= 1,
            ;
        }
    }
    let range_start = start + (span * column) / w;
    let mut range_end = start + (span * (column + 1)) / w;
    if range_end <= range_start {
        range_end = range_start + 1;
    }
    range_start..range_end
}

/// The columns of a plot tile its window: the first starts at the window's
/// start, each ends where the next starts (before the one-frame minimum),
/// starts never go backwards, and the last column ends at the window's end.
pub proof fn lemma_columns_tile(start: int, end: int, width: int, c1: int, c2: int)
    requires
        width >= 1,
        0 <= c1 <= c2 < width,
    ensures
        column_start(start, end, 0, width) == start,
        column_natural_end(start, end, c1, width) == column_start(start, end, c1 + 1, width),
        column_start(start, end, c1, width) <= column_start(start, end, c2, width),
        column_natural_end(start, end, width - 1, width) == start + window_span(start, end),
{
    let span = window_span(start, end);
    assert(span * c1 <= span * c2) by (nonlinear_arith)
        requires
            span >= 1,
            c1 <= c2,
    ;
    vstd::arithmetic::div_mod::lemma_div_is_ordered(span * c1, span * c2, width);
    assert(span * 0 == 0);
    assert((span * width) / width == span) by {
        vstd::arithmetic::div_mod::lemma_div_multiples_vanish(span, width);
        vstd::arithmetic::mul::lemma_mul_is_commutative(span, width);
    }
}

// ---------------------------------------------------------------------------
// Frame layout
// ---------------------------------------------------------------------------

/// Channels shown when none is focused: as many of the first channels as
/// leave each at least `MIN_PLOT_HEIGHT` rows, and at least one.
pub open spec fn shown_channel_count(channel_count: int, plot_rows: int) -> int {
    if channel_count == 0 {
        0
    } else {
        min_int(channel_count, max_int(1, plot_rows / 6))
    }
}

/// The channels drawn: the focused one (clamped to the last channel), or
/// the first `shown_channel_count` channels in order.
pub open spec fn spec_visible_channels(channel_count: int, focus: Option<usize>, plot_rows: int) -> Seq<usize> {
    match focus {
        Some(c) => seq![
            min_int(c as int, if channel_count >= 1 {
                channel_count - 1
            } else {
                0
            }) as usize,
        ],
        None => Seq::new(shown_channel_count(channel_count, plot_rows) as nat, |i: int| i as usize),
    }
}

/// The channel indices drawn in a plot of `plot_rows` rows.
pub fn visible_channels(channel_count: usize, focus_channel: Option<usize>, plot_rows: usize) -> (r:
    Vec<usize>)
    ensures
        r@ == spec_visible_channels(channel_count as int, focus_channel, plot_rows as int),
{
    if let Some(channel) = focus_channel {
        let last = if channel_count >= 1 {
            channel_count - 1
        } else {
            0
        };
        let chosen = if channel < last {
            channel
        } else {
            last
        };
        let mut v: Vec<usize> = Vec::new();
        v.push(chosen);
        assert(v@ =~= spec_visible_channels(channel_count as int, focus_channel, plot_rows as int));
        return v;
    }
    let mut channels: Vec<usize> = Vec::new();
    let mut i: usize = 0;
    while i < channel_count
        invariant
            i <= channel_count,
            channels@ =~= Seq::new(i as nat, |k: int| k as usize),
        decreases channel_count - i,
    {
        channels.push(i);
        i = i + 1;
    }
    while channels.len() > 1 && plot_rows / channels.len() < MIN_PLOT_HEIGHT
        invariant
            channels@.len() <= channel_count,
            channel_count == 0 ==> channels@.len() == 0,
            channel_count > 0 ==> channels@.len() >= shown_channel_count(channel_count as int, plot_rows as int),
            channels@ =~= Seq::new(channels@.len(), |k: int| k as usize),
        decreases channels.len(),
    {
        proof {
            let m = channels@.len() as int;
            assert(plot_rows as int / m < 6);
            assert(plot_rows as int / 6 < m) by {
                vstd::arithmetic::div_mod::lemma_fundamental_div_mod(plot_rows as int, m);
                vstd::arithmetic::div_mod::lemma_fundamental_div_mod(plot_rows as int, 6);
                assert(plot_rows as int / 6 < m) by (nonlinear_arith)
                    requires
                        plot_rows as int == m * (plot_rows as int / m) + plot_rows as int % m,
                        0 <= plot_rows as int % m < m,
                        plot_rows as int / m < 6,
                        plot_rows as int == 6 * (plot_rows as int / 6) + plot_rows as int % 6,
                        0 <= plot_rows as int % 6 < 6,
                        m > 1,
                ;
            }
        }
        channels.pop();
    }
    proof {
        let m = channels@.len() as int;
        if channel_count > 0 && m > 1 {
            assert(plot_rows as int / m >= 6);
            assert(m <= plot_rows as int / 6) by {
                vstd::arithmetic::div_mod::lemma_fundamental_div_mod(plot_rows as int, m);
                vstd::arithmetic::div_mod::lemma_fundamental_div_mod(plot_rows as int, 6);
                assert(m <= plot_rows as int / 6) by (nonlinear_arith)
                    requires
                        plot_rows as int == m * (plot_rows as int / m) + plot_rows as int % m,
                        0 <= plot_rows as int % m < m,
                        plot_rows as int / m >= 6,
                        plot_rows as int == 6 * (plot_rows as int / 6) + plot_rows as int % 6,
                        0 <= plot_rows as int % 6 < 6,
                        m > 1,
                ;
            }
        }
    }
    channels
}

/// Sizes of the text frame.
#[derive(Debug)]
pub struct FrameLayout {
    pub width: usize,
    pub height: usize,
    pub inner_width: usize,
    pub plot_rows: usize,
    pub channels: Vec<usize>,
    pub panel_height: usize,
}

/// Rows taken by the header and footer lines.
pub open spec fn reserved_rows(show_help: bool) -> int {
    if show_help {
        8
    } else {
        6
    }
}

/// The frame width: at least the minimum plot width plus borders.
pub open spec fn frame_width(width: int) -> int {
    max_int(width, 36)
}

/// The frame height: at least the minimum plot height plus eight rows.
pub open spec fn frame_height(height: int) -> int {
    max_int(height, 14)
}

/// Rows for channel panels.
pub open spec fn frame_plot_rows(height: int, show_help: bool) -> int {
    max_int(max_int(frame_height(height) - reserved_rows(show_help), 0), 6)
}

/// The layout of a frame drawn in `width` by `height` characters.
pub fn frame_layout(
    width: usize,
    height: usize,
    show_help: bool,
    channel_count: usize,
    focus_channel: Option<usize>,
) -> (r: FrameLayout)
    requires
        channel_count > 0 || focus_channel is Some,
    ensures
        r.width == frame_width(width as int),
        r.height == frame_height(height as int),
        r.inner_width == frame_width(width as int) - 2,
        r.plot_rows == frame_plot_rows(height as int, show_help),
        r.channels@ == spec_visible_channels(channel_count as int, focus_channel, r.plot_rows as int),
        r.panel_height == max_int(r.plot_rows as int / r.channels@.len() as int, 6),
{
    let width = if width > MIN_PLOT_WIDTH + 4 {
        width
    } else {
        MIN_PLOT_WIDTH + 4
    };
    let height = if height > MIN_PLOT_HEIGHT + 8 {
        height
    } else {
        MIN_PLOT_HEIGHT + 8
    };
    let inner_width = width - 2;
    let reserved: usize = if show_help {
        8
    } else {
        6
    };
    let available = height - reserved;
    let plot_rows = if available > MIN_PLOT_HEIGHT {
        available
    } else {
        MIN_PLOT_HEIGHT
    };
    let channels = visible_channels(channel_count, focus_channel, plot_rows);
    assert(channels@.len() >= 1);
    let per_panel = plot_rows / channels.len();
    let panel_height = if per_panel > MIN_PLOT_HEIGHT {
        per_panel
    } else {
        MIN_PLOT_HEIGHT
    };
    FrameLayout { width, height, inner_width, plot_rows, channels, panel_height }
}

// ---------------------------------------------------------------------------
// The character canvas of a channel panel
// ---------------------------------------------------------------------------

/// Fills `row` of `canvas` with `glyph`; rows past the canvas are ignored.
pub fn draw_horizontal(canvas: &mut Vec<Vec<u8>>, row: usize, glyph: u8)
    ensures
        final(canvas)@.len() == old(canvas)@.len(),
        forall|r: int|
            0 <= r < old(canvas)@.len() ==> (#[trigger] final(canvas)@[r])@ == if r == row {
                Seq::new(old(canvas)@[r]@.len(), |c: int| glyph)
            } else {
                old(canvas)@[r]@
            },
{
    if row >= canvas.len() {
        return;
    }
    let mut line: Vec<u8> = Vec::new();
    std::mem::swap(&mut line, &mut canvas[row]);
    let n = line.len();
    let mut c: usize = 0;
    while c < n
        invariant
            c <= n,
            n == line@.len(),
            forall|k: int| 0 <= k < c ==> line@[k] == glyph,
        decreases n - c,
    {
        line.set(c, glyph);
        c = c + 1;
    }
    canvas.set(row, line);
    assert forall|r: int| 0 <= r < old(canvas)@.len() implies (#[trigger] canvas@[r])@ == if r == row {
        Seq::new(old(canvas)@[r]@.len(), |c: int| glyph)
    } else {
        old(canvas)@[r]@
    } by {
        if r == row {
            assert(canvas@[r]@ =~= Seq::new(old(canvas)@[r]@.len(), |c: int| glyph));
        }
    }
}

/// Copies `label` over the start of `row`, as far as both reach.
pub fn write_label(row: &mut Vec<u8>, label: &[u8])
    ensures
        final(row)@.len() == old(row)@.len(),
        forall|i: int|
            0 <= i < old(row)@.len() ==> #[trigger] final(row)@[i] == if i < label@.len() {
                label@[i]
            } else {
                old(row)@[i]
            },
{
    let n = if row.len() < label.len() {
        row.len()
    } else {
        label.len()
    };
    let mut i: usize = 0;
    while i < n
        invariant
            i <= n,
            n <= row@.len(),
            n <= label@.len(),
            n == min_int(old(row)@.len() as int, label@.len() as int),
            row@.len() == old(row)@.len(),
            forall|k: int|
                0 <= k < row@.len() ==> #[trigger] row@[k] == if k < i {
                    label@[k]
                } else {
                    old(row)@[k]
                },
        decreases n - i,
    {
        row.set(i, label[i]);
        i = i + 1;
    }
}

/// The cell at `(r, c)` of a blank panel `height` rows tall, with the grid
/// (quarter, centre and three-quarter lines) when `show_grid` holds; the
/// lower grid line is drawn last, then the centre line, then the upper.
pub open spec fn panel_cell(height: int, show_grid: bool, r: int) -> u8 {
    let quarter = height / 4;
    let lower = max_int(height - (quarter + 1), 0);
    if show_grid && r == lower {
        46u8
    } else if show_grid && r == height / 2 {
        45u8
    } else if show_grid && r == quarter {
        46u8
    } else {
        32u8
    }
}

/// A blank `height` by `width` panel, with grid lines when `show_grid` holds.
pub fn panel_canvas(width: usize, height: usize, show_grid: bool) -> (r: Vec<Vec<u8>>)
    ensures
        r@.len() == height,
        forall|i: int|
            0 <= i < height ==> (#[trigger] r@[i])@ == Seq::new(
                width as nat,
                |c: int| panel_cell(height as int, show_grid, i),
            ),
{
    let mut canvas: Vec<Vec<u8>> = Vec::new();
    let mut i: usize = 0;
    while i < height
        invariant
            i <= height,
            canvas@.len() == i,
            forall|k: int|
                0 <= k < i ==> (#[trigger] canvas@[k])@ == Seq::new(width as nat, |c: int| 32u8),
        decreases height - i,
    {
        let mut row: Vec<u8> = Vec::new();
        let mut c: usize = 0;
        while c < width
            invariant
                c <= width,
                row@ =~= Seq::new(c as nat, |k: int| 32u8),
            decreases width - c,
        {
            row.push(32u8);
            c = c + 1;
        }
        canvas.push(row);
        i = i + 1;
    }
    if show_grid {
        let quarter = height / 4;
        let center = height / 2;
        let lower = if height > quarter + 1 {
            height - (quarter + 1)
        } else {
            0
        };
        draw_horizontal(&mut canvas, quarter, 46u8);
        draw_horizontal(&mut canvas, center, 45u8);
        draw_horizontal(&mut canvas, lower, 46u8);
    }
    assert forall|i: int| 0 <= i < height implies (#[trigger] canvas@[i])@ =~= Seq::new(
        width as nat,
        |c: int| panel_cell(height as int, show_grid, i),
    ) by {}
    canvas
}

/// Sets the cells of `column` from row `a` to row `b` (in either order,
/// both included) to `glyph`; an empty canvas is left alone.
pub fn fill_column(canvas: &mut Vec<Vec<u8>>, column: usize, a: usize, b: usize, glyph: u8)
    requires
        old(canvas)@.len() > 0 ==> (a < old(canvas)@.len() && b < old(canvas)@.len()),
        forall|r: int|
            0 <= r < old(canvas)@.len() && min_int(a as int, b as int) <= r <= max_int(
                a as int,
                b as int,
            ) ==> column < (#[trigger] old(canvas)@[r])@.len(),
    ensures
        final(canvas)@.len() == old(canvas)@.len(),
        forall|r: int|
            0 <= r < old(canvas)@.len() ==> (#[trigger] final(canvas)@[r])@ == if min_int(
                a as int,
                b as int,
            ) <= r <= max_int(a as int, b as int) {
                old(canvas)@[r]@.update(column as int, glyph)
            } else {
                old(canvas)@[r]@
            },
{
    if canvas.len() == 0 {
        return;
    }
    let low = if a < b {
        a
    } else {
        b
    };
    let high = if a < b {
        b
    } else {
        a
    };
    let mut r = low;
    while r <= high
        invariant
            low <= r <= high + 1,
            high < canvas@.len(),
            high < canvas.len(),
            low == min_int(a as int, b as int),
            high == max_int(a as int, b as int),
            canvas@.len() == old(canvas)@.len(),
            forall|k: int|
                0 <= k < old(canvas)@.len() && low <= k <= high ==> column < (
                #[trigger] old(canvas)@[k])@.len(),
            forall|k: int|
                0 <= k < canvas@.len() ==> (#[trigger] canvas@[k])@ == if low <= k < r {
                    old(canvas)@[k]@.update(column as int, glyph)
                } else {
                    old(canvas)@[k]@
                },
        decreases high + 1 - r,
    {
        let mut line: Vec<u8> = Vec::new();
        std::mem::swap(&mut line, &mut canvas[r]);
        line.set(column, glyph);
        canvas.set(r, line);
        r = r + 1;
    }
}

// ---------------------------------------------------------------------------
// Framed lines
// ---------------------------------------------------------------------------

/// `+`, then `fill` repeated to make the line `width` wide, then `+`.
pub open spec fn border_text(width: int, fill: Seq<char>) -> Seq<char> {
    "+"@ + repeat(fill, max_int(width - 2, 0) as nat) + "+"@
}

/// A horizontal border line.
pub fn border(width: usize, fill: &str) -> (r: String)
    ensures
        r@ == border_text(width as int, fill@),
{
    let mut s = String::from_str("+");
    let n = if width >= 2 {
        width - 2
    } else {
        0
    };
    push_repeated(&mut s, fill, n);
    s.append("+");
    s
}

/// `content` cut to at most `width` bytes and padded with spaces to `width`
/// bytes, between two `|`.
pub open spec fn boxed_text(width: int, content: Seq<char>) -> Seq<char> {
    let bytes = vstd::utf8::encode_utf8(content);
    let kept = min_int(bytes.len() as int, width);
    "|"@ + decode_utf8(bytes.subrange(0, kept)) + repeat(" "@, (width - kept) as nat) + "|"@
}

/// Whether cutting `content` to `width` bytes keeps whole characters.
pub open spec fn boxed_cut_ok(width: int, content: &str) -> bool {
    content.spec_bytes().len() <= width || vstd::utf8::is_char_boundary(
        content.spec_bytes(),
        width,
    )
}

/// A line of `content` framed to `width` bytes.
pub fn boxed(width: usize, content: &str) -> (r: String)
    requires
        boxed_cut_ok(width as int, content),
    ensures
        r@ == boxed_text(width as int, content@),
{
    let mut s = String::from_str("|");
    let len = content.as_bytes().len();
    let kept = if len > width {
        width
    } else {
        len
    };
    proof {
        encode_utf8_decode_utf8(content@);
    }
    if len > width {
        let (head, _) = content.split_at(width);
        proof {
            encode_utf8_decode_utf8(head@);
            assert(head@ == decode_utf8(content.spec_bytes().subrange(0, width as int)));
        }
        s.append(head);
    } else {
        assert(content.spec_bytes().subrange(0, len as int) =~= content.spec_bytes());
        s.append(content);
    }
    push_repeated(&mut s, " ", width - kept);
    s.append("|");
    s
}

/// `line` wrapped in the ANSI colour `code` when `enabled`.
pub open spec fn colorized_text(line: Seq<char>, enabled: bool, code: Seq<char>) -> Seq<char> {
    if enabled {
        "\x1b["@ + code + "m"@ + line + "\x1b[0m"@
    } else {
        line
    }
}

/// A line with an ANSI colour when colour output is enabled.
pub fn colorize(line: &str, enabled: bool, code: &str) -> (r: String)
    ensures
        r@ == colorized_text(line@, enabled, code@),
{
    if enabled {
        let mut s = String::from_str("\x1b[");
        s.append(code);
        s.append("m");
        s.append(line);
        s.append("\x1b[0m");
        s
    } else {
        line.to_owned()
    }
}

/// `MM:SS.mmm` for a duration in milliseconds (minutes are not wrapped).
pub open spec fn clock_text(total_millis: nat) -> Seq<char> {
    padded_decimal(total_millis / 60000, 2) + ":"@ + padded_decimal((total_millis % 60000) / 1000, 2)
        + "."@ + padded_decimal(total_millis % 1000, 3)
}

/// Formats whole milliseconds as minutes, seconds and milliseconds.
pub fn format_clock_millis(total_millis: u64) -> (r: String)
    ensures
        r@ == clock_text(total_millis as nat),
{
    let mut s = String::new();
    push_padded_decimal(&mut s, (total_millis / 60000) as u128, 2);
    s.append(":");
    push_padded_decimal(&mut s, ((total_millis % 60000) / 1000) as u128, 2);
    s.append(".");
    push_padded_decimal(&mut s, (total_millis % 1000) as u128, 3);
    s
}

// ---------------------------------------------------------------------------
// Whole frames
// ---------------------------------------------------------------------------

/// Every cut of an ASCII text keeps whole characters.
pub proof fn lemma_ascii_cut_ok(width: int, content: &str)
    requires
        is_ascii_chars(content@),
        width >= 0,
    ensures
        boxed_cut_ok(width, content),
{
    let b = encode_utf8(content@);
    encode_utf8_valid_utf8(content@);
    is_ascii_chars_encode_utf8(content@);
    if width < b.len() {
        assert(content@[width] as u8 == b[width]);
        is_char_boundary_iff_not_is_continuation_byte(b, width);
    }
}

/// The line of key bindings under the channel panels.
pub open spec fn controls_text() -> Seq<char> {
    " h/l pan  +/- zoom  [/] gain  c channel  g grid  ? help  0 fit  q quit "@
}

pub open spec fn help_text_1() -> Seq<char> {
    " Focus cycles across all channels and then each individual channel. "@
}

pub open spec fn help_text_2() -> Seq<char> {
    " The renderer uses a peak pyramid, so large files stay responsive while zooming. "@
}

pub open spec fn help_text_3() -> Seq<char> {
    " Use --snapshot to print a single frame instead of entering the interactive viewer. "@
}

/// The colour of the lines of panel `i`: panels alternate green and cyan.
pub open spec fn panel_code(i: int) -> Seq<char> {
    if i % 2 == 0 {
        "0;32"@
    } else {
        "0;36"@
    }
}

/// The lines of all panels in order, each coloured by its panel's parity.
pub open spec fn panel_lines(panels: Seq<Seq<Seq<char>>>, color: bool) -> Seq<Seq<char>>
    decreases panels.len(),
{
    if panels.len() == 0 {
        Seq::empty()
    } else {
        let i = panels.len() - 1;
        panel_lines(panels.drop_last(), color) + panels.last().map_values(
            |l: Seq<char>| colorized_text(l, color, panel_code(i)),
        )
    }
}

/// The lines of a frame: border, title, information line, border, the
/// panels, border, key bindings, the help lines when shown, border.
pub open spec fn frame_lines(
    width: int,
    inner_width: int,
    title: Seq<char>,
    info: Seq<char>,
    panels: Seq<Seq<Seq<char>>>,
    show_help: bool,
    color: bool,
) -> Seq<Seq<char>> {
    let edge = border_text(width, "="@);
    seq![
        edge,
        colorized_text(boxed_text(inner_width, title), color, "1;36"@),
        boxed_text(inner_width, info),
        edge,
    ] + panel_lines(panels, color) + seq![edge, boxed_text(inner_width, controls_text())] + (if show_help {
        seq![
            boxed_text(inner_width, help_text_1()),
            boxed_text(inner_width, help_text_2()),
            boxed_text(inner_width, help_text_3()),
        ]
    } else {
        Seq::empty()
    }) + seq![edge]
}

/// Lines joined by newlines.
pub open spec fn join_lines(lines: Seq<Seq<char>>) -> Seq<char>
    decreases lines.len(),
{
    if lines.len() == 0 {
        Seq::empty()
    } else if lines.len() == 1 {
        lines[0]
    } else {
        join_lines(lines.drop_last()) + "\n"@ + lines.last()
    }
}

pub open spec fn strings_view(v: Seq<String>) -> Seq<Seq<char>> {
    v.map_values(|s: String| s@)
}

pub open spec fn panels_view(v: Seq<Vec<String>>) -> Seq<Seq<Seq<char>>> {
    v.map_values(|p: Vec<String>| strings_view(p@))
}

fn boxed_ascii(width: usize, content: &str) -> (r: String)
    requires
        is_ascii_chars(content@),
    ensures
        r@ == boxed_text(width as int, content@),
{
    proof {
        lemma_ascii_cut_ok(width as int, content);
    }
    boxed(width, content)
}

fn push_line(lines: &mut Vec<String>, line: String)
    ensures
        strings_view(final(lines)@) == strings_view(old(lines)@).push(line@),
{
    lines.push(line);
    assert(strings_view(lines@) =~= strings_view(old(lines)@).push(line@));
}

/// Joins lines with newlines and ends the text with one.
pub fn join_with_newlines(lines: &Vec<String>) -> (r: String)
    ensures
        r@ == join_lines(strings_view(lines@)) + "\n"@,
{
    let mut out = String::new();
    let mut i: usize = 0;
    while i < lines.len()
        invariant
            i <= lines@.len(),
            out@ == join_lines(strings_view(lines@).take(i as int)),
        decreases lines.len() - i,
    {
        let ghost before = strings_view(lines@).take(i as int);
        if i > 0 {
            out.append("\n");
        }
        out.append(lines[i].as_str());
        proof {
            let after = strings_view(lines@).take(i + 1);
            assert(after.drop_last() =~= before);
            assert(after.last() == lines@[i as int]@);
        }
        i = i + 1;
    }
    assert(strings_view(lines@).take(lines@.len() as int) =~= strings_view(lines@));
    out.append("\n");
    out
}

/// Assembles a text frame from its already formatted title and information
/// line and the lines of each channel panel.
pub fn compose_frame(
    width: usize,
    inner_width: usize,
    title: &str,
    info: &str,
    panels: &Vec<Vec<String>>,
    show_help: bool,
    color: bool,
) -> (r: String)
    requires
        boxed_cut_ok(inner_width as int, title),
        boxed_cut_ok(inner_width as int, info),
    ensures
        r@ == join_lines(
            frame_lines(
                width as int,
                inner_width as int,
                title@,
                info@,
                panels_view(panels@),
                show_help,
                color,
            ),
        ) + "\n"@,
{
    let ghost pv = panels_view(panels@);
    let mut lines: Vec<String> = Vec::new();
    push_line(&mut lines, border(width, "="));
    let boxed_title = boxed(inner_width, title);
    push_line(&mut lines, colorize(boxed_title.as_str(), color, "1;36"));
    push_line(&mut lines, boxed(inner_width, info));
    push_line(&mut lines, border(width, "="));
    let ghost head = strings_view(lines@);
    let mut p: usize = 0;
    while p < panels.len()
        invariant
            p <= panels@.len(),
            pv == panels_view(panels@),
            strings_view(lines@) == head + panel_lines(pv.take(p as int), color),
        decreases panels.len() - p,
    {
        let panel = &panels[p];
        let code = if p % 2 == 0 {
            "0;32"
        } else {
            "0;36"
        };
        assert(code@ == panel_code(p as int));
        let ghost start = strings_view(lines@);
        let mut k: usize = 0;
        while k < panel.len()
            invariant
                k <= panel@.len(),
                code@ == panel_code(p as int),
                strings_view(lines@) == start + strings_view(panel@).take(k as int).map_values(
                    |l: Seq<char>| colorized_text(l, color, panel_code(p as int)),
                ),
            decreases panel.len() - k,
        {
            let line = colorize(panel[k].as_str(), color, code);
            push_line(&mut lines, line);
            assert(strings_view(panel@).take(k + 1).map_values(
                |l: Seq<char>| colorized_text(l, color, panel_code(p as int)),
            ) =~= strings_view(panel@).take(k as int).map_values(
                |l: Seq<char>| colorized_text(l, color, panel_code(p as int)),
            ).push(colorized_text(panel@[k as int]@, color, panel_code(p as int))));
            k = k + 1;
        }
        proof {
            assert(strings_view(panel@).take(k as int) =~= strings_view(panel@));
            let next = pv.take(p + 1);
            assert(next.drop_last() =~= pv.take(p as int));
            assert(next.last() == strings_view(panel@));
            assert(next.len() - 1 == p);
        }
        p = p + 1;
    }
    assert(pv.take(p as int) =~= pv);
    push_line(&mut lines, border(width, "="));
    proof {
        reveal_strlit(" h/l pan  +/- zoom  [/] gain  c channel  g grid  ? help  0 fit  q quit ");
    }
    push_line(
        &mut lines,
        boxed_ascii(inner_width, " h/l pan  +/- zoom  [/] gain  c channel  g grid  ? help  0 fit  q quit "),
    );
    let ghost before_help = strings_view(lines@);
    if show_help {
        proof {
            reveal_strlit(" Focus cycles across all channels and then each individual channel. ");
            reveal_strlit(" The renderer uses a peak pyramid, so large files stay responsive while zooming. ");
            reveal_strlit(" Use --snapshot to print a single frame instead of entering the interactive viewer. ");
        }
        push_line(
            &mut lines,
            boxed_ascii(inner_width, " Focus cycles across all channels and then each individual channel. "),
        );
        push_line(
            &mut lines,
            boxed_ascii(
                inner_width,
                " The renderer uses a peak pyramid, so large files stay responsive while zooming. ",
            ),
        );
        push_line(
            &mut lines,
            boxed_ascii(
                inner_width,
                " Use --snapshot to print a single frame instead of entering the interactive viewer. ",
            ),
        );
    }
    push_line(&mut lines, border(width, "="));
    assert(strings_view(lines@) =~= frame_lines(
        width as int,
        inner_width as int,
        title@,
        info@,
        pv,
        show_help,
        color,
    ));
    join_with_newlines(&lines)
}

} // verus!
