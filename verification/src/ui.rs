//! The text of the sidebar: truncation to the sidebar's width, scrolling,
//! and the lines that each part of the screen shows.
use vstd::prelude::*;
use crate::text::{chars_of, decimal, push_decimal, push_range, push_str};
use crate::ports::{label_of, is_dev_port, rows_view, PortRow, RowView};
use crate::screen;
use crate::screen::ViewStatus;

verus! {

/// `s` cut to at most `max` characters by replacing its middle with `"..."`:
/// a string that fits is kept; otherwise, with room for more than the
/// ellipsis, the first half of the remaining room (rounded up) comes from the
/// front and the rest from the back; with less room only dots remain.
pub open spec fn truncated(s: Seq<char>, max: nat) -> Seq<char> {
    if s.len() <= max {
        s
    } else if max <= 3 {
        Seq::new(max, |i: int| '.')
    } else {
        let keep = (max - 3) as nat;
        let front = (keep + 1) / 2;
        let back = keep / 2;
        s.take(front as int) + seq!['.', '.', '.'] + s.skip(s.len() - back)
    }
}

/// Shortens `input` to `max_chars` characters, keeping its start and end.
pub fn middle_truncate(input: &str, max_chars: usize) -> (r: String)
    ensures
        r@ == truncated(input@, max_chars as nat),
{
    let chars = chars_of(input);
    let n = chars.len();
    if n <= max_chars {
        return String::from_str(input);
    }
    if max_chars == 0 {
        let r = String::new();
        assert(r@ =~= truncated(input@, 0));
        return r;
    }
    let mut r = String::new();
    if max_chars <= 3 {
        let mut i: usize = 0;
        while i < max_chars
            invariant
                i <= max_chars <= 3,
                r@ == Seq::new(i as nat, |k: int| '.'),
            decreases max_chars - i,
        {
            r.push('.');
            i = i + 1;
            assert(r@ =~= Seq::new(i as nat, |k: int| '.'));
        }
        return r;
    }
    let keep = max_chars - 3;
    let front = (keep + 1) / 2;
    let back = keep / 2;
    push_range(&mut r, chars.as_slice(), 0, front);
    r.push('.');
    r.push('.');
    r.push('.');
    push_range(&mut r, chars.as_slice(), n - back, n);
    assert(r@ =~= truncated(input@, max_chars as nat));
    r
}

/// The index of the first visible row when `visible_height` rows fit and
/// row `selected` of `total` is selected: the list scrolls only as far as
/// needed to show the selection, and never past its end.
pub open spec fn scroll_offset_of(selected: nat, visible_height: nat, total: nat) -> nat {
    if visible_height == 0 || total <= visible_height || selected < visible_height {
        0
    } else {
        let wanted = (selected + 1 - visible_height) as nat;
        let last = (total - visible_height) as nat;
        if wanted < last {
            wanted
        } else {
            last
        }
    }
}

pub fn scroll_offset(selected: usize, visible_height: usize, total: usize) -> (r: usize)
    ensures
        r == scroll_offset_of(selected as nat, visible_height as nat, total as nat),
{
    if visible_height == 0 || total <= visible_height || selected < visible_height {
        return 0;
    }
    let wanted = selected - visible_height + 1;
    let last = total - visible_height;
    if wanted < last {
        wanted
    } else {
        last
    }
}

// ---------------------------------------------------------------------------
// Lines of the screen
// ---------------------------------------------------------------------------

/// The foreground colours that the sidebar uses.
#[derive(Clone, Copy, Debug, PartialEq, Eq, Structural)]
pub enum LineColor {
    Cyan,
    Green,
    Yellow,
}

/// How a line is drawn.
#[derive(Clone, Copy, Debug, PartialEq, Eq, Structural)]
pub struct LineStyle {
    pub fg: Option<LineColor>,
    pub bold: bool,
    pub dim: bool,
    pub reversed: bool,
}

/// One line of text and its style.
pub struct StyledLine {
    pub text: String,
    pub style: LineStyle,
}

pub open spec fn plain() -> LineStyle {
    LineStyle { fg: None, bold: false, dim: false, reversed: false }
}

pub open spec fn dimmed() -> LineStyle {
    LineStyle { fg: None, bold: false, dim: true, reversed: false }
}

pub open spec fn bold() -> LineStyle {
    LineStyle { fg: None, bold: true, dim: false, reversed: false }
}

pub open spec fn line_view(l: StyledLine) -> (Seq<char>, LineStyle) {
    (l.text@, l.style)
}

pub open spec fn lines_view(v: Seq<StyledLine>) -> Seq<(Seq<char>, LineStyle)> {
    v.map_values(|l: StyledLine| line_view(l))
}

/// The status that the bottom line reports, as plain values.
pub enum StatusView {
    Ready(Seq<char>),
    Reconnecting(Seq<char>),
    ConfirmKill(RowView),
}

pub open spec fn status_view(s: ViewStatus) -> StatusView {
    match s {
        ViewStatus::Ready { message } => StatusView::Ready(message@),
        ViewStatus::Reconnecting { message } => StatusView::Reconnecting(message@),
        ViewStatus::ConfirmKill { row } => StatusView::ConfirmKill(row@),
    }
}

/// The header: the number of listening ports.
pub open spec fn header_text(count: nat) -> Seq<char> {
    "Listening ports ("@ + decimal(count) + seq![')']
}

pub fn header_line(count: usize, width: usize) -> (l: StyledLine)
    ensures
        line_view(l) == (truncated(header_text(count as nat), width as nat), bold()),
{
    let mut text = String::from_str("Listening ports (");
    push_decimal(&mut text, count as u64);
    text.push(')');
    let text = middle_truncate(text.as_str(), width);
    StyledLine { text, style: LineStyle { fg: None, bold: true, dim: false, reversed: false } }
}

/// The style of a row: new rows are green and bold, other development ports
/// cyan, and the selected row is drawn reversed.
pub open spec fn row_style(r: RowView, selected: bool) -> LineStyle {
    LineStyle {
        fg: if r.is_new {
            Some(LineColor::Green)
        } else if is_dev_port(r.port) {
            Some(LineColor::Cyan)
        } else {
            None
        },
        bold: r.is_new,
        dim: false,
        reversed: selected,
    }
}

pub fn row_line(row: &PortRow, width: usize, selected: bool) -> (l: StyledLine)
    ensures
        line_view(l) == (truncated(label_of(row@), width as nat), row_style(row@, selected)),
{
    let label = row.label();
    let text = middle_truncate(label.as_str(), width);
    let fg = if row.is_new {
        Some(LineColor::Green)
    } else if row.is_common_dev_port() {
        Some(LineColor::Cyan)
    } else {
        None
    };
    StyledLine { text, style: LineStyle { fg, bold: row.is_new, dim: false, reversed: selected } }
}

/// Lines of a message block: as many of `msgs` as fit in `height`, each
/// truncated to `width`.
pub open spec fn message_block(msgs: Seq<Seq<char>>, width: nat, height: nat) -> Seq<
    (Seq<char>, LineStyle),
> {
    let shown = if msgs.len() <= height {
        msgs.len()
    } else {
        height
    };
    Seq::new(shown, |i: int| (truncated(msgs[i], width), plain()))
}

fn message_lines(msgs: &[&str], width: usize, height: usize) -> (out: Vec<StyledLine>)
    ensures
        lines_view(out@) == message_block(msgs@.map_values(|m: &str| m@), width as nat, height as nat),
{
    let ghost want = message_block(msgs@.map_values(|m: &str| m@), width as nat, height as nat);
    let mut out: Vec<StyledLine> = Vec::new();
    let mut i: usize = 0;
    while i < msgs.len() && i < height
        invariant
            i <= msgs@.len(),
            i <= height,
            want == message_block(msgs@.map_values(|m: &str| m@), width as nat, height as nat),
            lines_view(out@) == want.take(i as int),
        decreases msgs@.len() - i,
    {
        let text = middle_truncate(msgs[i], width);
        let ghost before = out@;
        out.push(StyledLine { text, style: LineStyle { fg: None, bold: false, dim: false, reversed: false } });
        assert(lines_view(out@) == lines_view(before).push(line_view(out@[i as int])));
        i = i + 1;
        assert(want.take(i as int) =~= want.take(i - 1).push(want[i - 1]));
    }
    assert(want.take(i as int) =~= want);
    out
}

pub open spec fn reconnect_messages(message: Seq<char>) -> Seq<Seq<char>> {
    seq![
        "Reconnecting to cmux"@,
        message,
        "Set CMUX_TUI_SOCKET to the cmux-tui JSON-lines socket path."@,
    ]
}

pub open spec fn scan_error_messages(error: Seq<char>) -> Seq<Seq<char>> {
    seq!["Port scan error"@, error]
}

/// The lines of the list area: the reconnect notice while cmux is
/// unreachable, else the scan error, else a note that nothing listens, else
/// the rows scrolled so that the selection shows.
pub open spec fn body_of(
    rows: Seq<RowView>,
    selected: nat,
    scan_error: Option<Seq<char>>,
    status: StatusView,
    width: nat,
    height: nat,
) -> Seq<(Seq<char>, LineStyle)> {
    match status {
        StatusView::Reconnecting(message) => message_block(
            reconnect_messages(message),
            width,
            height,
        ),
        _ => if height == 0 {
            seq![]
        } else {
            match scan_error {
                Some(e) => message_block(scan_error_messages(e), width, height),
                None => if rows.len() == 0 {
                    seq![("No listening TCP ports"@, plain())]
                } else {
                    let offset = scroll_offset_of(selected, height, rows.len());
                    let shown = if rows.len() - offset <= height {
                        (rows.len() - offset) as nat
                    } else {
                        height
                    };
                    Seq::new(
                        shown,
                        |i: int|
                            (
                                truncated(label_of(rows[offset + i]), width),
                                row_style(rows[offset + i], offset + i == selected),
                            ),
                    )
                },
            }
        },
    }
}

pub open spec fn opt_view(o: Option<&str>) -> Option<Seq<char>> {
    match o {
        Some(s) => Some(s@),
        None => None,
    }
}

/// The lines of the list area for `view` in an area of the given size.
pub fn body_lines(view: &screen::View, width: usize, height: usize) -> (out: Vec<StyledLine>)
    ensures
        lines_view(out@) == body_of(
            rows_view(view.rows@),
            view.selected as nat,
            opt_view(view.scan_error),
            status_view(view.status),
            width as nat,
            height as nat,
        ),
{
    if let ViewStatus::Reconnecting { message } = view.status {
        let msgs = [
            "Reconnecting to cmux",
            message,
            "Set CMUX_TUI_SOCKET to the cmux-tui JSON-lines socket path.",
        ];
        let out = message_lines(&msgs, width, height);
        assert(msgs@.map_values(|m: &str| m@) =~= reconnect_messages(message@));
        return out;
    }
    if height == 0 {
        let out: Vec<StyledLine> = Vec::new();
        assert(lines_view(out@) =~= Seq::<(Seq<char>, LineStyle)>::empty());
        return out;
    }
    if let Some(error) = view.scan_error {
        let msgs = ["Port scan error", error];
        let out = message_lines(&msgs, width, height);
        assert(msgs@.map_values(|m: &str| m@) =~= scan_error_messages(error@));
        return out;
    }
    let total = view.rows.len();
    if total == 0 {
        let mut out: Vec<StyledLine> = Vec::new();
        out.push(
            StyledLine {
                text: String::from_str("No listening TCP ports"),
                style: LineStyle { fg: None, bold: false, dim: false, reversed: false },
            },
        );
        assert(lines_view(out@) =~= seq![("No listening TCP ports"@, plain())]);
        return out;
    }
    let ghost rows = rows_view(view.rows@);
    let ghost want = body_of(
        rows,
        view.selected as nat,
        opt_view(view.scan_error),
        status_view(view.status),
        width as nat,
        height as nat,
    );
    let offset = scroll_offset(view.selected, height, total);
    let shown = if total - offset <= height {
        total - offset
    } else {
        height
    };
    let mut out: Vec<StyledLine> = Vec::new();
    let mut i: usize = 0;
    while i < shown
        invariant
            i <= shown,
            offset + shown <= total == view.rows@.len(),
            rows == rows_view(view.rows@),
            want.len() == shown,
            forall|k: int|
                0 <= k < shown ==> #[trigger] want[k] == (
                    truncated(label_of(rows[offset + k]), width as nat),
                    row_style(rows[offset + k], offset + k == view.selected),
                ),
            lines_view(out@) == want.take(i as int),
        decreases shown - i,
    {
        let ghost before = out@;
        let line = row_line(&view.rows[offset + i], width, offset + i == view.selected);
        out.push(line);
        assert(lines_view(out@) == lines_view(before).push(line_view(out@[i as int])));
        i = i + 1;
        assert(want.take(i as int) =~= want.take(i - 1).push(want[i - 1]));
    }
    assert(want.take(i as int) =~= want);
    out
}

/// The bottom line.
pub open spec fn status_of(status: StatusView, width: nat) -> (Seq<char>, LineStyle) {
    match status {
        StatusView::Ready(message) => (truncated(message, width), dimmed()),
        StatusView::Reconnecting(_) => (truncated("Ctrl-C quit • Esc stays"@, width), dimmed()),
        StatusView::ConfirmKill(row) => (
            truncated(
                "SIGTERM "@ + row.process + " ("@ + decimal(row.pid as nat) + ")? y/n"@,
                width,
            ),
            LineStyle { fg: Some(LineColor::Yellow), bold: false, dim: false, reversed: false },
        ),
    }
}

pub fn status_line(status: ViewStatus, width: usize) -> (l: StyledLine)
    ensures
        line_view(l) == status_of(status_view(status), width as nat),
{
    let dim = LineStyle { fg: None, bold: false, dim: true, reversed: false };
    match status {
        ViewStatus::Ready { message } => StyledLine { text: middle_truncate(message, width), style: dim },
        ViewStatus::Reconnecting { .. } => StyledLine {
            text: middle_truncate("Ctrl-C quit • Esc stays", width),
            style: dim,
        },
        ViewStatus::ConfirmKill { row } => {
            let mut m = String::from_str("SIGTERM ");
            push_str(&mut m, row.process.as_str());
            push_str(&mut m, " (");
            push_decimal(&mut m, row.pid as u64);
            push_str(&mut m, ")? y/n");
            let text = middle_truncate(m.as_str(), width);
            StyledLine {
                text,
                style: LineStyle {
                    fg: Some(LineColor::Yellow),
                    bold: false,
                    dim: false,
                    reversed: false,
                },
            }
        },
    }
}

// ---------------------------------------------------------------------------
// Laws
// ---------------------------------------------------------------------------

/// A truncated string is exactly as long as the room it was given, unless it
/// already fit, in which case it is unchanged.
pub proof fn law_truncated_length(s: Seq<char>, max: nat)
    ensures
        truncated(s, max).len() == (if s.len() <= max { s.len() } else { max }),
        s.len() <= max ==> truncated(s, max) == s,
{
}

/// With room for more than the ellipsis, a truncated string keeps the start
/// and the end of the input around `"..."`, the start getting the larger
/// half of the room.
pub proof fn law_truncated_keeps_ends(s: Seq<char>, max: nat)
    requires
        s.len() > max > 3,
    ensures
        ({
            let front = (max - 2) / 2;
            let back = (max - 3) / 2;
            &&& truncated(s, max) == s.take(front as int) + seq!['.', '.', '.'] + s.skip(
                s.len() - back,
            )
            &&& front + 3 + back == max
            &&& front >= back
        }),
{
}

/// The selected row is always among the visible ones, and the visible
/// window never runs past the end of the list.
pub proof fn law_selection_visible(selected: nat, visible_height: nat, total: nat)
    requires
        visible_height > 0,
        selected < total,
    ensures
        scroll_offset_of(selected, visible_height, total) <= selected < scroll_offset_of(
            selected,
            visible_height,
            total,
        ) + visible_height,
        total > visible_height ==> scroll_offset_of(selected, visible_height, total)
            + visible_height <= total,
        total <= visible_height ==> scroll_offset_of(selected, visible_height, total) == 0,
{
}

/// New rows are green and bold; other rows on ports 3000 through 9999 are
/// cyan; the remaining rows have no colour; only the selected row is
/// reversed.
pub proof fn law_row_highlights(r: RowView, selected: bool)
    ensures
        r.is_new ==> row_style(r, selected).fg == Some(LineColor::Green) && row_style(
            r,
            selected,
        ).bold,
        !r.is_new && 3000 <= r.port <= 9999 ==> row_style(r, selected).fg == Some(
            LineColor::Cyan,
        ),
        !r.is_new && !(3000 <= r.port <= 9999) ==> row_style(r, selected).fg is None,
        row_style(r, selected).reversed == selected,
{
}

/// The list area never holds more lines than it is high.
pub proof fn law_body_fits(
    rows: Seq<RowView>,
    selected: nat,
    scan_error: Option<Seq<char>>,
    status: StatusView,
    width: nat,
    height: nat,
)
    ensures
        body_of(rows, selected, scan_error, status, width, height).len() <= height,
{
}

/// When the rows are listed, the selected row is shown exactly once
/// reversed, at its place in the visible window, and every other line is
/// not reversed.
pub proof fn law_selected_row_highlighted(
    rows: Seq<RowView>,
    selected: nat,
    status: StatusView,
    width: nat,
    height: nat,
)
    requires
        !(status is Reconnecting),
        height > 0,
        selected < rows.len(),
    ensures
        ({
            let body = body_of(rows, selected, None, status, width, height);
            let offset = scroll_offset_of(selected, height, rows.len());
            &&& 0 <= selected - offset < body.len()
            &&& body[selected - offset] == (
                truncated(label_of(rows[selected as int]), width),
                row_style(rows[selected as int], true),
            )
            &&& forall|i: int|
                0 <= i < body.len() && i != selected - offset ==> !(#[trigger] body[i]).1.reversed
        }),
{
    law_selection_visible(selected, height, rows.len());
}

/// When the rows are listed, line `i` of the list shows row `offset + i`,
/// where `offset` is the scroll offset: its label, green and bold when the
/// row is new, else cyan when its port is in 3000 through 9999, and reversed
/// exactly when it is the selected row, so every row keeps its highlight
/// whether or not it is selected. The window shows as many rows as fit.
pub proof fn law_listed_rows_keep_highlights(
    rows: Seq<RowView>,
    selected: nat,
    status: StatusView,
    width: nat,
    height: nat,
)
    requires
        !(status is Reconnecting),
        height > 0,
        rows.len() > 0,
    ensures
        ({
            let body = body_of(rows, selected, None, status, width, height);
            let offset = scroll_offset_of(selected, height, rows.len());
            &&& body.len() == (if rows.len() - offset <= height {
                rows.len() - offset
            } else {
                height as int
            })
            &&& forall|i: int|
                0 <= i < body.len() ==> {
                    let r = rows[offset + i];
                    let line = #[trigger] body[i];
                    &&& line.0 == truncated(label_of(r), width)
                    &&& line.1.fg == (if r.is_new {
                        Some(LineColor::Green)
                    } else if 3000 <= r.port <= 9999 {
                        Some(LineColor::Cyan)
                    } else {
                        None
                    })
                    &&& line.1.bold == r.is_new
                    &&& !line.1.dim
                    &&& line.1.reversed == (offset + i == selected)
                }
        }),
{
}

} // verus!
