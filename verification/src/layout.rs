//! Where each line of the sidebar goes: ratatui cuts the terminal into the
//! header, the list and the status line, and each line is placed in its band.
use vstd::prelude::*;
use ratatui::layout::{Constraint, Direction, Layout, Rect};
use crate::screen;
use crate::ports::rows_view;
use crate::ui::{
    body_lines, body_of, header_line, header_text, line_view, opt_view, status_line, status_of,
    status_view, truncated, bold, LineStyle, StyledLine,
};

verus! {

/// A rectangle of terminal cells: its left column, top row, width and height.
#[derive(Clone, Copy, Debug, PartialEq, Eq, Structural)]
pub struct Area {
    pub x: u16,
    pub y: u16,
    pub width: u16,
    pub height: u16,
}

/// How tall one band of a vertical layout is: exactly, or at least.
#[derive(Clone, Copy, Debug, PartialEq, Eq, Structural)]
pub enum Band {
    Length(u16),
    Min(u16),
}

/// The width that ratatui's `Rect::new` keeps: the columns up to the last
/// one of the terminal.
pub open spec fn clamped_width(area: Area) -> u16 {
    if area.width > u16::MAX - area.x {
        (u16::MAX - area.x) as u16
    } else {
        area.width
    }
}

/// The height that ratatui's `Rect::new` keeps.
pub open spec fn clamped_height(area: Area) -> u16 {
    if area.height > u16::MAX - area.y {
        (u16::MAX - area.y) as u16
    } else {
        area.height
    }
}

/// `part` spans the full width of `area` and lies within its rows.
pub open spec fn band_of(area: Area, part: Area) -> bool {
    &&& part.x == area.x
    &&& part.width == clamped_width(area)
    &&& area.y <= part.y
    &&& part.y + part.height <= area.y + clamped_height(area)
}

/// `next` starts on the row where `prev` ends.
pub open spec fn follows(prev: Area, next: Area) -> bool {
    next.y == prev.y + prev.height
}

/// The sidebar's bands, top to bottom: one row, at least none, one row.
pub open spec fn sidebar_bands() -> Seq<Band> {
    seq![Band::Length(1), Band::Min(0), Band::Length(1)]
}

/// Calls ratatui's `Layout::split` for a vertical layout with the default
/// `Flex::Start`, on the sidebar's bands. The contract claims what its
/// source shows of every outcome for these constraints. Three areas come
/// back, each with the column and the (clamped) width of `area` and within
/// its rows (the solver's required constraints keep every boundary between
/// the first and the last row, and `Rect::new` clamps the area). The first
/// starts on the top row and each of the others where the one before it
/// ends: the first spacer is held empty at a strength just under required,
/// and the two between the bands at size zero with a weight above the sum
/// of all weaker ones, so no optimum leaves a gap or an overlap. Together
/// the three cover the rows of `area`. With two rows or more the optimum is
/// unique: one row for each fixed band and the rest for the middle one.
/// With fewer the middle band is empty, and with a single row the solver's
/// optimum is tied between giving that row to the first or to the last
/// band; which one it picks follows the order in which cassowary walks its
/// hash maps, which std seeds anew in each process, so that split is not
/// stated, and the result gets no name.
#[verifier::external_body]
fn split_vertical(area: Area, bands: &[Band]) -> (areas: Vec<Area>)
    requires
        bands@ == sidebar_bands(),
    ensures
        areas@.len() == 3,
        forall|i: int| 0 <= i < 3 ==> band_of(area, #[trigger] areas@[i]),
        areas@[0].y == area.y,
        follows(areas@[0], areas@[1]),
        follows(areas@[1], areas@[2]),
        areas@[0].height + areas@[1].height + areas@[2].height == clamped_height(area),
        clamped_height(area) >= 2 ==> areas@[0].height == 1 && areas@[2].height == 1,
        clamped_height(area) < 2 ==> areas@[1].height == 0,
{
    let constraints: Vec<Constraint> = bands.iter().map(|band| match *band {
        Band::Length(n) => Constraint::Length(n),
        Band::Min(n) => Constraint::Min(n),
    }).collect();
    let rects = Layout::default().direction(Direction::Vertical).constraints(constraints).split(
        Rect::new(area.x, area.y, area.width, area.height),
    );
    rects.iter().map(|r| Area { x: r.x, y: r.y, width: r.width, height: r.height }).collect()
}

/// The three bands of the sidebar.
#[derive(Clone, Copy, Debug, PartialEq, Eq, Structural)]
pub struct Areas {
    pub header: Area,
    pub list: Area,
    pub status: Area,
}

/// The sidebar on a terminal of two rows or more: the header on the top
/// row, the status line on the bottom row and the list on the rows between,
/// each as wide as the terminal.
pub open spec fn tall_split(screen_area: Area) -> Areas {
    let w = clamped_width(screen_area);
    let h = clamped_height(screen_area);
    Areas {
        header: Area { x: screen_area.x, y: screen_area.y, width: w, height: 1 },
        list: Area {
            x: screen_area.x,
            y: (screen_area.y + 1) as u16,
            width: w,
            height: (h - 2) as u16,
        },
        status: Area { x: screen_area.x, y: (screen_area.y + h - 1) as u16, width: w, height: 1 },
    }
}

/// How the sidebar is cut. Each band spans the terminal's width and lies
/// within its rows; the header starts on the top row, the list right below
/// it and the status right below the list, and together they cover every
/// row. With two rows or more that is `tall_split`; with fewer the list is
/// empty.
pub open spec fn splits(screen_area: Area, a: Areas) -> bool {
    &&& band_of(screen_area, a.header)
    &&& band_of(screen_area, a.list)
    &&& band_of(screen_area, a.status)
    &&& a.header.y == screen_area.y
    &&& follows(a.header, a.list)
    &&& follows(a.list, a.status)
    &&& a.header.height + a.list.height + a.status.height == clamped_height(screen_area)
    &&& clamped_height(screen_area) >= 2 ==> a == tall_split(screen_area)
    &&& clamped_height(screen_area) < 2 ==> a.list.height == 0
}

/// Cuts the terminal into the header, the list and the status line, with
/// ratatui's layout for one row, the rest, and one row.
pub fn sidebar_areas(screen_area: Area) -> (a: Areas)
    ensures
        splits(screen_area, a),
{
    let bands = [Band::Length(1), Band::Min(0), Band::Length(1)];
    assert(bands@ == sidebar_bands());
    let parts = split_vertical(screen_area, &bands);
    let a = Areas { header: parts[0], list: parts[1], status: parts[2] };
    assert(band_of(screen_area, parts@[0]) && band_of(screen_area, parts@[1]) && band_of(
        screen_area,
        parts@[2],
    ));
    a
}

/// A line and the area it is drawn in.
pub struct Placed {
    pub area: Area,
    pub line: StyledLine,
}

pub open spec fn placed_view(p: Placed) -> (Area, (Seq<char>, LineStyle)) {
    (p.area, line_view(p.line))
}

pub open spec fn placed_seq_view(v: Seq<Placed>) -> Seq<(Area, (Seq<char>, LineStyle))> {
    v.map_values(|p: Placed| placed_view(p))
}

/// The one-row area of the `i`th line of the list.
pub open spec fn list_row(list: Area, i: int) -> Area {
    Area {
        x: list.x,
        y: if list.y + i > u16::MAX {
            u16::MAX
        } else {
            (list.y + i) as u16
        },
        width: list.width,
        height: 1,
    }
}

/// Everything the sidebar draws, given its three bands: the header, the
/// lines of the list one per row from the top of the list, and the status.
pub open spec fn screen_of(
    rows: Seq<crate::ports::RowView>,
    selected: nat,
    scan_error: Option<Seq<char>>,
    status: crate::ui::StatusView,
    areas: Areas,
) -> Seq<(Area, (Seq<char>, LineStyle))> {
    let body = body_of(
        rows,
        selected,
        scan_error,
        status,
        areas.list.width as nat,
        areas.list.height as nat,
    );
    seq![(areas.header, (truncated(header_text(rows.len()), areas.header.width as nat), bold()))]
        + Seq::new(body.len(), |i: int| (list_row(areas.list, i), body[i])) + seq![
        (areas.status, status_of(status, areas.status.width as nat)),
    ]
}

/// Places every line of `view` in the given bands.
pub fn screen_plan(view: &screen::View, areas: &Areas) -> (plan: Vec<Placed>)
    ensures
        placed_seq_view(plan@) == screen_of(
            rows_view(view.rows@),
            view.selected as nat,
            opt_view(view.scan_error),
            status_view(view.status),
            *areas,
        ),
{
    let ghost want = screen_of(
        rows_view(view.rows@),
        view.selected as nat,
        opt_view(view.scan_error),
        status_view(view.status),
        *areas,
    );
    let mut plan: Vec<Placed> = Vec::new();
    plan.push(Placed { area: areas.header, line: header_line(view.rows.len(), areas.header.width as usize) });
    let mut lines = body_lines(view, areas.list.width as usize, areas.list.height as usize);
    let ghost body = crate::ui::lines_view(lines@);
    let n = lines.len();
    let mut i: usize = 0;
    while i < n
        invariant
            i <= n == body.len(),
            lines@.len() == n - i,
            forall|k: int| 0 <= k < n - i ==> line_view(#[trigger] lines@[k]) == body[i + k],
            plan@.len() == 1 + i,
            placed_seq_view(plan@) == want.take(1 + i as int),
            want == screen_of(
                rows_view(view.rows@),
                view.selected as nat,
                opt_view(view.scan_error),
                status_view(view.status),
                *areas,
            ),
            body == body_of(
                rows_view(view.rows@),
                view.selected as nat,
                opt_view(view.scan_error),
                status_view(view.status),
                areas.list.width as nat,
                areas.list.height as nat,
            ),
        decreases n - i,
    {
        let line = lines.remove(0);
        let y: u16 = if areas.list.y as u64 + i as u64 > u16::MAX as u64 {
            u16::MAX
        } else {
            areas.list.y + i as u16
        };
        let ghost before = plan@;
        plan.push(Placed { area: Area { x: areas.list.x, y, width: areas.list.width, height: 1 }, line });
        proof {
            assert(placed_seq_view(plan@) == placed_seq_view(before).push(placed_view(plan@[1 + i as int])));
            assert(want[1 + i as int] == (list_row(areas.list, i as int), body[i as int]));
            assert(want.take(2 + i as int) == want.take(1 + i as int).push(want[1 + i as int]));
        }
        i = i + 1;
    }
    let ghost before = plan@;
    plan.push(Placed { area: areas.status, line: status_line(view.status, areas.status.width as usize) });
    assert(placed_seq_view(plan@) == placed_seq_view(before).push(placed_view(plan@[1 + n as int])));
    assert(want.take(2 + n as int) == want);
    plan
}

/// Everything the sidebar draws on a terminal of the given size: the lines
/// that `screen_plan` places in the bands that ratatui cut.
pub fn draw_plan(view: &screen::View, screen_area: Area) -> (plan: Vec<Placed>)
    ensures
        exists|areas: Areas|
            #[trigger] splits(screen_area, areas) && placed_seq_view(plan@) == screen_of(
                rows_view(view.rows@),
                view.selected as nat,
                opt_view(view.scan_error),
                status_view(view.status),
                areas,
            ),
{
    let areas = sidebar_areas(screen_area);
    let plan = screen_plan(view, &areas);
    assert(splits(screen_area, areas));
    plan
}

} // verus!
