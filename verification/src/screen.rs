//! How the terminal is divided: the pane area, the system dashboard or
//! side panels, the accessory strip and the status bar.

use ratatui::layout::{Constraint, Direction, Layout};
use vstd::prelude::*;

use crate::layout::rects_apart;
use crate::rect::{clipped_rect, rect_within, Rect};

verus! {

/// Where the system overview goes.
#[derive(Debug, Clone, Copy, PartialEq, Eq, Structural)]
pub enum SystemRegion {
    /// A dashboard band above the panes.
    Dashboard(Rect),
    /// A side panel left of the panes.
    SidePanel(Rect),
}

/// The regions of the screen.
#[derive(Debug, Clone, Copy, PartialEq, Eq, Structural)]
pub struct Regions {
    pub panes: Rect,
    pub system: Option<SystemRegion>,
    pub network: Option<Rect>,
    pub accessory: Option<Rect>,
    pub status: Rect,
}

// ---------------------------------------------------------------------------
// Sizes

/// The height of the status bar: none on an empty screen, one row up to 11
/// rows, two up to 17, three beyond.
pub open spec fn status_bar_height_spec(total: u16) -> u16 {
    if total == 0 {
        0
    } else if total <= 11 {
        1
    } else if total <= 17 {
        2
    } else {
        3
    }
}

/// The height of the dashboard band: none below 18 rows, otherwise 45% of
/// the content clamped to 8..=18 and leaving at least 6 rows.
pub open spec fn dashboard_height_spec(content: u16) -> u16 {
    if content < 18 {
        0
    } else {
        let preferred = ((content as int * 45) / 100) as u16;
        let clamped = if preferred < 8 {
            8
        } else if preferred > 18 {
            18
        } else {
            preferred
        };
        let limit = (content - 6) as u16;
        if clamped <= limit {
            clamped
        } else {
            limit
        }
    }
}

/// The height of the accessory strip below the panes: none when narrower
/// than 80 or lower than 11 rows, otherwise 7 rows leaving at least 5.
pub open spec fn accessory_height_spec(width: u16, available: u16) -> u16 {
    if width < 80 || available < 11 {
        0
    } else if 7 <= available - 5 {
        7
    } else {
        (available - 5) as u16
    }
}

/// The height of the accessory strip in the side-panel layout: none when
/// narrower than 96 or lower than 25 rows, otherwise a quarter of the
/// content clamped to 7..=12 and leaving at least 14 rows.
pub open spec fn edex_accessory_height_spec(width: u16, content: u16) -> u16 {
    if width < 96 || content < 25 {
        0
    } else {
        let quarter = content / 4;
        let preferred = if quarter < 7 {
            7
        } else if quarter > 12 {
            12
        } else {
            quarter
        };
        let limit = (content - 14) as u16;
        if preferred <= limit {
            preferred
        } else {
            limit
        }
    }
}

/// The width of each side panel: 22 columns below 110, 26 below 140, 31
/// beyond.
pub open spec fn side_panel_width_spec(width: u16) -> u16 {
    if width <= 109 {
        22
    } else if width <= 139 {
        26
    } else {
        31
    }
}

fn dashboard_height(content_height: u16) -> (r: u16)
    ensures
        r == dashboard_height_spec(content_height),
{
    if content_height < 18 {
        return 0;
    }
    let preferred = ((content_height as u32 * 45) / 100) as u16;
    let clamped = if preferred < 8 {
        8
    } else if preferred > 18 {
        18
    } else {
        preferred
    };
    let limit = content_height.saturating_sub(6);
    if clamped <= limit {
        clamped
    } else {
        limit
    }
}

fn status_bar_height(total_height: u16) -> (r: u16)
    ensures
        r == status_bar_height_spec(total_height),
{
    match total_height {
        0 => 0,
        1..=11 => 1,
        12..=17 => 2,
        _ => 3,
    }
}

fn accessory_height(width: u16, available_height: u16) -> (r: u16)
    ensures
        r == accessory_height_spec(width, available_height),
{
    if width < 80 || available_height < 11 {
        return 0;
    }
    let limit = available_height.saturating_sub(5);
    if 7 <= limit {
        7
    } else {
        limit
    }
}

fn edex_accessory_height(width: u16, content_height: u16) -> (r: u16)
    ensures
        r == edex_accessory_height_spec(width, content_height),
{
    if width < 96 || content_height < 25 {
        return 0;
    }
    let quarter = content_height / 4;
    let preferred = if quarter < 7 {
        7
    } else if quarter > 12 {
        12
    } else {
        quarter
    };
    let limit = content_height.saturating_sub(14);
    if preferred <= limit {
        preferred
    } else {
        limit
    }
}

fn side_panel_width(width: u16) -> (r: u16)
    ensures
        r == side_panel_width_spec(width),
{
    match width {
        0..=109 => 22,
        110..=139 => 26,
        _ => 31,
    }
}

// ---------------------------------------------------------------------------
// The regions

/// The side-panel layout: system panel, panes and network panel side by
/// side above a full-width accessory strip; `None` when the content is too
/// small for it (under 96 by 22, under 14 rows above the strip, or under
/// 34 columns left for the panes).
pub open spec fn edex_regions(content: Rect, status: Rect) -> Option<Regions> {
    if content.width < 96 || content.height < 22 {
        None
    } else {
        let acc_height = edex_accessory_height_spec(content.width, content.height);
        let top_height = (content.height - acc_height) as u16;
        if top_height < 14 {
            None
        } else {
            let side_width = side_panel_width_spec(content.width);
            let panes_width = content.width.saturating_sub(side_width).saturating_sub(side_width);
            if panes_width < 34 {
                None
            } else {
                let top_y = content.y;
                let accessory_y = content.y.saturating_add(top_height);
                let system = clipped_rect(content.x, top_y, side_width, top_height);
                let panes = clipped_rect(content.x.saturating_add(side_width), top_y, panes_width, top_height);
                let network = clipped_rect(panes.x.saturating_add(panes_width), top_y, side_width, top_height);
                Some(Regions {
                    panes,
                    system: Some(SystemRegion::SidePanel(system)),
                    network: Some(network),
                    accessory: if acc_height > 0 {
                        Some(clipped_rect(content.x, accessory_y, content.width, acc_height))
                    } else {
                        None
                    },
                    status,
                })
            }
        }
    }
}

/// The regions of `area`: the status bar at the bottom; without the system
/// panel (or under 50 by 18) the panes take the rest; the side-panel layout
/// when it fits; otherwise a dashboard band on top, the panes, and an
/// accessory strip below them when there is room.
pub open spec fn regions_spec(area: Rect, show_system: bool) -> Regions {
    let status_height = status_bar_height_spec(area.height);
    let content = clipped_rect(area.x, area.y, area.width, (area.height - status_height) as u16);
    let status = clipped_rect(area.x, area.y.saturating_add(content.height), area.width, status_height);
    if !show_system || content.width < 50 || content.height < 18 {
        Regions { panes: content, system: None, network: None, accessory: None, status }
    } else if edex_regions(content, status) is Some {
        edex_regions(content, status).unwrap()
    } else {
        let system_height = dashboard_height_spec(content.height);
        let remaining_height = (content.height - system_height) as u16;
        let acc_height = accessory_height_spec(content.width, remaining_height);
        let panes_height = (remaining_height - acc_height) as u16;
        let panes_y = content.y.saturating_add(system_height);
        Regions {
            panes: clipped_rect(content.x, panes_y, content.width, panes_height),
            system: Some(
                SystemRegion::Dashboard(clipped_rect(content.x, content.y, content.width, system_height)),
            ),
            network: None,
            accessory: if acc_height > 0 {
                Some(
                    clipped_rect(content.x, panes_y.saturating_add(panes_height), content.width, acc_height),
                )
            } else {
                None
            },
            status,
        }
    }
}

impl Regions {
    /// Divides `area`; the system panel only when `show_system`.
    pub fn from(area: Rect, show_system: bool) -> (r: Regions)
        ensures
            r == regions_spec(area, show_system),
            area.x + area.width <= u16::MAX && area.y + area.height <= u16::MAX ==> regions_tile(area, r)
                && regions_apart(r),
    {
        proof {
            if area.x + area.width <= u16::MAX && area.y + area.height <= u16::MAX {
                law_regions_tile(area, show_system);
                law_regions_apart(area, show_system);
            }
        }
        let status_height = status_bar_height(area.height);
        let content = Rect::new(area.x, area.y, area.width, area.height.saturating_sub(status_height));
        let status = Rect::new(area.x, area.y.saturating_add(content.height), area.width, status_height);

        if !show_system || content.width < 50 || content.height < 18 {
            return Regions { panes: content, system: None, network: None, accessory: None, status };
        }
        if let Some(edex) = Self::edex(content, status) {
            return edex;
        }
        let system_height = dashboard_height(content.height);
        let remaining_height = content.height.saturating_sub(system_height);
        let acc_height = accessory_height(content.width, remaining_height);
        let panes_height = remaining_height.saturating_sub(acc_height);
        let panes_y = content.y.saturating_add(system_height);
        Regions {
            panes: Rect::new(content.x, panes_y, content.width, panes_height),
            system: Some(SystemRegion::Dashboard(Rect::new(content.x, content.y, content.width, system_height))),
            network: None,
            accessory: if acc_height > 0 {
                Some(Rect::new(content.x, panes_y.saturating_add(panes_height), content.width, acc_height))
            } else {
                None
            },
            status,
        }
    }

    fn edex(content: Rect, status: Rect) -> (r: Option<Regions>)
        ensures
            r == edex_regions(content, status),
    {
        if content.width < 96 || content.height < 22 {
            return None;
        }
        let acc_height = edex_accessory_height(content.width, content.height);
        let top_height = content.height.saturating_sub(acc_height);
        if top_height < 14 {
            return None;
        }
        let side_width = side_panel_width(content.width);
        let network_width = side_width;
        let panes_width = content.width.saturating_sub(side_width).saturating_sub(network_width);
        if panes_width < 34 {
            return None;
        }
        let top_y = content.y;
        let accessory_y = content.y.saturating_add(top_height);
        let system = Rect::new(content.x, top_y, side_width, top_height);
        let panes = Rect::new(content.x.saturating_add(side_width), top_y, panes_width, top_height);
        let network = Rect::new(panes.x.saturating_add(panes_width), top_y, network_width, top_height);
        let accessory = if acc_height > 0 {
            Some(Rect::new(content.x, accessory_y, content.width, acc_height))
        } else {
            None
        };
        Some(Regions {
            panes,
            system: Some(SystemRegion::SidePanel(system)),
            network: Some(network),
            accessory,
            status,
        })
    }
}

/// The area the panes get within `area`.
pub fn pane_region(area: Rect, show_system: bool) -> (r: Rect)
    ensures
        r == regions_spec(area, show_system).panes,
{
    Regions::from(area, show_system).panes
}

// ---------------------------------------------------------------------------
// The accessory strip

/// A column of a horizontal layout: a fixed width, or at least a width.
#[derive(Debug, Clone, Copy, PartialEq, Eq, Structural)]
pub enum ColumnConstraint {
    Length(u16),
    Min(u16),
}

/// The columns that `ratatui`'s layout solver gives `area` for the
/// constraints, left to right.
pub uninterp spec fn solved_columns(area: Rect, constraints: Seq<ColumnConstraint>) -> Seq<Rect>;

/// Splits `area` into columns with `ratatui::layout::Layout`.
///
/// Trusted: the result is named `solved_columns` of the area and the
/// constraints, and there is one column per constraint (the solver makes
/// one segment per constraint); how it places the columns is not restated.
#[verifier::external_body]
fn solve_columns(area: Rect, constraints: &Vec<ColumnConstraint>) -> (columns: Vec<Rect>)
    ensures
        columns@ == solved_columns(area, constraints@),
        columns@.len() == constraints@.len(),
{
    let mut asked = Vec::new();
    for c in constraints.iter() {
        asked.push(match *c {
            ColumnConstraint::Length(n) => Constraint::Length(n),
            ColumnConstraint::Min(n) => Constraint::Min(n),
        });
    }
    let layout = Layout::default().direction(Direction::Horizontal).constraints(asked);
    let solved = layout.split(ratatui::layout::Rect::new(area.x, area.y, area.width, area.height));
    let mut columns = Vec::new();
    for r in solved.iter() {
        columns.push(Rect { x: r.x, y: r.y, width: r.width, height: r.height });
    }
    columns
}

/// Where the filesystem listing and the keyboard go in the accessory strip.
#[derive(Debug, Clone, Copy, PartialEq, Eq, Structural)]
pub struct AccessoryAreas {
    pub filesystem: Option<Rect>,
    pub keyboard: Option<Rect>,
}

/// The columns asked for: a 34-cell listing beside a keyboard of at least
/// 20 cells on strips 120 cells wide or more, else the keyboard alone.
pub open spec fn accessory_constraints(width: u16) -> Seq<ColumnConstraint> {
    if width >= 120 {
        seq![ColumnConstraint::Length(34), ColumnConstraint::Min(20)]
    } else {
        seq![ColumnConstraint::Min(20)]
    }
}

/// The areas from the solved columns: with two columns the listing takes
/// the first and the keyboard the second; with one or more otherwise, the
/// keyboard takes the first.
pub open spec fn accessory_from_spec(columns: Seq<Rect>) -> AccessoryAreas {
    if columns.len() == 2 {
        AccessoryAreas { filesystem: Some(columns[0]), keyboard: Some(columns[1]) }
    } else if columns.len() > 0 {
        AccessoryAreas { filesystem: None, keyboard: Some(columns[0]) }
    } else {
        AccessoryAreas { filesystem: None, keyboard: None }
    }
}

/// The areas from the solved columns (see `accessory_from_spec`).
pub fn accessory_from_columns(columns: &Vec<Rect>) -> (areas: AccessoryAreas)
    ensures
        areas == accessory_from_spec(columns@),
{
    if columns.len() == 2 {
        AccessoryAreas { filesystem: Some(columns[0]), keyboard: Some(columns[1]) }
    } else if columns.len() > 0 {
        AccessoryAreas { filesystem: None, keyboard: Some(columns[0]) }
    } else {
        AccessoryAreas { filesystem: None, keyboard: None }
    }
}

/// Divides the accessory strip `area` between the listing and the
/// keyboard; nothing on an empty strip.
pub fn accessory_areas(area: Rect) -> (areas: AccessoryAreas)
    ensures
        area.width == 0 || area.height == 0 ==> areas == (AccessoryAreas { filesystem: None, keyboard: None }),
        area.width > 0 && area.height > 0 ==> areas == accessory_from_spec(
            solved_columns(area, accessory_constraints(area.width)),
        ),
        area.width > 0 && area.height > 0 ==> areas.keyboard is Some,
        areas.filesystem is Some <==> (area.width >= 120 && area.height > 0),
{
    if area.width == 0 || area.height == 0 {
        return AccessoryAreas { filesystem: None, keyboard: None };
    }
    let mut constraints: Vec<ColumnConstraint> = Vec::new();
    if area.width >= 120 {
        constraints.push(ColumnConstraint::Length(34));
        constraints.push(ColumnConstraint::Min(20));
    } else {
        constraints.push(ColumnConstraint::Min(20));
    }
    assert(constraints@ =~= accessory_constraints(area.width));
    let columns = solve_columns(area, &constraints);
    accessory_from_columns(&columns)
}

// ---------------------------------------------------------------------------
// The dashboard band

/// How the inside of the dashboard is used under its scanline row.
#[derive(Debug, Clone, Copy, PartialEq, Eq, Structural)]
pub enum DashboardLayout {
    /// No row left.
    Nothing,
    /// Fewer than eight rows: a compact summary in this area.
    Compact(Rect),
    /// Two bands of cards: the top takes half the rows (at least four),
    /// the bottom the rest.
    Cards { top: Rect, bottom: Rect },
}

/// The use of the dashboard's inside `inner`, the first row going to the
/// scanline.
pub open spec fn dashboard_layout_spec(inner: Rect) -> DashboardLayout {
    let content = clipped_rect(inner.x, inner.y.saturating_add(1), inner.width, inner.height.saturating_sub(1));
    if content.height == 0 {
        DashboardLayout::Nothing
    } else if content.height < 8 {
        DashboardLayout::Compact(content)
    } else {
        let top_height = if content.height / 2 >= 4 { content.height / 2 } else { 4 };
        DashboardLayout::Cards {
            top: clipped_rect(content.x, content.y, content.width, top_height),
            bottom: clipped_rect(
                content.x,
                content.y.saturating_add(top_height),
                content.width,
                content.height.saturating_sub(top_height),
            ),
        }
    }
}

/// The use of the dashboard's inside (see `dashboard_layout_spec`).
pub fn dashboard_layout(inner: Rect) -> (layout: DashboardLayout)
    ensures
        layout == dashboard_layout_spec(inner),
{
    let content = Rect::new(inner.x, inner.y.saturating_add(1), inner.width, inner.height.saturating_sub(1));
    if content.height == 0 {
        DashboardLayout::Nothing
    } else if content.height < 8 {
        DashboardLayout::Compact(content)
    } else {
        let top_height = if content.height / 2 >= 4 { content.height / 2 } else { 4 };
        DashboardLayout::Cards {
            top: Rect::new(content.x, content.y, content.width, top_height),
            bottom: Rect::new(
                content.x,
                content.y.saturating_add(top_height),
                content.width,
                content.height.saturating_sub(top_height),
            ),
        }
    }
}

/// Every region lies within the screen area, the status bar takes the
/// bottom rows, and the panes end above it.
pub proof fn law_regions_within_area(area: Rect, show_system: bool)
    requires
        area.x + area.width <= u16::MAX,
        area.y + area.height <= u16::MAX,
    ensures
        rect_within(regions_spec(area, show_system).panes, area),
        rect_within(regions_spec(area, show_system).status, area),
        regions_spec(area, show_system).status.y + regions_spec(area, show_system).status.height
            == area.y + area.height,
        regions_spec(area, show_system).panes.y + regions_spec(area, show_system).panes.height
            <= regions_spec(area, show_system).status.y,
        regions_spec(area, show_system).system matches Some(SystemRegion::Dashboard(r)) ==> rect_within(r, area),
        regions_spec(area, show_system).system matches Some(SystemRegion::SidePanel(r)) ==> rect_within(r, area),
        regions_spec(area, show_system).network matches Some(r) ==> rect_within(r, area),
        regions_spec(area, show_system).accessory matches Some(r) ==> rect_within(r, area)
            && r.y + r.height <= regions_spec(area, show_system).status.y,
{
    let status_height = status_bar_height_spec(area.height);
    let content = clipped_rect(area.x, area.y, area.width, (area.height - status_height) as u16);
    let status = clipped_rect(area.x, area.y.saturating_add(content.height), area.width, status_height);
    assert(content == Rect { x: area.x, y: area.y, width: area.width, height: (area.height - status_height) as u16 });
    assert(status.y + status.height == area.y + area.height);
    if show_system && content.width >= 50 && content.height >= 18 {
        if edex_regions(content, status) is Some {
            let acc_height = edex_accessory_height_spec(content.width, content.height);
            let top_height = (content.height - acc_height) as u16;
            let side_width = side_panel_width_spec(content.width);
            let panes_width = content.width.saturating_sub(side_width).saturating_sub(side_width);
            assert(panes_width == content.width - 2 * side_width);
        }
    }
}

/// The rectangle of the system region.
pub open spec fn system_rect(s: SystemRegion) -> Rect {
    match s {
        SystemRegion::Dashboard(r) => r,
        SystemRegion::SidePanel(r) => r,
    }
}

/// The regions share no cell: the panes, the system region, the network
/// panel, the accessory strip and the status bar are pairwise apart.
pub open spec fn regions_apart(r: Regions) -> bool {
    &&& rects_apart(r.panes, r.status)
    &&& r.system matches Some(s) ==> rects_apart(r.panes, system_rect(s)) && rects_apart(
        system_rect(s),
        r.status,
    )
    &&& r.network matches Some(n) ==> rects_apart(r.panes, n) && rects_apart(n, r.status)
    &&& r.system matches Some(s) ==> (r.network matches Some(n) ==> rects_apart(system_rect(s), n))
    &&& r.accessory matches Some(a) ==> rects_apart(r.panes, a) && rects_apart(a, r.status)
    &&& r.system matches Some(s) ==> (r.accessory matches Some(a) ==> rects_apart(system_rect(s), a))
    &&& r.network matches Some(n) ==> (r.accessory matches Some(a) ==> rects_apart(n, a))
}

/// The regions tile `area`: the status bar spans the bottom rows; above it
/// the accessory strip (when there is one) spans the width right under the
/// panes; a dashboard spans the top rows with the panes right under it; side
/// panels of equal width flank the panes left (system) and right (network)
/// over the same rows; without a system region the panes take the top.
pub open spec fn regions_tile(area: Rect, r: Regions) -> bool {
    let panes_bottom = r.panes.y + r.panes.height;
    &&& r.status.x == area.x && r.status.width == area.width
    &&& r.status.y + r.status.height == area.y + area.height
    &&& match r.accessory {
        Some(a) => a.x == area.x && a.width == area.width && a.height > 0 && a.y == panes_bottom && a.y
            + a.height == r.status.y,
        None => panes_bottom == r.status.y,
    }
    &&& match r.system {
        None => r.network is None && r.panes.x == area.x && r.panes.width == area.width && r.panes.y
            == area.y,
        Some(SystemRegion::Dashboard(d)) => r.network is None && d.x == area.x && d.width == area.width
            && d.y == area.y && d.height > 0 && r.panes.y == d.y + d.height && r.panes.x == area.x
            && r.panes.width == area.width,
        Some(SystemRegion::SidePanel(s)) => r.network matches Some(n) && s.x == area.x && r.panes.x
            == s.x + s.width && n.x == r.panes.x + r.panes.width && n.x + n.width == area.x + area.width
            && s.width == n.width && s.y == area.y && r.panes.y == area.y && n.y == area.y && s.height
            == r.panes.height && n.height == r.panes.height,
    }
}

/// The regions tile the screen (see `regions_tile`).
pub proof fn law_regions_tile(area: Rect, show_system: bool)
    requires
        area.x + area.width <= u16::MAX,
        area.y + area.height <= u16::MAX,
    ensures
        regions_tile(area, regions_spec(area, show_system)),
{
    let status_height = status_bar_height_spec(area.height);
    let content = clipped_rect(area.x, area.y, area.width, (area.height - status_height) as u16);
    let status = clipped_rect(area.x, area.y.saturating_add(content.height), area.width, status_height);
    assert(content == Rect { x: area.x, y: area.y, width: area.width, height: (area.height - status_height) as u16 });
    assert(status.y + status.height == area.y + area.height);
    if show_system && content.width >= 50 && content.height >= 18 {
        if edex_regions(content, status) is Some {
            let acc_height = edex_accessory_height_spec(content.width, content.height);
            let top_height = (content.height - acc_height) as u16;
            let side_width = side_panel_width_spec(content.width);
            let panes_width = content.width.saturating_sub(side_width).saturating_sub(side_width);
            assert(panes_width == content.width - 2 * side_width);
        } else {
            let system_height = dashboard_height_spec(content.height);
            assert(system_height >= 8);
        }
    }
}

/// The regions never overlap (see `regions_apart`).
pub proof fn law_regions_apart(area: Rect, show_system: bool)
    requires
        area.x + area.width <= u16::MAX,
        area.y + area.height <= u16::MAX,
    ensures
        regions_apart(regions_spec(area, show_system)),
{
    law_regions_tile(area, show_system);
}

/// How big the regions get: the status bar takes one to three rows (none on
/// an empty screen); the system region appears exactly when it is asked for
/// and the screen above the status bar is at least 50 by 18; a dashboard
/// takes 8 to 18 rows and leaves the panes at least 5; side panels are 22
/// to 31 columns wide and leave the panes at least 34 columns and 14 rows;
/// the accessory strip takes at most 12 rows.
pub proof fn law_region_sizes(area: Rect, show_system: bool)
    requires
        area.x + area.width <= u16::MAX,
        area.y + area.height <= u16::MAX,
    ensures
        regions_spec(area, show_system).status.height <= 3,
        area.height > 0 ==> regions_spec(area, show_system).status.height >= 1,
        regions_spec(area, show_system).system is Some <==> (show_system && area.width >= 50
            && area.height - regions_spec(area, show_system).status.height >= 18),
        regions_spec(area, show_system).system is None ==> regions_spec(area, show_system).network is None
            && regions_spec(area, show_system).accessory is None,
        regions_spec(area, show_system).system matches Some(SystemRegion::Dashboard(d)) ==> 8 <= d.height
            <= 18 && regions_spec(area, show_system).panes.height >= 5,
        regions_spec(area, show_system).system matches Some(SystemRegion::SidePanel(s)) ==> 22 <= s.width
            <= 31 && regions_spec(area, show_system).panes.width >= 34 && regions_spec(
            area,
            show_system,
        ).panes.height >= 14,
        regions_spec(area, show_system).accessory matches Some(a) ==> a.height <= 12,
{
    let status_height = status_bar_height_spec(area.height);
    let content = clipped_rect(area.x, area.y, area.width, (area.height - status_height) as u16);
    let status = clipped_rect(area.x, area.y.saturating_add(content.height), area.width, status_height);
    assert(content == Rect { x: area.x, y: area.y, width: area.width, height: (area.height - status_height) as u16 });
    if show_system && content.width >= 50 && content.height >= 18 {
        if edex_regions(content, status) is Some {
            let side_width = side_panel_width_spec(content.width);
            let panes_width = content.width.saturating_sub(side_width).saturating_sub(side_width);
            assert(panes_width == content.width - 2 * side_width);
        } else {
            let system_height = dashboard_height_spec(content.height);
            assert(8 <= system_height <= 18);
        }
    }
}

} // verus!
