use paneview::rect::Rect;
use paneview::screen::{accessory_areas, dashboard_layout, pane_region, DashboardLayout, Regions, SystemRegion};

#[test]
fn tui_wide_terminal_uses_edex_regions() {
    let regions = Regions::from(Rect::new(0, 0, 130, 36), true);

    assert!(matches!(regions.system, Some(SystemRegion::SidePanel(_))));
    assert!(regions.network.is_some());
    assert!(regions.accessory.is_some());
    assert!(regions.panes.width >= 34);
}

#[test]
fn tui_narrow_terminal_keeps_pane_area_usable() {
    let regions = Regions::from(Rect::new(0, 0, 70, 22), true);

    assert!(matches!(regions.system, Some(SystemRegion::Dashboard(_))));
    assert!(regions.network.is_none());
    assert!(regions.panes.height > 0);
}

#[test]
fn mod_wide_terminal_uses_edex_regions() {
    let regions = Regions::from(Rect::new(0, 0, 130, 36), true);

    assert!(matches!(regions.system, Some(SystemRegion::SidePanel(_))));
    assert!(regions.network.is_some());
    assert!(regions.accessory.is_some());
    assert!(regions.panes.width >= 34);
}

#[test]
fn mod_narrow_terminal_keeps_pane_area_usable() {
    let regions = Regions::from(Rect::new(0, 0, 70, 22), true);

    assert!(matches!(regions.system, Some(SystemRegion::Dashboard(_))));
    assert!(regions.network.is_none());
    assert!(regions.panes.height > 0);
}

#[test]
fn system_off_returns_full_pane_area() {
    let regions = Regions::from(Rect::new(0, 0, 100, 30), false);
    assert!(regions.system.is_none());
    assert!(regions.network.is_none());
    assert_eq!(regions.panes.width, 100);
}

#[test]
fn pane_region_is_the_panes_of_the_regions() {
    let area = Rect::new(0, 0, 130, 36);
    assert_eq!(pane_region(area, true), Regions::from(area, true).panes);
    assert_eq!(pane_region(area, false), Regions::from(area, false).panes);
}

#[test]
fn regions_stay_inside_the_screen() {
    for (w, h) in [(20u16, 5u16), (70, 22), (100, 30), (130, 36), (200, 60)] {
        let area = Rect::new(0, 0, w, h);
        for show in [true, false] {
            let r = Regions::from(area, show);
            assert!(r.panes.x + r.panes.width <= w && r.panes.y + r.panes.height <= h);
            assert!(r.status.x + r.status.width <= w && r.status.y + r.status.height <= h);
        }
    }
}

#[test]
fn accessory_strip_puts_listing_beside_keyboard_when_wide() {
    let wide = accessory_areas(Rect::new(0, 30, 130, 8));
    assert_eq!(wide.filesystem, Some(Rect::new(0, 30, 34, 8)));
    assert_eq!(wide.keyboard, Some(Rect::new(34, 30, 96, 8)));
    let narrow = accessory_areas(Rect::new(0, 30, 100, 8));
    assert_eq!(narrow.filesystem, None);
    assert_eq!(narrow.keyboard, Some(Rect::new(0, 30, 100, 8)));
    let empty = accessory_areas(Rect::new(0, 0, 0, 8));
    assert_eq!(empty.filesystem, None);
    assert_eq!(empty.keyboard, None);
}

#[test]
fn rect_new_clips_to_the_coordinate_space() {
    let r = Rect::new(65000, 65500, 1000, 100);
    assert_eq!(r, Rect { x: 65000, y: 65500, width: 535, height: 35 });
    assert_eq!(r.right(), u16::MAX);
    assert_eq!(r.bottom(), u16::MAX);
    assert!(!r.is_empty());
    assert!(Rect::new(3, 4, 0, 9).is_empty());
}

#[test]
fn dashboard_splits_cards_below_the_scanline() {
    let layout = dashboard_layout(Rect::new(1, 1, 98, 20));
    assert_eq!(
        layout,
        DashboardLayout::Cards { top: Rect::new(1, 2, 98, 9), bottom: Rect::new(1, 11, 98, 10) }
    );
}

#[test]
fn dashboard_small_or_empty() {
    assert_eq!(dashboard_layout(Rect::new(0, 0, 50, 5)), DashboardLayout::Compact(Rect::new(0, 1, 50, 4)));
    assert_eq!(dashboard_layout(Rect::new(0, 0, 50, 1)), DashboardLayout::Nothing);
    // Nine rows under the scanline: top takes four (half, at least four), bottom five.
    assert_eq!(
        dashboard_layout(Rect::new(0, 0, 50, 10)),
        DashboardLayout::Cards { top: Rect::new(0, 1, 50, 4), bottom: Rect::new(0, 5, 50, 5) }
    );
}
