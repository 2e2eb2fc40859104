use plotx::sidebars::{
    dragged_past_min, sidebar_default_width, sidebar_hidden_status, sidebar_width_range, SidebarEdge, POINT,
};

fn pt(points: i64) -> i64 {
    points * POINT
}

#[test]
fn sidebar_ranges_leave_the_workspace_its_minimum() {
    // A wide workspace: full minimums, capped maximums.
    assert_eq!(sidebar_width_range(true, pt(1600), pt(300)), (pt(190), pt(420)));
    assert_eq!(sidebar_width_range(false, pt(1600), 0), (pt(230), pt(460)));
    // A compact workspace: smaller minimums, and room left for the workspace.
    assert_eq!(sidebar_width_range(true, pt(1000), pt(300)), (pt(150), pt(380)));
    assert_eq!(sidebar_width_range(false, pt(1000), pt(380)), (pt(180), pt(300)));
    // No room at all: the range collapses onto the minimum.
    assert_eq!(sidebar_width_range(true, pt(500), pt(300)), (pt(150), pt(150)));
}

#[test]
fn a_sidebar_opens_at_its_remembered_width_within_range() {
    assert_eq!(sidebar_default_width(pt(250), pt(190), pt(420)), pt(250));
    assert_eq!(sidebar_default_width(pt(100), pt(190), pt(420)), pt(190));
    assert_eq!(sidebar_default_width(pt(500), pt(190), pt(420)), pt(420));
}

#[test]
fn dragging_well_through_the_sidebar_hides_it() {
    // Primary sidebar from 0 to 190 pt: its workspace edge is on the right.
    assert!(dragged_past_min(SidebarEdge::Right, pt(100), 0, pt(190)));
    assert!(!dragged_past_min(SidebarEdge::Right, pt(130), 0, pt(190)));
    // Secondary sidebar from 1000 to 1230 pt: its workspace edge is on the left.
    assert!(dragged_past_min(SidebarEdge::Left, pt(1061), pt(1000), pt(1230)));
    assert!(!dragged_past_min(SidebarEdge::Left, pt(1060), pt(1000), pt(1230)));
}

#[test]
fn the_hidden_status_names_the_way_back() {
    assert_eq!(
        sidebar_hidden_status("Left", Some("Ctrl+B")),
        "Left sidebar hidden. Show it again with the layout buttons in the title row or Ctrl+B."
    );
    assert_eq!(
        sidebar_hidden_status("Right", None),
        "Right sidebar hidden. Show it again with the layout buttons in the title row."
    );
}
