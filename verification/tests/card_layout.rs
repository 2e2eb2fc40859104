use plotx::card_layout::{fit_layout, CardLayout, HorizontalAnchor, LayoutRect, VerticalAnchor};

/// One point in layout units.
const PT: i64 = 64;

fn rect(left: i64, top: i64, right: i64, bottom: i64) -> LayoutRect {
    LayoutRect { left: left * PT, top: top * PT, right: right * PT, bottom: bottom * PT }
}

fn card(preferred: LayoutRect, bounds: LayoutRect) -> CardLayout {
    CardLayout {
        rect: preferred,
        preferred,
        bounds,
        horizontal: HorizontalAnchor::Right,
        vertical: VerticalAnchor::Top,
        chrome_height: 30 * PT,
        extra_width: 0,
        collapsed: false,
    }
}

#[test]
fn a_docked_card_follows_its_boundary() {
    // Resting on the top-right corner of the workspace.
    let docked = card(rect(700, 0, 1000, 400), rect(0, 0, 1000, 800));
    let fitted = fit_layout(docked, rect(0, 0, 800, 800), 300 * PT, 400 * PT, false);
    assert_eq!(fitted.preferred, rect(500, 0, 800, 400));
    assert_eq!(fitted.rect, rect(500, 0, 800, 400));
    assert_eq!(fitted.bounds, rect(0, 0, 800, 800));
    assert_eq!(fitted.chrome_height, 30 * PT);
}

#[test]
fn a_parked_card_is_pushed_aside_and_returns() {
    let parked = card(rect(500, 100, 900, 300), rect(0, 0, 1000, 800));
    let narrow = fit_layout(parked, rect(0, 0, 700, 800), 400 * PT, 200 * PT, false);
    // The preference stays; the drawn card is clamped against the new edge.
    assert_eq!(narrow.preferred, rect(500, 100, 900, 300));
    assert_eq!(narrow.rect, rect(300, 100, 700, 300));
    let back = fit_layout(narrow, rect(0, 0, 1000, 800), 400 * PT, 200 * PT, true);
    assert_eq!(back.rect, rect(500, 100, 900, 300));
    assert!(back.collapsed);
}

#[test]
fn a_card_shrinks_to_the_room_left_but_keeps_one_point() {
    let mut parked = card(rect(100, 100, 400, 300), rect(0, 0, 1000, 800));
    parked.horizontal = HorizontalAnchor::Left;
    parked.vertical = VerticalAnchor::Bottom;
    let fitted = fit_layout(parked, rect(0, 0, 250, 200), 300 * PT, 200 * PT, false);
    assert_eq!(fitted.rect, rect(100, 0, 250, 200));
    let squeezed = fit_layout(parked, rect(0, 0, 100, 800), 300 * PT, 200 * PT, false);
    assert_eq!(squeezed.rect, rect(100, 100, 101, 300));
}
