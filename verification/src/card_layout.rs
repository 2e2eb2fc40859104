//! Placement of a floating task card inside the workspace.
//!
//! Coordinates are whole layout units of a sixty-fourth of a point (the
//! caller converts). A card remembers the rectangle the user last put it at
//! (its preferred rectangle) and the edges that gesture fixed. Each frame the
//! card is fitted into the current workspace bounds: an anchored edge that
//! rests on its boundary follows that boundary, any other placement stays
//! where the user left it, and the drawn rectangle is the preferred one
//! clamped into the bounds.
use vstd::prelude::*;

verus! {

/// Distance within which a card edge rests on a workspace boundary (one
/// point).
pub const FLUSH_EPS: i64 = 64;

/// The smallest extent a fitted card keeps along either axis (one point).
pub const MIN_EXTENT: i64 = 64;

/// Coordinates this module accepts, in magnitude.
pub const COORD_LIMIT: i64 = 1_099_511_627_776;

/// An axis-aligned rectangle.
#[derive(Clone, Copy, Debug, PartialEq, Eq, Structural)]
pub struct LayoutRect {
    pub left: i64,
    pub top: i64,
    pub right: i64,
    pub bottom: i64,
}

/// The vertical edge a card's gestures fixed.
#[derive(Clone, Copy, Debug, PartialEq, Eq, Structural)]
pub enum HorizontalAnchor {
    Left,
    Right,
}

/// The horizontal edge a card's gestures fixed.
#[derive(Clone, Copy, Debug, PartialEq, Eq, Structural)]
pub enum VerticalAnchor {
    Top,
    Bottom,
}

/// A card's placement: the rectangle drawn this frame, the rectangle the user
/// intends (which may lie outside the current bounds), the bounds it was
/// last fitted into, its anchors, and what the card carries along.
#[derive(Clone, Copy, Debug, PartialEq, Eq, Structural)]
pub struct CardLayout {
    pub rect: LayoutRect,
    pub preferred: LayoutRect,
    pub bounds: LayoutRect,
    pub horizontal: HorizontalAnchor,
    pub vertical: VerticalAnchor,
    pub chrome_height: i64,
    pub extra_width: i64,
    pub collapsed: bool,
}

pub open spec fn within_limit(v: int) -> bool {
    -COORD_LIMIT <= v <= COORD_LIMIT
}

pub open spec fn rect_within_limit(r: LayoutRect) -> bool {
    within_limit(r.left as int) && within_limit(r.top as int) && within_limit(r.right as int)
        && within_limit(r.bottom as int)
}

/// The bounds are not inverted.
pub open spec fn ordered(r: LayoutRect) -> bool {
    r.left <= r.right && r.top <= r.bottom
}

pub open spec fn abs(v: int) -> int {
    if v < 0 {
        -v
    } else {
        v
    }
}

/// Whether the anchored vertical edge of `preferred` rests on `bounds`.
pub open spec fn flush_horizontally(preferred: LayoutRect, bounds: LayoutRect, anchor: HorizontalAnchor) -> bool {
    match anchor {
        HorizontalAnchor::Left => abs(preferred.left - bounds.left) <= FLUSH_EPS,
        HorizontalAnchor::Right => abs(bounds.right - preferred.right) <= FLUSH_EPS,
    }
}

/// Whether the anchored horizontal edge of `preferred` rests on `bounds`.
pub open spec fn flush_vertically(preferred: LayoutRect, bounds: LayoutRect, anchor: VerticalAnchor) -> bool {
    match anchor {
        VerticalAnchor::Top => abs(preferred.top - bounds.top) <= FLUSH_EPS,
        VerticalAnchor::Bottom => abs(bounds.bottom - preferred.bottom) <= FLUSH_EPS,
    }
}

/// How far a flush anchored vertical edge moves with its boundary.
pub open spec fn follow_x(layout: CardLayout, bounds: LayoutRect) -> int {
    if flush_horizontally(layout.preferred, layout.bounds, layout.horizontal) {
        match layout.horizontal {
            HorizontalAnchor::Left => bounds.left - layout.bounds.left,
            HorizontalAnchor::Right => bounds.right - layout.bounds.right,
        }
    } else {
        0
    }
}

/// How far a flush anchored horizontal edge moves with its boundary.
pub open spec fn follow_y(layout: CardLayout, bounds: LayoutRect) -> int {
    if flush_vertically(layout.preferred, layout.bounds, layout.vertical) {
        match layout.vertical {
            VerticalAnchor::Top => bounds.top - layout.bounds.top,
            VerticalAnchor::Bottom => bounds.bottom - layout.bounds.bottom,
        }
    } else {
        0
    }
}

/// The preferred rectangle after flush edges followed their boundaries.
pub open spec fn followed_preferred(layout: CardLayout, bounds: LayoutRect) -> LayoutRect {
    LayoutRect {
        left: (layout.preferred.left + follow_x(layout, bounds)) as i64,
        right: (layout.preferred.right + follow_x(layout, bounds)) as i64,
        top: (layout.preferred.top + follow_y(layout, bounds)) as i64,
        bottom: (layout.preferred.bottom + follow_y(layout, bounds)) as i64,
    }
}

pub open spec fn clamp(v: int, lo: int, hi: int) -> int {
    if v < lo {
        lo
    } else if v > hi {
        hi
    } else {
        v
    }
}

pub open spec fn min(a: int, b: int) -> int {
    if a <= b {
        a
    } else {
        b
    }
}

pub open spec fn max(a: int, b: int) -> int {
    if a >= b {
        a
    } else {
        b
    }
}

/// The drawn extent along one axis: the anchored edge clamped into
/// `lo..=hi`, and the desired length cut to the room left beyond it (at least
/// `MIN_EXTENT`). Returns the low and high ends.
pub open spec fn fit_span(low: int, high: int, lo: int, hi: int, desired: int, from_low: bool) -> (int, int) {
    if from_low {
        let start = clamp(low, lo, hi);
        (start, start + min(desired, max(hi - start, MIN_EXTENT as int)))
    } else {
        let end = clamp(high, lo, hi);
        (end - min(desired, max(end - lo, MIN_EXTENT as int)), end)
    }
}

/// The rectangle drawn for `preferred` inside `bounds`.
pub open spec fn fitted_rect(
    preferred: LayoutRect,
    bounds: LayoutRect,
    horizontal: HorizontalAnchor,
    vertical: VerticalAnchor,
    desired_width: int,
    desired_height: int,
) -> LayoutRect {
    let x = fit_span(
        preferred.left as int,
        preferred.right as int,
        bounds.left as int,
        bounds.right as int,
        desired_width,
        horizontal == HorizontalAnchor::Left,
    );
    let y = fit_span(
        preferred.top as int,
        preferred.bottom as int,
        bounds.top as int,
        bounds.bottom as int,
        desired_height,
        vertical == VerticalAnchor::Top,
    );
    LayoutRect { left: x.0 as i64, right: x.1 as i64, top: y.0 as i64, bottom: y.1 as i64 }
}

/// A card fitted into `bounds`.
pub open spec fn spec_fit_layout(
    layout: CardLayout,
    bounds: LayoutRect,
    desired_width: int,
    desired_height: int,
    collapsed: bool,
) -> CardLayout {
    let preferred = followed_preferred(layout, bounds);
    CardLayout {
        rect: fitted_rect(
            preferred,
            bounds,
            layout.horizontal,
            layout.vertical,
            desired_width,
            desired_height,
        ),
        preferred,
        bounds,
        collapsed,
        ..layout
    }
}

/// What `fit_layout` accepts: coordinates within the limit, ordered bounds,
/// and a desired size between zero and the limit.
pub open spec fn fit_inputs_valid(layout: CardLayout, bounds: LayoutRect, desired_width: int, desired_height: int) -> bool {
    &&& rect_within_limit(layout.preferred)
    &&& rect_within_limit(layout.bounds)
    &&& rect_within_limit(bounds)
    &&& ordered(bounds)
    &&& 0 <= desired_width <= COORD_LIMIT
    &&& 0 <= desired_height <= COORD_LIMIT
}

fn abs_exec(v: i64) -> (r: i64)
    requires
        -4 * COORD_LIMIT <= v <= 4 * COORD_LIMIT,
    ensures
        r == abs(v as int),
{
    if v < 0 {
        -v
    } else {
        v
    }
}

fn clamp_exec(v: i64, lo: i64, hi: i64) -> (r: i64)
    requires
        lo <= hi,
    ensures
        r == clamp(v as int, lo as int, hi as int),
{
    if v < lo {
        lo
    } else if v > hi {
        hi
    } else {
        v
    }
}

fn span_exec(low: i64, high: i64, lo: i64, hi: i64, desired: i64, from_low: bool) -> (r: (i64, i64))
    requires
        within_limit(lo as int),
        within_limit(hi as int),
        lo <= hi,
        0 <= desired <= COORD_LIMIT,
    ensures
        r.0 == fit_span(low as int, high as int, lo as int, hi as int, desired as int, from_low).0,
        r.1 == fit_span(low as int, high as int, lo as int, hi as int, desired as int, from_low).1,
{
    if from_low {
        let start = clamp_exec(low, lo, hi);
        let room = if hi - start > MIN_EXTENT {
            hi - start
        } else {
            MIN_EXTENT
        };
        let extent = if desired <= room {
            desired
        } else {
            room
        };
        (start, start + extent)
    } else {
        let end = clamp_exec(high, lo, hi);
        let room = if end - lo > MIN_EXTENT {
            end - lo
        } else {
            MIN_EXTENT
        };
        let extent = if desired <= room {
            desired
        } else {
            room
        };
        (end - extent, end)
    }
}

/// Rebuild a card from its preferred rectangle for new workspace `bounds`.
/// An anchored edge of the preferred rectangle that rested (within
/// `FLUSH_EPS`) on its boundary moves with that boundary; otherwise the
/// preference is kept as it was. The drawn rectangle starts from the
/// preferred rectangle's anchored edges, clamped into the bounds, and takes
/// the desired size where the bounds leave room for it.
pub fn fit_layout(layout: CardLayout, bounds: LayoutRect, desired_width: i64, desired_height: i64, collapsed: bool) -> (r: CardLayout)
    requires
        fit_inputs_valid(layout, bounds, desired_width as int, desired_height as int),
    ensures
        r == spec_fit_layout(layout, bounds, desired_width as int, desired_height as int, collapsed),
{
    let mut preferred = layout.preferred;
    match layout.horizontal {
        HorizontalAnchor::Left => {
            if abs_exec(preferred.left - layout.bounds.left) <= FLUSH_EPS {
                let dx = bounds.left - layout.bounds.left;
                preferred.left = preferred.left + dx;
                preferred.right = preferred.right + dx;
            }
        },
        HorizontalAnchor::Right => {
            if abs_exec(layout.bounds.right - preferred.right) <= FLUSH_EPS {
                let dx = bounds.right - layout.bounds.right;
                preferred.left = preferred.left + dx;
                preferred.right = preferred.right + dx;
            }
        },
    }
    match layout.vertical {
        VerticalAnchor::Top => {
            if abs_exec(preferred.top - layout.bounds.top) <= FLUSH_EPS {
                let dy = bounds.top - layout.bounds.top;
                preferred.top = preferred.top + dy;
                preferred.bottom = preferred.bottom + dy;
            }
        },
        VerticalAnchor::Bottom => {
            if abs_exec(layout.bounds.bottom - preferred.bottom) <= FLUSH_EPS {
                let dy = bounds.bottom - layout.bounds.bottom;
                preferred.top = preferred.top + dy;
                preferred.bottom = preferred.bottom + dy;
            }
        },
    }
    assert(preferred == followed_preferred(layout, bounds));
    let x = span_exec(
        preferred.left,
        preferred.right,
        bounds.left,
        bounds.right,
        desired_width,
        matches!(layout.horizontal, HorizontalAnchor::Left),
    );
    let y = span_exec(
        preferred.top,
        preferred.bottom,
        bounds.top,
        bounds.bottom,
        desired_height,
        matches!(layout.vertical, VerticalAnchor::Top),
    );
    CardLayout {
        rect: LayoutRect { left: x.0, right: x.1, top: y.0, bottom: y.1 },
        preferred,
        bounds,
        horizontal: layout.horizontal,
        vertical: layout.vertical,
        chrome_height: layout.chrome_height,
        extra_width: layout.extra_width,
        collapsed,
    }
}


/// A card parked away from its boundaries keeps its preferred rectangle when
/// the bounds change: fitting never moves the preference of such a card.
pub proof fn lemma_parked_card_keeps_its_place(
    layout: CardLayout,
    bounds: LayoutRect,
    desired_width: int,
    desired_height: int,
    collapsed: bool,
)
    requires
        !flush_horizontally(layout.preferred, layout.bounds, layout.horizontal),
        !flush_vertically(layout.preferred, layout.bounds, layout.vertical),
    ensures
        spec_fit_layout(layout, bounds, desired_width, desired_height, collapsed).preferred
            == layout.preferred,
{
}

/// A card that a shrinking boundary pushed aside returns to its place once
/// the boundary recedes: fitting into `narrow` and then `wide` draws the card
/// where fitting straight into `wide` would, provided its anchored edges rest
/// on neither its old bounds nor `narrow`.
pub proof fn lemma_displaced_card_returns(
    layout: CardLayout,
    narrow: LayoutRect,
    wide: LayoutRect,
    desired_width: int,
    desired_height: int,
    first: bool,
    second: bool,
)
    requires
        !flush_horizontally(layout.preferred, layout.bounds, layout.horizontal),
        !flush_vertically(layout.preferred, layout.bounds, layout.vertical),
        !flush_horizontally(layout.preferred, narrow, layout.horizontal),
        !flush_vertically(layout.preferred, narrow, layout.vertical),
    ensures
        spec_fit_layout(
            spec_fit_layout(layout, narrow, desired_width, desired_height, first),
            wide,
            desired_width,
            desired_height,
            second,
        ) == spec_fit_layout(layout, wide, desired_width, desired_height, second),
{
}

/// A card whose (followed) preferred rectangle lies inside the bounds, at the
/// desired size, is drawn exactly there.
pub proof fn lemma_fitting_card_is_drawn_where_preferred(
    layout: CardLayout,
    bounds: LayoutRect,
    collapsed: bool,
)
    requires
        bounds.left <= followed_preferred(layout, bounds).left,
        followed_preferred(layout, bounds).left <= followed_preferred(layout, bounds).right,
        followed_preferred(layout, bounds).right <= bounds.right,
        bounds.top <= followed_preferred(layout, bounds).top,
        followed_preferred(layout, bounds).top <= followed_preferred(layout, bounds).bottom,
        followed_preferred(layout, bounds).bottom <= bounds.bottom,
    ensures
        ({
            let p = followed_preferred(layout, bounds);
            spec_fit_layout(layout, bounds, p.right - p.left, p.bottom - p.top, collapsed).rect == p
        }),
{
}

/// The drawn rectangle's anchored edges lie inside the bounds, and it is
/// never larger than the desired size.
pub proof fn lemma_anchored_edges_stay_inside(
    layout: CardLayout,
    bounds: LayoutRect,
    desired_width: int,
    desired_height: int,
    collapsed: bool,
)
    requires
        fit_inputs_valid(layout, bounds, desired_width, desired_height),
    ensures
        ({
            let r = spec_fit_layout(layout, bounds, desired_width, desired_height, collapsed).rect;
            &&& layout.horizontal == HorizontalAnchor::Left ==> bounds.left <= r.left <= bounds.right
            &&& layout.horizontal == HorizontalAnchor::Right ==> bounds.left <= r.right
                <= bounds.right
            &&& layout.vertical == VerticalAnchor::Top ==> bounds.top <= r.top <= bounds.bottom
            &&& layout.vertical == VerticalAnchor::Bottom ==> bounds.top <= r.bottom
                <= bounds.bottom
            &&& r.right - r.left <= desired_width
            &&& r.bottom - r.top <= desired_height
        }),
{
}


/// A docked card follows its boundary: when an anchored edge of the preferred
/// rectangle rests (within `FLUSH_EPS`) on the same edge of the old bounds,
/// fitting moves the whole preferred rectangle along that axis by exactly
/// the displacement of that edge of the bounds; otherwise that axis of the
/// preference stays put.
pub proof fn lemma_docked_edges_follow_their_boundary(
    layout: CardLayout,
    bounds: LayoutRect,
    desired_width: int,
    desired_height: int,
    collapsed: bool,
)
    requires
        fit_inputs_valid(layout, bounds, desired_width, desired_height),
    ensures
        ({
            let old = layout.preferred;
            let was = layout.bounds;
            let p = spec_fit_layout(layout, bounds, desired_width, desired_height, collapsed).preferred;
            let dx: int = if layout.horizontal == HorizontalAnchor::Left && abs(old.left - was.left)
                <= FLUSH_EPS {
                bounds.left - was.left
            } else if layout.horizontal == HorizontalAnchor::Right && abs(was.right - old.right)
                <= FLUSH_EPS {
                bounds.right - was.right
            } else {
                0
            };
            let dy: int = if layout.vertical == VerticalAnchor::Top && abs(old.top - was.top)
                <= FLUSH_EPS {
                bounds.top - was.top
            } else if layout.vertical == VerticalAnchor::Bottom && abs(was.bottom - old.bottom)
                <= FLUSH_EPS {
                bounds.bottom - was.bottom
            } else {
                0
            };
            &&& p.left == old.left + dx
            &&& p.right == old.right + dx
            &&& p.top == old.top + dy
            &&& p.bottom == old.bottom + dy
        }),
{
}

} // verus!
