//! Width policy of the two workspace sidebars, and hiding one by dragging its
//! edge through it.
//!
//! Widths are whole layout units of a sixty-fourth of a point (the caller
//! converts).
use crate::card_layout::within_limit;
use vstd::prelude::*;
use vstd::string::StringExecFns;

verus! {

/// One point in layout units.
pub const POINT: i64 = 64;

/// The workspace keeps at least this width between the sidebars (320 pt).
pub const MIN_WORKSPACE_WIDTH: i64 = 20_480;

/// Below this workspace width the sidebars use their compact minimum
/// (1200 pt).
pub const COMPACT_WORKSPACE_WIDTH: i64 = 76_800;

/// Releasing a resize drag this far past the sidebar's minimum width hides
/// the sidebar (60 pt).
pub const HIDE_DRAG_SLACK: i64 = 3_840;

/// The edge of a sidebar that faces the workspace.
#[derive(Clone, Copy, Debug, PartialEq, Eq, Structural)]
pub enum SidebarEdge {
    /// The primary (left) sidebar's inner edge.
    Right,
    /// The secondary (right) sidebar's inner edge.
    Left,
}

/// The smallest width of a sidebar: 150 or 190 pt for the primary sidebar,
/// 180 or 230 pt for the secondary one, the smaller in a compact workspace.
pub open spec fn sidebar_min_width(primary: bool, compact: bool) -> int {
    if primary {
        if compact {
            150 * POINT
        } else {
            190 * POINT
        }
    } else {
        if compact {
            180 * POINT
        } else {
            230 * POINT
        }
    }
}

/// The largest width a sidebar ever takes: 420 pt for the primary sidebar,
/// 460 pt for the secondary one.
pub open spec fn sidebar_cap(primary: bool) -> int {
    if primary {
        420 * POINT
    } else {
        460 * POINT
    }
}

pub open spec fn clamp(v: int, lo: int, hi: int) -> int {
    if v < lo {
        lo
    } else if v > hi {
        hi
    } else {
        v
    }
}

/// The width range of a sidebar in a workspace `workspace_width` wide whose
/// other sidebar takes `other_width` (zero when hidden): from its minimum up
/// to what leaves the workspace its minimum width, held between the minimum
/// and the sidebar's cap.
pub open spec fn spec_width_range(primary: bool, workspace_width: int, other_width: int) -> (int, int) {
    let min = sidebar_min_width(primary, workspace_width < COMPACT_WORKSPACE_WIDTH);
    (min, clamp(workspace_width - other_width - MIN_WORKSPACE_WIDTH, min, sidebar_cap(primary)))
}

/// The width range of a sidebar (see `spec_width_range`).
pub fn sidebar_width_range(primary: bool, workspace_width: i64, other_width: i64) -> (r: (i64, i64))
    requires
        within_limit(workspace_width as int),
        within_limit(other_width as int),
    ensures
        r.0 == spec_width_range(primary, workspace_width as int, other_width as int).0,
        r.1 == spec_width_range(primary, workspace_width as int, other_width as int).1,
        r.0 <= r.1,
{
    let compact = workspace_width < COMPACT_WORKSPACE_WIDTH;
    let min: i64 = if primary {
        if compact {
            150 * POINT
        } else {
            190 * POINT
        }
    } else {
        if compact {
            180 * POINT
        } else {
            230 * POINT
        }
    };
    let cap: i64 = if primary {
        420 * POINT
    } else {
        460 * POINT
    };
    let room = workspace_width - other_width - MIN_WORKSPACE_WIDTH;
    let max = if room < min {
        min
    } else if room > cap {
        cap
    } else {
        room
    };
    (min, max)
}

/// The width a sidebar opens at: its remembered width held inside its range.
pub fn sidebar_default_width(width: i64, min: i64, max: i64) -> (r: i64)
    requires
        min <= max,
    ensures
        r == clamp(width as int, min as int, max as int),
{
    if width < min {
        min
    } else if width > max {
        max
    } else {
        width
    }
}

/// Whether a resize drag that just ended with the pointer at `pointer_x`
/// pulled the edge through the sidebar drawn from `left` to `right`: the
/// pointer lies more than `HIDE_DRAG_SLACK` inside the sidebar from its
/// workspace edge.
pub fn dragged_past_min(edge: SidebarEdge, pointer_x: i64, left: i64, right: i64) -> (r: bool)
    requires
        within_limit(pointer_x as int),
        within_limit(left as int),
        within_limit(right as int),
    ensures
        r == match edge {
            SidebarEdge::Right => pointer_x < right - HIDE_DRAG_SLACK,
            SidebarEdge::Left => pointer_x > left + HIDE_DRAG_SLACK,
        },
{
    match edge {
        SidebarEdge::Right => pointer_x < right - HIDE_DRAG_SLACK,
        SidebarEdge::Left => pointer_x > left + HIDE_DRAG_SLACK,
    }
}

/// The status line after a drag hid the `side` sidebar; `chord` is the
/// keyboard shortcut that shows it again, if it has one.
pub open spec fn spec_hidden_status(side: Seq<char>, chord: Option<Seq<char>>) -> Seq<char> {
    side + " sidebar hidden. Show it again with the layout buttons in the title row"@ + match chord {
        Some(c) => " or "@ + c + "."@,
        None => "."@,
    }
}

/// The status line after a drag hid the `side` sidebar.
pub fn sidebar_hidden_status(side: &str, chord: Option<&str>) -> (m: String)
    ensures
        m@ == spec_hidden_status(
            side@,
            match chord {
                Some(c) => Some(c@),
                None => None,
            },
        ),
{
    let head = String::from_str(side).concat(
        " sidebar hidden. Show it again with the layout buttons in the title row",
    );
    match chord {
        Some(c) => head.concat(" or ").concat(c).concat("."),
        None => head.concat("."),
    }
}

/// A sidebar's range is never empty and never passes its cap, and the width
/// it opens at lies inside it.
pub proof fn lemma_sidebar_width_in_range(primary: bool, workspace_width: int, other_width: int, width: int)
    ensures
        ({
            let (min, max) = spec_width_range(primary, workspace_width, other_width);
            &&& min <= max <= sidebar_cap(primary)
            &&& min <= clamp(width, min, max) <= max
        }),
{
}

} // verus!
