//! Toast placement: the stacked vertical offset of each record and the
//! absolute screen position derived from a configured corner anchor and a
//! monitor's work area.
//!
//! Geometry is computed in whole logical pixels. The surrounding program
//! turns the monitor's physical work area into logical pixels with the
//! monitor's own scale factor before handing it in.

use vstd::prelude::*;
use vstd::string::StrSliceExecFns;
use crate::text::{spec_parse_u32, parse_u32_range, str_chars, str_eq};

verus! {

/// Toast width in logical pixels.
pub const NOTIFICATION_WIDTH: i64 = 380;

/// Toast height in logical pixels.
pub const NOTIFICATION_HEIGHT: i64 = 140;

/// Margin between toasts and screen edges in logical pixels.
pub const NOTIFICATION_MARGIN: i64 = 10;

/// Magnitude bound on work-area coordinates and offsets, far beyond any real
/// monitor, under which the position arithmetic cannot overflow.
pub const MAX_COORDINATE: i64 = 1000000000000;

/// The corner of the work area that toasts stack from.
#[derive(PartialEq, Eq, Structural, Debug, Clone, Copy)]
pub enum Anchor {
    TopLeft,
    TopRight,
    BottomLeft,
    BottomRight,
}

/// One monitor's work area (screen minus taskbar) in logical pixels.
#[derive(PartialEq, Eq, Structural, Debug, Clone, Copy)]
pub struct WorkArea {
    pub x: i64,
    pub y: i64,
    pub width: i64,
    pub height: i64,
}

/// The anchor a position setting names; the bottom-right corner for any
/// unknown setting.
pub open spec fn spec_anchor_of(s: Seq<char>) -> Anchor {
    if s == "top_left"@ {
        Anchor::TopLeft
    } else if s == "top_right"@ {
        Anchor::TopRight
    } else if s == "bottom_left"@ {
        Anchor::BottomLeft
    } else {
        Anchor::BottomRight
    }
}

/// Read a position setting into an anchor, defaulting to bottom-right.
pub fn anchor_from_setting(s: &str) -> (a: Anchor)
    ensures
        a == spec_anchor_of(s@),
{
    if str_eq(s, "top_left") {
        Anchor::TopLeft
    } else if str_eq(s, "top_right") {
        Anchor::TopRight
    } else if str_eq(s, "bottom_left") {
        Anchor::BottomLeft
    } else {
        Anchor::BottomRight
    }
}

/// Vertical offset of the toast at a stack index: each step is one toast
/// height plus one margin.
pub fn stack_offset(index: usize) -> (off: i64)
    requires
        index * ((NOTIFICATION_HEIGHT + NOTIFICATION_MARGIN) as int) <= i64::MAX,
    ensures
        off == index * ((NOTIFICATION_HEIGHT + NOTIFICATION_MARGIN) as int),
{
    proof {
        assert(index * ((NOTIFICATION_HEIGHT + NOTIFICATION_MARGIN) as int) >= index)
            by (nonlinear_arith)
            requires
                index >= 0,
        ;
    }
    (index as i64) * (NOTIFICATION_HEIGHT + NOTIFICATION_MARGIN)
}

/// The work area a monitor setting selects from the enumerated monitors:
/// `primary` or an empty setting names the primary work area, a number the
/// monitor at that index, and anything else — or an index beyond the list —
/// falls back to the primary work area.
pub open spec fn spec_monitor_work_area(
    setting: Seq<char>,
    monitors: Seq<WorkArea>,
    primary: WorkArea,
) -> WorkArea {
    if setting == "primary"@ || setting.len() == 0 {
        primary
    } else {
        match spec_parse_u32(setting) {
            Option::Some(i) => if i < monitors.len() {
                monitors[i as int]
            } else {
                primary
            },
            Option::None => primary,
        }
    }
}

/// Work area of the monitor a setting names, against the enumerated monitor
/// list (primary first) and the primary work area as the fallback.
pub fn get_monitor_work_area(
    setting: &str,
    monitors: &Vec<WorkArea>,
    primary: WorkArea,
) -> (wa: WorkArea)
    ensures
        wa == spec_monitor_work_area(setting@, monitors@, primary),
{
    if str_eq(setting, "primary") || setting.unicode_len() == 0 {
        return primary;
    }
    let chars = str_chars(setting);
    proof {
        assert(chars@.subrange(0, chars@.len() as int) =~= chars@);
    }
    match parse_u32_range(&chars, 0, chars.len()) {
        Option::Some(i) => {
            if (i as usize) < monitors.len() {
                monitors[i as usize]
            } else {
                primary
            }
        },
        Option::None => primary,
    }
}

/// Whether a work area's coordinates are within the overflow-safe bound.
pub open spec fn spec_work_area_bounded(wa: WorkArea) -> bool {
    &&& -MAX_COORDINATE <= wa.x <= MAX_COORDINATE
    &&& -MAX_COORDINATE <= wa.y <= MAX_COORDINATE
    &&& -MAX_COORDINATE <= wa.width <= MAX_COORDINATE
    &&& -MAX_COORDINATE <= wa.height <= MAX_COORDINATE
}

/// Where a toast goes: stacked from the anchored corner, the vertical
/// coordinate clamped so a stack overflow moves a toast exactly one
/// toast-extent off-screen instead of wrapping to an unrelated screen.
pub open spec fn spec_position(anchor: Anchor, wa: WorkArea, y_offset: int) -> (int, int) {
    let min_y = wa.y - NOTIFICATION_HEIGHT - NOTIFICATION_MARGIN;
    let max_y = wa.y + wa.height + NOTIFICATION_HEIGHT + NOTIFICATION_MARGIN;
    let left_x = wa.x + NOTIFICATION_MARGIN;
    let right_x = wa.x + wa.width - NOTIFICATION_WIDTH - NOTIFICATION_MARGIN;
    let top_y = if wa.y + NOTIFICATION_MARGIN + y_offset <= max_y {
        wa.y + NOTIFICATION_MARGIN + y_offset
    } else {
        max_y
    };
    let bottom_y = if wa.y + wa.height - NOTIFICATION_HEIGHT - NOTIFICATION_MARGIN - y_offset
        >= min_y {
        wa.y + wa.height - NOTIFICATION_HEIGHT - NOTIFICATION_MARGIN - y_offset
    } else {
        min_y
    };
    match anchor {
        Anchor::TopLeft => (left_x, top_y),
        Anchor::TopRight => (right_x, top_y),
        Anchor::BottomLeft => (left_x, bottom_y),
        Anchor::BottomRight => (right_x, bottom_y),
    }
}

/// Compute the absolute position of a toast with the given stacked offset,
/// from the anchored corner of the work area.
pub fn calculate_notification_position(anchor: Anchor, wa: WorkArea, y_offset: i64) -> (pos: (
    i64,
    i64,
))
    requires
        spec_work_area_bounded(wa),
        0 <= y_offset <= MAX_COORDINATE,
    ensures
        (pos.0 as int, pos.1 as int) == spec_position(anchor, wa, y_offset as int),
{
    let min_y = wa.y - NOTIFICATION_HEIGHT - NOTIFICATION_MARGIN;
    let max_y = wa.y + wa.height + NOTIFICATION_HEIGHT + NOTIFICATION_MARGIN;
    let left_x = wa.x + NOTIFICATION_MARGIN;
    let right_x = wa.x + wa.width - NOTIFICATION_WIDTH - NOTIFICATION_MARGIN;
    let top_wanted = wa.y + NOTIFICATION_MARGIN + y_offset;
    let top_y = if top_wanted <= max_y {
        top_wanted
    } else {
        max_y
    };
    let bottom_wanted = wa.y + wa.height - NOTIFICATION_HEIGHT - NOTIFICATION_MARGIN - y_offset;
    let bottom_y = if bottom_wanted >= min_y {
        bottom_wanted
    } else {
        min_y
    };
    match anchor {
        Anchor::TopLeft => (left_x, top_y),
        Anchor::TopRight => (right_x, top_y),
        Anchor::BottomLeft => (left_x, bottom_y),
        Anchor::BottomRight => (right_x, bottom_y),
    }
}

/// Positions of a whole stack of `count` toasts, oldest first: each sits at
/// its stacked offset from the anchored corner. Reapplying these after a
/// close collapses the gap; after a configuration change it moves every
/// displayed toast at once.
pub fn stack_positions(count: usize, anchor: Anchor, wa: WorkArea) -> (v: Vec<(i64, i64)>)
    requires
        spec_work_area_bounded(wa),
        count * ((NOTIFICATION_HEIGHT + NOTIFICATION_MARGIN) as int) <= MAX_COORDINATE,
    ensures
        v@.len() == count,
        forall|i: int|
            0 <= i < count ==> ((#[trigger] v@[i]).0 as int, v@[i].1 as int) == spec_position(
                anchor,
                wa,
                i * ((NOTIFICATION_HEIGHT + NOTIFICATION_MARGIN) as int),
            ),
{
    let mut v: Vec<(i64, i64)> = Vec::new();
    let mut i: usize = 0;
    while i < count
        invariant
            i <= count,
            spec_work_area_bounded(wa),
            count * ((NOTIFICATION_HEIGHT + NOTIFICATION_MARGIN) as int) <= MAX_COORDINATE,
            v@.len() == i,
            forall|j: int|
                0 <= j < i ==> ((#[trigger] v@[j]).0 as int, v@[j].1 as int) == spec_position(
                    anchor,
                    wa,
                    j * ((NOTIFICATION_HEIGHT + NOTIFICATION_MARGIN) as int),
                ),
        decreases count - i,
    {
        proof {
            assert(i * ((NOTIFICATION_HEIGHT + NOTIFICATION_MARGIN) as int) <= count * ((
            NOTIFICATION_HEIGHT + NOTIFICATION_MARGIN) as int)) by (nonlinear_arith)
                requires
                    i <= count,
            ;
        }
        let off = stack_offset(i);
        let pos = calculate_notification_position(anchor, wa, off);
        v.push(pos);
        i = i + 1;
    }
    v
}

} // verus!
