//! Where the mixer window opens: the bottom right corner of the primary
//! monitor's work area, above the taskbar.
//!
//! `rcWork` already excludes the taskbar, but only when the taskbar reserves
//! space; set to hide automatically it reserves none, so its rectangle is
//! taken off separately here. Asking Windows for the rectangles, and the
//! conversion to the points the toolkit expects, happen outside this crate.

use vstd::prelude::*;

verus! {

/// A rectangle in physical pixels.
#[derive(Debug, Clone, Copy, PartialEq, Eq, Structural)]
pub struct ScreenRect {
    pub left: i32,
    pub top: i32,
    pub right: i32,
    pub bottom: i32,
}

/// The screen edge the taskbar sits on.
#[derive(Debug, Clone, Copy, PartialEq, Eq, Structural)]
pub enum TaskbarEdge {
    Left,
    Top,
    Right,
    Bottom,
    Unknown,
}

/// Whether two rectangles overlap.
pub open spec fn overlaps(a: ScreenRect, b: ScreenRect) -> bool {
    a.right > b.left && a.left < b.right && a.bottom > b.top && a.top < b.bottom
}

/// `work` with the taskbar's side cut back to the taskbar, when the
/// taskbar lies on `monitor`.
pub open spec fn usable_work_area_spec(
    work: ScreenRect,
    monitor: ScreenRect,
    taskbar: Option<(TaskbarEdge, ScreenRect)>,
) -> ScreenRect {
    match taskbar {
        Some((edge, bar)) => if overlaps(bar, monitor) {
            match edge {
                TaskbarEdge::Left => ScreenRect {
                    left: if bar.right > work.left { bar.right } else { work.left },
                    ..work
                },
                TaskbarEdge::Top => ScreenRect {
                    top: if bar.bottom > work.top { bar.bottom } else { work.top },
                    ..work
                },
                TaskbarEdge::Right => ScreenRect {
                    right: if bar.left < work.right { bar.left } else { work.right },
                    ..work
                },
                TaskbarEdge::Bottom => ScreenRect {
                    bottom: if bar.top < work.bottom { bar.top } else { work.bottom },
                    ..work
                },
                TaskbarEdge::Unknown => work,
            }
        } else {
            work
        },
        None => work,
    }
}

/// The part of the work area the window may use. An auto-hiding taskbar
/// reserves no work area, so without this the window would sit exactly
/// where the taskbar slides back in.
pub fn usable_work_area(
    work: ScreenRect,
    monitor: ScreenRect,
    taskbar: Option<(TaskbarEdge, ScreenRect)>,
) -> (r: ScreenRect)
    ensures
        r == usable_work_area_spec(work, monitor, taskbar),
{
    let mut area = work;
    if let Some((edge, bar)) = taskbar {
        if bar.right > monitor.left && bar.left < monitor.right && bar.bottom > monitor.top
            && bar.top < monitor.bottom {
            match edge {
                TaskbarEdge::Left => {
                    if bar.right > area.left {
                        area.left = bar.right;
                    }
                },
                TaskbarEdge::Top => {
                    if bar.bottom > area.top {
                        area.top = bar.bottom;
                    }
                },
                TaskbarEdge::Right => {
                    if bar.left < area.right {
                        area.right = bar.left;
                    }
                },
                TaskbarEdge::Bottom => {
                    if bar.top < area.bottom {
                        area.bottom = bar.top;
                    }
                },
                TaskbarEdge::Unknown => {},
            }
        }
    }
    area
}

/// The usable area never reaches past the work area it came from.
pub proof fn lemma_usable_within_work(
    work: ScreenRect,
    monitor: ScreenRect,
    taskbar: Option<(TaskbarEdge, ScreenRect)>,
)
    ensures
        ({
            let r = usable_work_area_spec(work, monitor, taskbar);
            r.left >= work.left && r.top >= work.top && r.right <= work.right && r.bottom
                <= work.bottom
        }),
{
}

} // verus!
