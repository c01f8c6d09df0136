//! Desktop motion: work areas, where a pet may stand in one, and the
//! decisions a drag and each motion tick make. Positions and distances in
//! floating point stay with the caller; what is decided from them lives here.

use vstd::prelude::*;

verus! {

/// Which way a drag is heading.
#[derive(Clone, Copy, Debug, PartialEq, Eq, Structural)]
pub enum DragDirection {
    Left,
    Right,
}

/// What one drag sample means: the pet moved past the threshold for the
/// first time, the drag animation should start, and the heading changed.
#[derive(Clone, Copy, Debug, PartialEq, Eq, Structural)]
pub struct DragObservation {
    pub moved: bool,
    pub start_visual: bool,
    pub direction: Option<DragDirection>,
}

/// A monitor's usable area in physical pixels.
#[derive(Clone, Copy, Debug, PartialEq, Eq, Structural)]
pub struct WorkArea {
    pub left: i32,
    pub top: i32,
    pub right: i32,
    pub bottom: i32,
}

pub open spec fn max_int(a: int, b: int) -> int {
    if a >= b {
        a
    } else {
        b
    }
}

/// The largest top-left corner that keeps a window of this size inside the
/// area, or the area's corner when the window is larger than the area.
pub open spec fn max_origin_spec(area: WorkArea, width: i32, height: i32) -> (int, int) {
    (max_int(area.right - width, area.left as int), max_int(area.bottom - height, area.top as int))
}

pub open spec fn fits_i32(v: int) -> bool {
    i32::MIN <= v <= i32::MAX
}

impl WorkArea {
    pub fn max_origin(&self, width: i32, height: i32) -> (r: (i32, i32))
        requires
            fits_i32(self.right - width),
            fits_i32(self.bottom - height),
        ensures
            (r.0 as int, r.1 as int) == max_origin_spec(*self, width, height),
    {
        let x = self.right - width;
        let y = self.bottom - height;
        (if x >= self.left {
            x
        } else {
            self.left
        }, if y >= self.top {
            y
        } else {
            self.top
        })
    }

    /// The top-left corner that centres a window of this size in the area
    /// (pinned to the top-left when the window is larger).
    pub fn centered_origin(&self, width: i32, height: i32) -> (r: (i32, i32))
        requires
            fits_i32(self.right - self.left - width),
            fits_i32(self.bottom - self.top - height),
            fits_i32(self.right - self.left),
            fits_i32(self.bottom - self.top),
            fits_i32(self.left + max_int(self.right - self.left - width, 0) / 2),
            fits_i32(self.top + max_int(self.bottom - self.top - height, 0) / 2),
        ensures
            r.0 == self.left + max_int(self.right - self.left - width, 0) / 2,
            r.1 == self.top + max_int(self.bottom - self.top - height, 0) / 2,
    {
        let free_x = self.right - self.left - width;
        let free_y = self.bottom - self.top - height;
        let x = self.left + (if free_x >= 0 {
            free_x
        } else {
            0
        }) / 2;
        let y = self.top + (if free_y >= 0 {
            free_y
        } else {
            0
        }) / 2;
        (x, y)
    }
}

/// Whether a window rectangle covers a monitor: every edge within two
/// pixels of the monitor's.
pub open spec fn covers(window: WorkArea, monitor: WorkArea) -> bool {
    &&& -2 <= window.left - monitor.left <= 2
    &&& -2 <= window.top - monitor.top <= 2
    &&& -2 <= window.right - monitor.right <= 2
    &&& -2 <= window.bottom - monitor.bottom <= 2
}

fn within_two(a: i32, b: i32) -> (r: bool)
    ensures
        r == (-2 <= a - b <= 2),
{
    let d = a as i64 - b as i64;
    -2 <= d && d <= 2
}

/// Whether the foreground window fills its monitor.
pub fn covers_monitor(window: WorkArea, monitor: WorkArea) -> (r: bool)
    ensures
        r == covers(window, monitor),
{
    within_two(window.left, monitor.left) && within_two(window.top, monitor.top) && within_two(
        window.right,
        monitor.right,
    ) && within_two(window.bottom, monitor.bottom)
}

/// `rand::rng().random_range(low..=high)` for `i32`: some value of the
/// range, each drawn by the thread's generator; which one is left open.
#[verifier::external_body]
fn random_i32_between(low: i32, high: i32) -> (r: i32)
    requires
        low <= high,
    ensures
        low <= r <= high,
{
    rand::Rng::random_range(&mut rand::rng(), low..=high)
}

/// `rand::rng().random_range(low..=high)` for `u64`: some value of the
/// range; which one is left open.
#[verifier::external_body]
fn random_u64_between(low: u64, high: u64) -> (r: u64)
    requires
        low <= high,
    ensures
        low <= r <= high,
{
    rand::Rng::random_range(&mut rand::rng(), low..=high)
}

/// `rand::rng().random_range(0..len)` for `usize`: some index below `len`;
/// which one is left open.
#[verifier::external_body]
fn random_index(len: usize) -> (r: usize)
    requires
        len > 0,
    ensures
        r < len,
{
    rand::Rng::random_range(&mut rand::rng(), 0..len)
}

/// Where roaming heads next: a work area, a top-left corner in it where
/// the window fits (the area's corner when it does not), and whether the
/// pet runs right to get there.
#[derive(Clone, Copy, Debug)]
pub struct RoamTarget {
    pub area: WorkArea,
    pub x: i32,
    pub y: i32,
    pub runs_right: bool,
}

/// Every area can hold the arithmetic of placing a window of this size.
pub open spec fn areas_fit(areas: Seq<WorkArea>, width: i32, height: i32) -> bool {
    forall|i: int|
        0 <= i < areas.len() ==> fits_i32((#[trigger] areas[i]).right - width) && fits_i32(
            areas[i].bottom - height,
        )
}

/// Picks a random roaming target for a window of this size standing at
/// `from_x`: a random area, then a random top-left position for the window
/// inside that area; none without areas.
pub fn pick_roaming_target(areas: &Vec<WorkArea>, width: i32, height: i32, from_x: i32) -> (r:
    Option<RoamTarget>)
    requires
        areas_fit(areas@, width, height),
    ensures
        r is None <==> areas@.len() == 0,
        r matches Some(t) ==> {
            &&& areas@.contains(t.area)
            &&& t.area.left <= t.x <= max_origin_spec(t.area, width, height).0
            &&& t.area.top <= t.y <= max_origin_spec(t.area, width, height).1
            &&& t.runs_right == (t.x >= from_x)
        },
{
    if areas.len() == 0 {
        return None;
    }
    let k = random_index(areas.len());
    let area = areas[k];
    assert(areas@[k as int] == area);
    let (max_x, max_y) = area.max_origin(width, height);
    let x = random_i32_between(area.left, max_x);
    let y = random_i32_between(area.top, max_y);
    Some(RoamTarget { area, x, y, runs_right: x >= from_x })
}

/// How long the pet idles after reaching a target: two to six seconds,
/// drawn at random.
pub fn idle_pause_seconds() -> (r: u64)
    ensures
        2 <= r <= 6,
{
    random_u64_between(2, 6)
}

// ---------------------------------------------------------------------------
// Drags.

/// The progress of one drag: whether it has started, whether its movement
/// was reported, and whether its animation was started.
#[derive(Clone, Copy, Debug)]
pub struct DragProgress {
    pub started: bool,
    pub movement_reported: bool,
    pub visual_started: bool,
}

/// One drag sample's decision. The caller tells whether the pet travelled
/// beyond the threshold from where the drag began, which way it heads
/// relative to where the heading was last measured, and whether the drag
/// is animated. The first sample only starts the drag (and its animation,
/// if animated); later samples report the movement once, start the
/// animation once, and pass on a heading only while animated.
pub open spec fn observe_spec(
    p: DragProgress,
    travelled: bool,
    heading: Option<DragDirection>,
    animate: bool,
) -> (DragProgress, DragObservation) {
    if !p.started {
        (
            DragProgress { started: true, movement_reported: p.movement_reported, visual_started: animate },
            DragObservation { moved: false, start_visual: animate, direction: None },
        )
    } else {
        let moved = !p.movement_reported && travelled;
        let start_visual = animate && !p.visual_started;
        (
            DragProgress {
                started: true,
                movement_reported: p.movement_reported || moved,
                visual_started: p.visual_started || start_visual,
            },
            DragObservation {
                moved,
                start_visual,
                direction: if animate {
                    heading
                } else {
                    None
                },
            },
        )
    }
}

impl DragProgress {
    pub fn new() -> (r: Self)
        ensures
            !r.started && !r.movement_reported && !r.visual_started,
    {
        DragProgress { started: false, movement_reported: false, visual_started: false }
    }

    pub fn observe(&mut self, travelled: bool, heading: Option<DragDirection>, animate: bool) -> (r:
        DragObservation)
        ensures
            (*final(self), r) == observe_spec(*old(self), travelled, heading, animate),
    {
        if !self.started {
            self.started = true;
            self.visual_started = animate;
            return DragObservation { moved: false, start_visual: animate, direction: None };
        }
        let moved = !self.movement_reported && travelled;
        if moved {
            self.movement_reported = true;
        }
        let start_visual = animate && !self.visual_started;
        if start_visual {
            self.visual_started = true;
        }
        let direction = if animate {
            heading
        } else {
            None
        };
        DragObservation { moved, start_visual, direction }
    }
}

// ---------------------------------------------------------------------------
// Motion ticks.

/// What the motion loop reads before each tick.
#[derive(Clone, Copy, Debug)]
pub struct TickInputs {
    pub paused: bool,
    pub fullscreen: bool,
    pub hide_in_fullscreen: bool,
    pub dragging: bool,
    pub interacting: bool,
    pub roaming_enabled: bool,
    pub reduced_motion: bool,
}

/// What the pet does this tick.
#[derive(Clone, Copy, Debug, PartialEq, Eq, Structural)]
pub enum MotionPhase {
    /// Hidden: paused, or a full-screen app is in front and the pet hides.
    Hidden,
    /// Being dragged: follow the drag, no roaming target.
    Dragging,
    /// The user is interacting with the pet: stand still.
    Interacting,
    /// Roaming is off or the system asks for reduced motion: stand still.
    Resting,
    /// Walk towards a roaming target.
    Roaming,
}

#[derive(Clone, Copy, Debug)]
pub struct TickPlan {
    /// The full-screen state changed and should be announced.
    pub fullscreen_changed: bool,
    /// A drag ended this tick and should be announced.
    pub drag_ended: bool,
    pub phase: MotionPhase,
}

/// What one drag sample should announce.
#[derive(Clone, Copy, Debug)]
pub struct DragEvents {
    /// The drag moved the pet (once per drag).
    pub moved: bool,
    /// Start the drag animation.
    pub start_visual: bool,
    /// Switch the running animation to this heading.
    pub heading: Option<DragDirection>,
}

/// The motion loop's memory between ticks.
#[derive(Clone, Copy, Debug)]
pub struct MotionEngine {
    pub last_fullscreen: bool,
    pub was_dragging: bool,
    pub drag_moved: bool,
    pub drag_animation: Option<DragDirection>,
    pub drag: DragProgress,
}

pub open spec fn fresh_drag() -> DragProgress {
    DragProgress { started: false, movement_reported: false, visual_started: false }
}

/// One tick's decision: announce a full-screen change; hide while paused or
/// behind a full-screen app; follow a drag; when a drag has just ended,
/// announce it and forget the drag; then stand still while interacting or
/// when roaming is off or motion is reduced, and roam otherwise.
pub open spec fn tick_spec(e: MotionEngine, i: TickInputs) -> (MotionEngine, TickPlan) {
    let changed = i.fullscreen != e.last_fullscreen;
    let e1 = MotionEngine { last_fullscreen: i.fullscreen, ..e };
    if i.paused || (i.fullscreen && i.hide_in_fullscreen) {
        (e1, TickPlan { fullscreen_changed: changed, drag_ended: false, phase: MotionPhase::Hidden })
    } else if i.dragging {
        (
            MotionEngine { was_dragging: true, ..e1 },
            TickPlan { fullscreen_changed: changed, drag_ended: false, phase: MotionPhase::Dragging },
        )
    } else {
        let e2 = if e.was_dragging {
            MotionEngine {
                was_dragging: false,
                drag_moved: false,
                drag_animation: None,
                drag: fresh_drag(),
                ..e1
            }
        } else {
            e1
        };
        let phase = if i.interacting {
            MotionPhase::Interacting
        } else if !i.roaming_enabled || i.reduced_motion {
            MotionPhase::Resting
        } else {
            MotionPhase::Roaming
        };
        (e2, TickPlan { fullscreen_changed: changed, drag_ended: e.was_dragging, phase })
    }
}

/// What a drag observation announces: the first movement of the drag, the
/// start of the animation, and a heading different from the one shown.
pub open spec fn drag_events_spec(e: MotionEngine, o: DragObservation) -> (MotionEngine, DragEvents) {
    let moved = o.moved && !e.drag_moved;
    let heading = match o.direction {
        Some(d) => if e.drag_animation != Some(d) {
            Some(d)
        } else {
            None
        },
        None => None,
    };
    (
        MotionEngine {
            drag_moved: e.drag_moved || moved,
            drag_animation: if heading is Some {
                heading
            } else {
                e.drag_animation
            },
            ..e
        },
        DragEvents { moved, start_visual: o.start_visual, heading },
    )
}

impl MotionEngine {
    pub fn new() -> (r: Self)
        ensures
            !r.last_fullscreen && !r.was_dragging && !r.drag_moved && r.drag_animation is None
                && r.drag == fresh_drag(),
    {
        MotionEngine {
            last_fullscreen: false,
            was_dragging: false,
            drag_moved: false,
            drag_animation: None,
            drag: DragProgress::new(),
        }
    }

    pub fn tick(&mut self, inputs: TickInputs) -> (r: TickPlan)
        ensures
            (*final(self), r) == tick_spec(*old(self), inputs),
    {
        let changed = inputs.fullscreen != self.last_fullscreen;
        self.last_fullscreen = inputs.fullscreen;
        if inputs.paused || (inputs.fullscreen && inputs.hide_in_fullscreen) {
            return TickPlan { fullscreen_changed: changed, drag_ended: false, phase: MotionPhase::Hidden };
        }
        if inputs.dragging {
            self.was_dragging = true;
            return TickPlan {
                fullscreen_changed: changed,
                drag_ended: false,
                phase: MotionPhase::Dragging,
            };
        }
        let ended = self.was_dragging;
        if ended {
            self.was_dragging = false;
            self.drag_moved = false;
            self.drag_animation = None;
            self.drag = DragProgress::new();
        }
        let phase = if inputs.interacting {
            MotionPhase::Interacting
        } else if !inputs.roaming_enabled || inputs.reduced_motion {
            MotionPhase::Resting
        } else {
            MotionPhase::Roaming
        };
        TickPlan { fullscreen_changed: changed, drag_ended: ended, phase }
    }

    /// Feeds one drag sample to the drag and decides what to announce.
    pub fn drag_sample(&mut self, travelled: bool, heading: Option<DragDirection>, animate: bool) -> (r: (
        DragObservation,
        DragEvents,
    ))
        ensures
            observe_spec(old(self).drag, travelled, heading, animate) == (final(self).drag, r.0),
            ({
                let mid = MotionEngine { drag: final(self).drag, ..*old(self) };
                drag_events_spec(mid, r.0) == (*final(self), r.1)
            }),
    {
        let observation = self.drag.observe(travelled, heading, animate);
        let moved = observation.moved && !self.drag_moved;
        if moved {
            self.drag_moved = true;
        }
        let new_heading = match observation.direction {
            Some(d) => if self.drag_animation != Some(d) {
                Some(d)
            } else {
                None
            },
            None => None,
        };
        if new_heading.is_some() {
            self.drag_animation = new_heading;
        }
        (observation, DragEvents { moved, start_visual: observation.start_visual, heading: new_heading })
    }
}

} // verus!
