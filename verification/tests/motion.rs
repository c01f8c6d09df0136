use deskmate::motion::{
    idle_pause_seconds, pick_roaming_target, DragDirection, DragProgress, MotionEngine,
    MotionPhase, TickInputs, WorkArea,
};

fn inputs() -> TickInputs {
    TickInputs {
        paused: false,
        fullscreen: false,
        hide_in_fullscreen: true,
        dragging: false,
        interacting: false,
        roaming_enabled: true,
        reduced_motion: false,
    }
}

#[test]
fn the_first_drag_sample_only_starts_the_drag() {
    let mut drag = DragProgress::new();
    let first = drag.observe(true, Some(DragDirection::Right), true);
    assert!(!first.moved);
    assert!(first.start_visual);
    assert_eq!(first.direction, None);
    let next = drag.observe(true, None, true);
    assert!(next.moved);
    assert!(!next.start_visual);
    assert_eq!(next.direction, None);
}

#[test]
fn small_samples_do_not_count_as_movement_until_the_threshold() {
    let mut drag = DragProgress::new();
    assert!(!drag.observe(false, None, true).moved);
    assert!(!drag.observe(false, None, true).moved);
    let third = drag.observe(true, Some(DragDirection::Right), true);
    assert!(third.moved);
    assert_eq!(third.direction, Some(DragDirection::Right));
    // Movement is reported once per drag.
    assert!(!drag.observe(true, Some(DragDirection::Left), true).moved);
}

#[test]
fn a_roaming_drag_has_no_direction_animation() {
    let mut drag = DragProgress::new();
    let first = drag.observe(false, None, false);
    let next = drag.observe(true, Some(DragDirection::Left), false);
    assert!(!first.start_visual);
    assert!(next.moved);
    assert!(!next.start_visual);
    assert_eq!(next.direction, None);
}

#[test]
fn the_animation_starts_once_when_animation_is_switched_on_mid_drag() {
    let mut drag = DragProgress::new();
    assert!(!drag.observe(false, None, false).start_visual);
    assert!(drag.observe(false, None, true).start_visual);
    assert!(!drag.observe(false, None, true).start_visual);
}

#[test]
fn ticks_hide_the_pet_while_paused_or_behind_a_fullscreen_app() {
    let mut engine = MotionEngine::new();
    let plan = engine.tick(TickInputs { paused: true, ..inputs() });
    assert_eq!(plan.phase, MotionPhase::Hidden);
    assert!(!plan.fullscreen_changed);
    let plan = engine.tick(TickInputs { fullscreen: true, ..inputs() });
    assert_eq!(plan.phase, MotionPhase::Hidden);
    assert!(plan.fullscreen_changed);
    let plan = engine.tick(TickInputs { fullscreen: true, hide_in_fullscreen: false, ..inputs() });
    assert_eq!(plan.phase, MotionPhase::Roaming);
    assert!(!plan.fullscreen_changed);
}

#[test]
fn a_drag_is_followed_then_announced_once_when_it_ends() {
    let mut engine = MotionEngine::new();
    assert_eq!(engine.tick(TickInputs { dragging: true, ..inputs() }).phase, MotionPhase::Dragging);
    let (_, events) = engine.drag_sample(false, None, true);
    assert!(events.start_visual);
    let (_, events) = engine.drag_sample(true, Some(DragDirection::Left), true);
    assert!(events.moved);
    assert_eq!(events.heading, Some(DragDirection::Left));
    let (_, events) = engine.drag_sample(true, Some(DragDirection::Left), true);
    assert!(!events.moved);
    assert_eq!(events.heading, None);
    let plan = engine.tick(inputs());
    assert!(plan.drag_ended);
    assert_eq!(plan.phase, MotionPhase::Roaming);
    assert!(!engine.tick(inputs()).drag_ended);
    assert!(!engine.drag.started);
}

#[test]
fn ticks_stand_still_when_interacting_or_roaming_is_off() {
    let mut engine = MotionEngine::new();
    assert_eq!(engine.tick(TickInputs { interacting: true, ..inputs() }).phase, MotionPhase::Interacting);
    assert_eq!(engine.tick(TickInputs { roaming_enabled: false, ..inputs() }).phase, MotionPhase::Resting);
    assert_eq!(engine.tick(TickInputs { reduced_motion: true, ..inputs() }).phase, MotionPhase::Resting);
}

#[test]
fn max_origin_in_negative_coordinate_work_area() {
    let area = WorkArea { left: -1920, top: -80, right: 0, bottom: 1000 };
    assert_eq!(area.max_origin(192, 208), (-192, 792));
    let tiny = WorkArea { left: 0, top: 0, right: 100, bottom: 100 };
    assert_eq!(tiny.max_origin(192, 208), (0, 0));
}

#[test]
fn recall_centres_the_pet_in_the_area() {
    let area = WorkArea { left: -1920, top: 0, right: 0, bottom: 1040 };
    assert_eq!(area.centered_origin(192, 208), (-1056, 416));
    let tiny = WorkArea { left: 10, top: 20, right: 100, bottom: 100 };
    assert_eq!(tiny.centered_origin(192, 208), (10, 20));
}

#[test]
fn roaming_targets_stay_inside_a_work_area() {
    assert!(pick_roaming_target(&vec![], 192, 208, 0).is_none());
    let areas = vec![
        WorkArea { left: -1920, top: 0, right: 0, bottom: 1040 },
        WorkArea { left: 0, top: 0, right: 1920, bottom: 1080 },
    ];
    for _ in 0..200 {
        let target = pick_roaming_target(&areas, 192, 208, 0).unwrap();
        assert!(areas.contains(&target.area));
        let (max_x, max_y) = target.area.max_origin(192, 208);
        assert!(target.area.left <= target.x && target.x <= max_x);
        assert!(target.area.top <= target.y && target.y <= max_y);
        assert_eq!(target.runs_right, target.x >= 0);
    }
}

#[test]
fn idle_pauses_last_two_to_six_seconds() {
    for _ in 0..200 {
        let seconds = idle_pause_seconds();
        assert!((2..=6).contains(&seconds));
    }
}
