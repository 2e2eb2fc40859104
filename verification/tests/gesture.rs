use plotx::gesture::{
    sync_gesture, track_gesture, GestureEvent, MacosTrackpadGesture, StoredGesture, TouchPhase,
};

fn event(phase: TouchPhase, board_modifier: bool) -> GestureEvent {
    GestureEvent { phase, board_modifier }
}

fn frame(active: bool, suppressed: bool, board_target: bool, started: bool, finished: bool) -> MacosTrackpadGesture {
    MacosTrackpadGesture { active, suppressed, board_target, started, finished }
}

#[test]
fn an_owned_start_activates_the_gesture() {
    let (stored, seen) = track_gesture(
        StoredGesture::default(),
        &vec![event(TouchPhase::Start, true), event(TouchPhase::Move, false)],
        true,
    );
    assert_eq!(stored, StoredGesture { active: true, suppressed: false, board_target: true });
    assert_eq!(seen, frame(true, false, true, true, false));
}

#[test]
fn an_unowned_start_is_suppressed_until_it_ends() {
    let (stored, seen) = track_gesture(
        StoredGesture::default(),
        &vec![event(TouchPhase::Start, false), event(TouchPhase::Move, false)],
        false,
    );
    assert_eq!(stored, StoredGesture { active: false, suppressed: true, board_target: false });
    assert_eq!(seen, frame(false, true, false, false, false));

    // Later frames keep it suppressed even once the canvas owns the pointer.
    let (stored, seen) = track_gesture(stored, &vec![event(TouchPhase::Move, false)], true);
    assert_eq!(seen, frame(false, true, false, false, false));
    let (stored, seen) = track_gesture(stored, &vec![event(TouchPhase::End, false)], true);
    assert_eq!(stored, StoredGesture::default());
    assert_eq!(seen, frame(false, true, false, false, true));
}

#[test]
fn an_active_gesture_keeps_its_target_through_its_last_frame() {
    let active = StoredGesture { active: true, suppressed: false, board_target: false };
    let (stored, seen) = track_gesture(active, &Vec::new(), false);
    assert_eq!(stored, active);
    assert_eq!(seen, frame(true, false, false, false, false));

    let (stored, seen) = track_gesture(
        active,
        &vec![event(TouchPhase::Move, true), event(TouchPhase::Cancel, true)],
        true,
    );
    assert_eq!(stored, StoredGesture::default());
    assert_eq!(seen, frame(true, false, false, false, true));
}

#[test]
fn syncing_tracks_only_frames_the_canvas_does_not_own() {
    let active = StoredGesture { active: true, suppressed: false, board_target: true };
    let ending = vec![event(TouchPhase::End, false)];
    assert_eq!(sync_gesture(active, &ending, true), (active, false));
    assert_eq!(sync_gesture(active, &Vec::new(), false), (active, false));
    assert_eq!(sync_gesture(active, &ending, false), (StoredGesture::default(), true));
    assert_eq!(
        sync_gesture(StoredGesture::default(), &vec![event(TouchPhase::Start, true)], false),
        (StoredGesture { active: false, suppressed: true, board_target: true }, false)
    );
}
