//! Tracking of precise (trackpad) scroll gestures across frames.
//!
//! A gesture begins with a `Start` event, continues with `Move` events and
//! ends with `End` or `Cancel`. A gesture that starts while the canvas owns
//! the pointer is active, and it targets the board when Command or Control
//! was held at its start; one that starts while something else owns the
//! pointer is suppressed until it ends. Between frames only the stored
//! gesture persists.
use vstd::prelude::*;

verus! {

/// The phase of one precise scroll event.
#[derive(Clone, Copy, Debug, PartialEq, Eq)]
pub enum TouchPhase {
    Start,
    Move,
    End,
    Cancel,
}

/// One precise scroll event: its phase, and whether Command or Control was
/// held.
#[derive(Clone, Copy, Debug, PartialEq, Eq)]
pub struct GestureEvent {
    pub phase: TouchPhase,
    pub board_modifier: bool,
}

/// What the tracker keeps between frames.
#[derive(Clone, Copy, Debug, PartialEq, Eq)]
pub struct StoredGesture {
    pub active: bool,
    pub suppressed: bool,
    pub board_target: bool,
}

impl Default for StoredGesture {
    fn default() -> (g: Self)
        ensures
            g == no_gesture(),
    {
        StoredGesture { active: false, suppressed: false, board_target: false }
    }
}

/// No gesture in progress.
pub open spec fn no_gesture() -> StoredGesture {
    StoredGesture { active: false, suppressed: false, board_target: false }
}

/// The gesture as one frame sees it.
#[derive(Clone, Copy, Debug, PartialEq, Eq)]
pub struct MacosTrackpadGesture {
    pub active: bool,
    pub suppressed: bool,
    pub board_target: bool,
    pub started: bool,
    pub finished: bool,
}

/// The tracker part way through a frame's events: the stored gesture, the
/// frame's target (`Some(board)` while a gesture is active in the frame),
/// whether the frame is suppressed, and whether a gesture started or ended.
pub struct GestureFold {
    pub stored: StoredGesture,
    pub target: Option<bool>,
    pub suppressed: bool,
    pub started: bool,
    pub finished: bool,
}

/// The tracker before the frame's first event.
pub open spec fn fold_start(stored: StoredGesture) -> GestureFold {
    GestureFold {
        stored,
        target: if stored.active {
            Some(stored.board_target)
        } else {
            None
        },
        suppressed: stored.suppressed,
        started: false,
        finished: false,
    }
}

/// The frame's target once the current gesture has been seen: the stored
/// gesture's target while it is active, the earlier target otherwise.
pub open spec fn current_target(f: GestureFold) -> Option<bool> {
    if f.stored.active {
        Some(f.stored.board_target)
    } else {
        f.target
    }
}

/// The tracker after one more event.
pub open spec fn fold_event(f: GestureFold, e: GestureEvent, pointer_owned: bool) -> GestureFold {
    match e.phase {
        TouchPhase::Start => GestureFold {
            stored: StoredGesture {
                active: pointer_owned,
                suppressed: !pointer_owned,
                board_target: e.board_modifier,
            },
            target: if pointer_owned {
                Some(e.board_modifier)
            } else {
                None
            },
            suppressed: !pointer_owned,
            started: pointer_owned,
            finished: f.finished,
        },
        TouchPhase::Move => GestureFold {
            stored: f.stored,
            target: current_target(f),
            suppressed: f.stored.suppressed,
            started: f.started,
            finished: f.finished,
        },
        _ => GestureFold {
            stored: no_gesture(),
            target: current_target(f),
            suppressed: f.stored.suppressed,
            started: f.started,
            finished: true,
        },
    }
}

/// The tracker after `events`, in order.
pub open spec fn fold_events(stored: StoredGesture, events: Seq<GestureEvent>, pointer_owned: bool) -> GestureFold
    decreases events.len(),
{
    if events.len() == 0 {
        fold_start(stored)
    } else {
        fold_event(fold_events(stored, events.drop_last(), pointer_owned), events.last(), pointer_owned)
    }
}

/// The frame's view of a finished fold.
pub open spec fn frame_gesture(f: GestureFold) -> MacosTrackpadGesture {
    MacosTrackpadGesture {
        active: f.target is Some,
        suppressed: f.suppressed,
        board_target: match f.target {
            Some(board) => board,
            None => false,
        },
        started: f.started,
        finished: f.finished,
    }
}

/// Read one frame's precise scroll events against the stored gesture:
/// returns the gesture to store for the next frame and the frame's view.
pub fn track_gesture(stored: StoredGesture, events: &Vec<GestureEvent>, pointer_owned: bool) -> (r: (
    StoredGesture,
    MacosTrackpadGesture,
))
    ensures
        r.0 == fold_events(stored, events@, pointer_owned).stored,
        r.1 == frame_gesture(fold_events(stored, events@, pointer_owned)),
{
    let mut current = stored;
    let mut target: Option<bool> = if stored.active {
        Some(stored.board_target)
    } else {
        None
    };
    let mut suppressed = stored.suppressed;
    let mut started = false;
    let mut finished = false;
    let mut i: usize = 0;
    while i < events.len()
        invariant
            i <= events@.len(),
            fold_events(stored, events@.subrange(0, i as int), pointer_owned) == (GestureFold {
                stored: current,
                target,
                suppressed,
                started,
                finished,
            }),
        decreases events.len() - i,
    {
        let event = events[i];
        proof {
            let prefix = events@.subrange(0, i as int + 1);
            assert(prefix.drop_last() =~= events@.subrange(0, i as int));
            assert(prefix.last() == event);
        }
        match event.phase {
            TouchPhase::Start => {
                started = pointer_owned;
                current = StoredGesture {
                    active: pointer_owned,
                    suppressed: !pointer_owned,
                    board_target: event.board_modifier,
                };
                target = if pointer_owned {
                    Some(event.board_modifier)
                } else {
                    None
                };
                suppressed = !pointer_owned;
            },
            TouchPhase::Move => {
                if current.active {
                    target = Some(current.board_target);
                }
                suppressed = current.suppressed;
            },
            TouchPhase::End | TouchPhase::Cancel => {
                finished = true;
                if current.active {
                    target = Some(current.board_target);
                }
                suppressed = current.suppressed;
                current = StoredGesture::default();
            },
        }
        i = i + 1;
    }
    assert(events@.subrange(0, events@.len() as int) =~= events@);
    let frame = MacosTrackpadGesture {
        active: target.is_some(),
        suppressed,
        board_target: match target {
            Some(board) => board,
            None => false,
        },
        started,
        finished,
    };
    (current, frame)
}

/// Keep the stored gesture in step while something else owns the pointer:
/// with the pointer owned, or no precise scroll event this frame, nothing
/// changes; otherwise the events are tracked as unowned, and the canvas's
/// navigation target is to be cleared when a gesture ended.
pub fn sync_gesture(stored: StoredGesture, events: &Vec<GestureEvent>, pointer_owned: bool) -> (r: (
    StoredGesture,
    bool,
))
    ensures
        pointer_owned || events@.len() == 0 ==> r == (stored, false),
        !pointer_owned && events@.len() > 0 ==> r == (
            fold_events(stored, events@, false).stored,
            fold_events(stored, events@, false).finished,
        ),
{
    if pointer_owned || events.len() == 0 {
        return (stored, false);
    }
    let (next, frame) = track_gesture(stored, events, false);
    (next, frame.finished)
}

/// A stored gesture is never both active and suppressed.
pub open spec fn stored_well_formed(g: StoredGesture) -> bool {
    !(g.active && g.suppressed)
}

/// The tracker keeps the stored gesture well formed, and a frame's gesture is
/// never both active and suppressed.
pub proof fn lemma_tracking_keeps_gestures_consistent(
    stored: StoredGesture,
    events: Seq<GestureEvent>,
    pointer_owned: bool,
)
    requires
        stored_well_formed(stored),
    ensures
        stored_well_formed(fold_events(stored, events, pointer_owned).stored),
        !(frame_gesture(fold_events(stored, events, pointer_owned)).active && frame_gesture(
            fold_events(stored, events, pointer_owned),
        ).suppressed),
    decreases events.len(),
{
    lemma_fold_consistent(stored, events, pointer_owned);
}

proof fn lemma_fold_consistent(stored: StoredGesture, events: Seq<GestureEvent>, pointer_owned: bool)
    requires
        stored_well_formed(stored),
    ensures
        stored_well_formed(fold_events(stored, events, pointer_owned).stored),
        !(fold_events(stored, events, pointer_owned).target is Some && fold_events(
            stored,
            events,
            pointer_owned,
        ).suppressed),
        fold_events(stored, events, pointer_owned).stored.active ==> fold_events(
            stored,
            events,
            pointer_owned,
        ).target is Some,
        fold_events(stored, events, pointer_owned).stored.suppressed ==> fold_events(
            stored,
            events,
            pointer_owned,
        ).target is None,
    decreases events.len(),
{
    if events.len() > 0 {
        lemma_fold_consistent(stored, events.drop_last(), pointer_owned);
    }
}

/// A frame in which the canvas does not own the pointer starts no gesture,
/// and leaves a gesture active for later frames only if one already was.
pub proof fn lemma_unowned_frames_start_nothing(stored: StoredGesture, events: Seq<GestureEvent>)
    ensures
        !fold_events(stored, events, false).started,
        fold_events(stored, events, false).stored.active ==> stored.active,
    decreases events.len(),
{
    if events.len() > 0 {
        lemma_unowned_frames_start_nothing(stored, events.drop_last());
    }
}

/// A frame whose last event ends the gesture stores no gesture and reports
/// it finished.
pub proof fn lemma_ending_clears_the_gesture(
    stored: StoredGesture,
    events: Seq<GestureEvent>,
    pointer_owned: bool,
)
    requires
        events.len() > 0,
        events.last().phase == TouchPhase::End || events.last().phase == TouchPhase::Cancel,
    ensures
        fold_events(stored, events, pointer_owned).stored == no_gesture(),
        fold_events(stored, events, pointer_owned).finished,
{
}

} // verus!
