//! Stable segments of a touch session: runs of frames over which the fingers
//! and the coordinate-bearing contacts stay the same.

use vstd::prelude::*;

use crate::touch_frame::{coordinate_contact_ids, same_contacts, TouchFrame, TouchPoint};

verus! {

/// Where the fingers were, and when.
#[derive(Debug, Clone, Copy, PartialEq, Eq, Structural)]
pub struct Sample {
    pub timestamp_micros: u128,
    pub point: TouchPoint,
}

/// What a session keeps of a frame.
#[verifier::ext_equal]
pub struct Shot {
    pub fingers: u8,
    pub timestamp_micros: Option<u128>,
    pub centroid: Option<TouchPoint>,
    pub tracking_complete: bool,
    pub located: Seq<(u16, i32)>,
}

/// What a session keeps of a frame.
#[derive(Debug)]
pub struct SessionFrame {
    pub fingers: u8,
    pub timestamp_micros: Option<u128>,
    pub centroid: Option<TouchPoint>,
    pub tracking_complete: bool,
    /// The contacts with complete coordinates, by slot and tracking ID.
    pub located: Vec<(u16, i32)>,
}

impl View for SessionFrame {
    type V = Shot;

    open spec fn view(&self) -> Shot {
        Shot {
            fingers: self.fingers,
            timestamp_micros: self.timestamp_micros,
            centroid: self.centroid,
            tracking_complete: self.tracking_complete,
            located: self.located@,
        }
    }
}

/// What a session keeps of a frame.
pub open spec fn shot_of(frame: crate::touch_frame::FrameView) -> Shot {
    Shot {
        fingers: frame.fingers,
        timestamp_micros: frame.timestamp_micros,
        centroid: frame.centroid,
        tracking_complete: frame.tracking_complete,
        located: crate::touch_frame::located_ids(frame.contacts),
    }
}

/// The frames of a session.
pub open spec fn shots(frames: Seq<SessionFrame>) -> Seq<Shot> {
    frames.map_values(|frame: SessionFrame| frame@)
}

/// Takes from a frame what a session keeps of it.
pub fn session_frame(frame: &TouchFrame) -> (kept: SessionFrame)
    ensures
        kept@ == shot_of(frame@),
{
    SessionFrame {
        fingers: frame.fingers,
        timestamp_micros: frame.timestamp_micros,
        centroid: frame.centroid,
        tracking_complete: frame.tracking_complete,
        located: coordinate_contact_ids(&frame.contacts),
    }
}

/// Whether a frame counts for a rule with a finger count and a tracking policy.
pub open spec fn counts(shot: Shot, fingers: u8, complete: bool) -> bool {
    &&& shot.fingers == fingers
    &&& shot.timestamp_micros is Some
    &&& shot.centroid is Some
    &&& complete ==> shot.tracking_complete
}

/// Where the fingers were in a frame that counts.
pub open spec fn sample_of(shot: Shot) -> Sample {
    Sample { timestamp_micros: shot.timestamp_micros->0, point: shot.centroid->0 }
}

/// The sample of a frame, where it counts.
pub fn sample(frame: &SessionFrame, fingers: u8, complete: bool) -> (result: Option<Sample>)
    ensures
        result == if counts(frame@, fingers, complete) {
            Some(sample_of(frame@))
        } else {
            None
        },
{
    if frame.fingers != fingers || (complete && !frame.tracking_complete) {
        return None;
    }
    match (frame.timestamp_micros, frame.centroid) {
        (Some(timestamp_micros), Some(point)) => Some(Sample { timestamp_micros, point }),
        _ => None,
    }
}

/// Whether the last frame of a session goes on where the one before it left
/// off, for a rule that counts them both.
pub open spec fn goes_on(session: Seq<Shot>, fingers: u8, complete: bool) -> bool {
    &&& session.len() >= 2
    &&& counts(session.last(), fingers, complete)
    &&& counts(session[session.len() - 2], fingers, complete)
    &&& session.last().located == session[session.len() - 2].located
}

/// The run of frames that a session ends with.
pub open spec fn open_run(session: Seq<Shot>, fingers: u8, complete: bool) -> Seq<Sample>
    decreases session.len(),
{
    if session.len() == 0 || !counts(session.last(), fingers, complete) {
        Seq::empty()
    } else if goes_on(session, fingers, complete) {
        open_run(session.drop_last(), fingers, complete).push(sample_of(session.last()))
    } else {
        seq![sample_of(session.last())]
    }
}

/// How long a run lasts.
pub open spec fn duration(run: Seq<Sample>) -> int {
    run.last().timestamp_micros - run[0].timestamp_micros
}

/// Whether a run can be measured: it has at least two samples, and time passes.
pub open spec fn measurable(run: Seq<Sample>) -> bool {
    run.len() >= 2 && duration(run) > 0
}

/// Whether a run is preferred to another: it lasts longer, or as long with more
/// samples.
pub open spec fn outlasts(run: Seq<Sample>, other: Seq<Sample>) -> bool {
    duration(run) > duration(other) || (duration(run) == duration(other) && run.len() > other.len())
}

/// The better of a run and the best so far; the later of two that are equal.
pub open spec fn better(best: Option<Seq<Sample>>, run: Seq<Sample>) -> Option<Seq<Sample>> {
    if !measurable(run) {
        best
    } else {
        match best {
            Some(other) => if outlasts(other, run) {
                best
            } else {
                Some(run)
            },
            None => Some(run),
        }
    }
}

/// The best run that has ended before the last frame of a session.
pub open spec fn best_closed(session: Seq<Shot>, fingers: u8, complete: bool) -> Option<Seq<Sample>>
    decreases session.len(),
{
    if session.len() == 0 {
        None
    } else {
        let earlier = session.drop_last();
        let best = best_closed(earlier, fingers, complete);
        if goes_on(session, fingers, complete) {
            best
        } else {
            better(best, open_run(earlier, fingers, complete))
        }
    }
}

/// The longest stable segment of a session for a finger count and a tracking
/// policy, where there is one that can be measured.
pub open spec fn best_run(session: Seq<Shot>, fingers: u8, complete: bool) -> Option<Seq<Sample>> {
    better(best_closed(session, fingers, complete), open_run(session, fingers, complete))
}

/// An optional run.
pub open spec fn run_view(run: Option<Vec<Sample>>) -> Option<Seq<Sample>> {
    match run {
        Some(run) => Some(run@),
        None => None,
    }
}

fn prefer(best: Option<Vec<Sample>>, run: Vec<Sample>) -> (result: Option<Vec<Sample>>)
    requires
        best matches Some(other) ==> measurable(other@),
    ensures
        run_view(result) == better(run_view(best), run@),
        result matches Some(other) ==> measurable(other@),
{
    let count: usize = run.len();
    if count < 2 {
        return best;
    }
    let first: u128 = run[0].timestamp_micros;
    let last: u128 = run[count - 1].timestamp_micros;
    assert(run@.last() == run@[count - 1]);
    if last <= first {
        return best;
    }
    let keep: bool = match &best {
        Some(other) => {
            let others: usize = other.len();
            assert(other@.last() == other@[others - 1]);
            let lasting: u128 = other[others - 1].timestamp_micros - other[0].timestamp_micros;
            lasting > last - first || (lasting == last - first && others > count)
        },
        None => false,
    };
    if keep {
        best
    } else {
        Some(run)
    }
}

/// Finds the longest stable segment of a session.
pub fn best_segment(session: &Vec<SessionFrame>, fingers: u8, complete: bool) -> (result: Option<
    Vec<Sample>,
>)
    ensures
        run_view(result) == best_run(shots(session@), fingers, complete),
        result matches Some(run) ==> measurable(run@),
{
    let ghost all = shots(session@);
    let mut best: Option<Vec<Sample>> = None;
    let mut run: Vec<Sample> = Vec::new();
    let mut index: usize = 0;
    while index < session.len()
        invariant
            index <= session@.len(),
            all == shots(session@),
            all.len() == session@.len(),
            run@ == open_run(all.take(index as int), fingers, complete),
            run_view(best) == best_closed(all.take(index as int), fingers, complete),
            best matches Some(other) ==> measurable(other@),
        decreases session@.len() - index,
    {
        let ghost before = all.take(index as int);
        let ghost after = all.take(index + 1);
        assert(after.drop_last() =~= before);
        assert(after.last() == session@[index as int]@);
        let found = sample(&session[index], fingers, complete);
        let mut on: bool = false;
        if index > 0 && found.is_some() && sample(&session[index - 1], fingers, complete).is_some() {
            on = same_contacts(&session[index].located, &session[index - 1].located);
            assert(after[after.len() - 2] == session@[index - 1]@);
        }
        assert(on == goes_on(after, fingers, complete)) by {
            if index > 0 {
                assert(after[after.len() - 2] == session@[index - 1]@);
            }
        }
        if !on {
            let mut closed: Vec<Sample> = Vec::new();
            std::mem::swap(&mut closed, &mut run);
            best = prefer(best, closed);
        }
        if let Some(found) = found {
            run.push(found);
        }
        assert(run@ =~= open_run(after, fingers, complete));
        index = index + 1;
    }
    assert(all.take(index as int) =~= all);
    prefer(best, run)
}

/// Whether the `i`-th sample of a run that ends before `end` is that of its
/// frame, and the frame counts and has the coordinate-bearing contacts of the
/// run's last frame.
pub open spec fn stands(
    session: Seq<Shot>,
    fingers: u8,
    complete: bool,
    run: Seq<Sample>,
    end: int,
    i: int,
) -> bool {
    let shot = session[end - run.len() + i];
    &&& counts(shot, fingers, complete)
    &&& run[i] == sample_of(shot)
    &&& shot.located == session[end - 1].located
}

/// Whether a run is a stretch of consecutive frames that ends before `end`, all
/// with the given finger count and tracking, and all with the same
/// coordinate-bearing contacts.
pub open spec fn stable(
    session: Seq<Shot>,
    fingers: u8,
    complete: bool,
    run: Seq<Sample>,
    end: int,
) -> bool {
    &&& run.len() <= end <= session.len()
    &&& forall|i: int|
        0 <= i < run.len() ==> #[trigger] stands(session, fingers, complete, run, end, i)
}

proof fn lemma_stable_in_longer(
    shorter: Seq<Shot>,
    longer: Seq<Shot>,
    fingers: u8,
    complete: bool,
    run: Seq<Sample>,
    end: int,
)
    requires
        shorter.len() <= longer.len(),
        longer.take(shorter.len() as int) == shorter,
        stable(shorter, fingers, complete, run, end),
    ensures
        stable(longer, fingers, complete, run, end),
{
    assert forall|i: int| 0 <= i < run.len() implies #[trigger] stands(
        longer,
        fingers,
        complete,
        run,
        end,
        i,
    ) by {
        assert(stands(shorter, fingers, complete, run, end, i));
        assert(shorter[end - run.len() + i] == longer[end - run.len() + i]);
        assert(shorter[end - 1] == longer[end - 1]);
    }
}

proof fn lemma_open_run(session: Seq<Shot>, fingers: u8, complete: bool)
    ensures
        stable(
            session,
            fingers,
            complete,
            open_run(session, fingers, complete),
            session.len() as int,
        ),
    decreases session.len(),
{
    let run = open_run(session, fingers, complete);
    let end = session.len() as int;
    if session.len() > 0 && goes_on(session, fingers, complete) {
        let earlier = session.drop_last();
        let shorter = open_run(earlier, fingers, complete);
        lemma_open_run(earlier, fingers, complete);
        assert forall|i: int| 0 <= i < run.len() implies #[trigger] stands(
            session,
            fingers,
            complete,
            run,
            end,
            i,
        ) by {
            if i < shorter.len() {
                assert(stands(earlier, fingers, complete, shorter, end - 1, i));
                assert(run[i] == shorter[i]);
                assert(earlier[end - 1 - shorter.len() + i] == session[end - run.len() + i]);
                assert(earlier[end - 2] == session[end - 2]);
            }
        }
    } else if session.len() > 0 && counts(session.last(), fingers, complete) {
        assert(stands(session, fingers, complete, run, end, 0));
    }
}

proof fn lemma_best_closed(session: Seq<Shot>, fingers: u8, complete: bool) -> (end: int)
    requires
        best_closed(session, fingers, complete) is Some,
    ensures
        0 <= end < session.len(),
        measurable(best_closed(session, fingers, complete)->0),
        stable(session, fingers, complete, best_closed(session, fingers, complete)->0, end),
    decreases session.len(),
{
    let earlier = session.drop_last();
    assert(session.take(earlier.len() as int) =~= earlier);
    let run = open_run(earlier, fingers, complete);
    let best = best_closed(session, fingers, complete)->0;
    if !goes_on(session, fingers, complete) && measurable(run) && best == run {
        lemma_open_run(earlier, fingers, complete);
        lemma_stable_in_longer(earlier, session, fingers, complete, run, earlier.len() as int);
        earlier.len() as int
    } else {
        let end = lemma_best_closed(earlier, fingers, complete);
        lemma_stable_in_longer(earlier, session, fingers, complete, best, end);
        end
    }
}

/// A segment that is classified is a stretch of consecutive frames with the
/// rule's finger count and tracking, over which the coordinate-bearing contacts
/// do not change; it has at least two samples, and time passes over it.
pub proof fn law_segments_are_stable(session: Seq<Shot>, fingers: u8, complete: bool) -> (end: int)
    requires
        best_run(session, fingers, complete) is Some,
    ensures
        measurable(best_run(session, fingers, complete)->0),
        stable(session, fingers, complete, best_run(session, fingers, complete)->0, end),
{
    let run = open_run(session, fingers, complete);
    if measurable(run) && best_run(session, fingers, complete) == Some(run) {
        lemma_open_run(session, fingers, complete);
        session.len() as int
    } else {
        lemma_best_closed(session, fingers, complete)
    }
}

/// Whether a run that ends before `end` is not continued by the next frame.
pub open spec fn ends_at(session: Seq<Shot>, fingers: u8, complete: bool, end: int) -> bool {
    0 <= end <= session.len() && (end == session.len() || !goes_on(
        session.take(end + 1),
        fingers,
        complete,
    ))
}

proof fn lemma_closed_run_considered(session: Seq<Shot>, fingers: u8, complete: bool, end: int)
    requires
        0 <= end < session.len(),
        ends_at(session, fingers, complete, end),
        measurable(open_run(session.take(end), fingers, complete)),
    ensures
        best_closed(session, fingers, complete) is Some,
        !outlasts(
            open_run(session.take(end), fingers, complete),
            best_closed(session, fingers, complete)->0,
        ),
    decreases session.len(),
{
    let earlier = session.drop_last();
    assert(earlier.take(end) =~= session.take(end));
    if end == earlier.len() {
        assert(session.take(end) =~= earlier);
        assert(session.take(end + 1) =~= session);
    } else {
        assert(earlier.take(end + 1) =~= session.take(end + 1));
        lemma_closed_run_considered(earlier, fingers, complete, end);
    }
}

/// The longest stable segment is the one that is classified: no complete run of
/// the session outlasts it.
pub proof fn law_the_longest_segment_is_classified(
    session: Seq<Shot>,
    fingers: u8,
    complete: bool,
    end: int,
)
    requires
        ends_at(session, fingers, complete, end),
        measurable(open_run(session.take(end), fingers, complete)),
    ensures
        best_run(session, fingers, complete) is Some,
        !outlasts(
            open_run(session.take(end), fingers, complete),
            best_run(session, fingers, complete)->0,
        ),
{
    if end == session.len() {
        assert(session.take(end) =~= session);
    } else {
        lemma_closed_run_considered(session, fingers, complete, end);
    }
}

} // verus!
