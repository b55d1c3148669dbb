//! Decides, frame by frame, which physical contacts a virtual touchpad shows.
//!
//! One finger is shown at once. A second finger is held back for a short
//! arbitration window so that a third finger can claim the session first.
//! Three or more fingers show nothing until every contact is lifted.

use vstd::prelude::*;

use crate::codes::{event_kind, EventKind, SYN_REPORT};
use crate::output::VirtualEvent;
use crate::physical::{PhysicalSnapshot, PhysicalState, PhysicalView, SnapshotView};
use crate::raw_event::RawInputEvent;
use crate::synthesizer::{SynthesizerView, VirtualSynthesizer};

verus! {

/// How long a second finger waits for a third, in microseconds.
pub const TWO_FINGER_ARBITRATION_MICROS: u128 = 100_000;

#[derive(Debug, Clone, Copy, PartialEq, Eq, Structural)]
pub enum RoutingMode {
    Forwarding,
    PendingTwo { started_micros: u128 },
    Suppressing,
}

#[derive(Debug, Clone, Copy, PartialEq, Eq, Structural)]
pub enum RouteOutcome {
    Forwarded,
    PendingTwo,
    Suppressed,
    ReleasedAndSuppressed,
}

/// The events of one virtual frame, and how the frame came about.
#[derive(Debug)]
pub struct RoutedPacket {
    pub outcome: RouteOutcome,
    pub events: Vec<VirtualEvent>,
}

/// Whether the arbitration window that opened at `started` is over.
pub open spec fn window_over(started: u128, now: u128) -> bool {
    now - started >= TWO_FINGER_ARBITRATION_MICROS
}

/// The mode after a frame with so many fingers.
pub open spec fn next_mode(mode: RoutingMode, fingers: nat, now: u128) -> RoutingMode {
    match mode {
        RoutingMode::Forwarding => if fingers >= 3 {
            RoutingMode::Suppressing
        } else if fingers == 2 {
            RoutingMode::PendingTwo { started_micros: now }
        } else {
            RoutingMode::Forwarding
        },
        RoutingMode::PendingTwo { started_micros } => if fingers >= 3 {
            RoutingMode::Suppressing
        } else if fingers < 2 || window_over(started_micros, now) {
            RoutingMode::Forwarding
        } else {
            mode
        },
        RoutingMode::Suppressing => if fingers == 0 {
            RoutingMode::Forwarding
        } else {
            RoutingMode::Suppressing
        },
    }
}

/// How a frame with so many fingers is treated.
pub open spec fn route(mode: RoutingMode, fingers: nat, now: u128) -> RouteOutcome {
    match mode {
        RoutingMode::Suppressing => RouteOutcome::Suppressed,
        _ => match next_mode(mode, fingers, now) {
            RoutingMode::Forwarding => RouteOutcome::Forwarded,
            RoutingMode::PendingTwo { .. } => RouteOutcome::PendingTwo,
            RoutingMode::Suppressing => RouteOutcome::ReleasedAndSuppressed,
        },
    }
}

/// What a [`TouchpadRouter`] holds.
#[verifier::ext_equal]
pub struct RouterView {
    pub mode: RoutingMode,
    pub physical: PhysicalView,
    pub shown: SynthesizerView,
}

impl RouterView {
    /// Before any event.
    pub open spec fn initial() -> RouterView {
        RouterView {
            mode: RoutingMode::Forwarding,
            physical: PhysicalView::initial(),
            shown: SynthesizerView::initial(),
        }
    }

    pub open spec fn fingers(self) -> nat {
        self.physical.snapshot().fingers()
    }

    pub open spec fn outcome(self, now: u128) -> RouteOutcome {
        route(self.mode, self.fingers(), now)
    }

    /// What the virtual touchpad should show at the end of this frame.
    pub open spec fn desired(self, now: u128) -> SnapshotView {
        match self.outcome(now) {
            RouteOutcome::Forwarded => self.physical.snapshot(),
            RouteOutcome::PendingTwo => self.shown.pending(self.physical.snapshot()),
            RouteOutcome::Suppressed => SnapshotView::empty(),
            RouteOutcome::ReleasedAndSuppressed => SnapshotView::empty(),
        }
    }

    /// The events of the frame that ends now.
    pub open spec fn frame(self, now: u128) -> Seq<VirtualEvent> {
        self.shown.frame(self.desired(now))
    }

    /// The state after the frame that ends now.
    pub open spec fn frame_done(self, now: u128) -> RouterView {
        RouterView {
            mode: next_mode(self.mode, self.fingers(), now),
            physical: self.physical,
            shown: self.shown.showing(self.desired(now)),
        }
    }

    /// Whether an event ends a frame.
    pub open spec fn ends_frame(event: RawInputEvent) -> bool {
        crate::codes::kind_of(event.event_type@) == EventKind::Synchronization && event.code
            == SYN_REPORT
    }

    /// The state once an event is noted, before a frame that it may end.
    pub open spec fn noted(self, event: RawInputEvent) -> RouterView {
        RouterView { physical: self.physical.apply(event), ..self }
    }

    /// The time at which a noted event ends a frame: its own, else the latest
    /// one seen, else zero.
    pub open spec fn now(self) -> u128 {
        match self.physical.latest_timestamp_micros {
            Some(micros) => micros,
            None => 0,
        }
    }

    /// The state after a raw event.
    pub open spec fn pushed(self, event: RawInputEvent) -> RouterView {
        let noted = self.noted(event);
        if RouterView::ends_frame(event) {
            noted.frame_done(noted.now())
        } else {
            noted
        }
    }

    /// The state after every virtual contact is released.
    pub open spec fn released(self) -> RouterView {
        RouterView { shown: self.shown.showing(SnapshotView::empty()), ..self }
    }
}

/// Routes the events of one physical touchpad to a virtual one.
#[derive(Debug)]
pub struct TouchpadRouter {
    pub mode: RoutingMode,
    pub physical: PhysicalState,
    pub virtual_state: VirtualSynthesizer,
}

impl View for TouchpadRouter {
    type V = RouterView;

    open spec fn view(&self) -> RouterView {
        RouterView {
            mode: self.mode,
            physical: self.physical@,
            shown: self.virtual_state@,
        }
    }
}

impl TouchpadRouter {
    pub fn new() -> (router: TouchpadRouter)
        ensures
            router@ == RouterView::initial(),
    {
        TouchpadRouter {
            mode: RoutingMode::Forwarding,
            physical: PhysicalState::new(),
            virtual_state: VirtualSynthesizer::new(),
        }
    }

    /// Feeds one raw event. A packet is returned where it ends a frame.
    pub fn push(&mut self, event: &RawInputEvent) -> (packet: Option<RoutedPacket>)
        ensures
            final(self)@ == old(self)@.pushed(*event),
            packet is Some <==> RouterView::ends_frame(*event),
            packet matches Some(packet) ==> {
                let noted = old(self)@.noted(*event);
                &&& packet.outcome == noted.outcome(noted.now())
                &&& packet.events@ == noted.frame(noted.now())
            },
    {
        self.physical.apply(event);
        match event_kind(event.event_type.as_str()) {
            EventKind::Synchronization => {
                if event.code == SYN_REPORT {
                    let now: u128 = match event.timestamp_micros {
                        Some(micros) => micros,
                        None => match self.physical.latest_timestamp_micros {
                            Some(micros) => micros,
                            None => 0,
                        },
                    };
                    return Some(self.finish_frame(now));
                }
                None
            },
            _ => None,
        }
    }

    /// Ends a frame at a given time.
    pub fn finish_frame(&mut self, timestamp_micros: u128) -> (packet: RoutedPacket)
        ensures
            final(self)@ == old(self)@.frame_done(timestamp_micros),
            packet.outcome == old(self)@.outcome(timestamp_micros),
            packet.events@ == old(self)@.frame(timestamp_micros),
    {
        let physical = self.physical.snapshot();
        let fingers: usize = physical.fingers();
        let (mode, outcome, desired) = match self.mode {
            RoutingMode::Forwarding => {
                if fingers >= 3 {
                    (
                        RoutingMode::Suppressing,
                        RouteOutcome::ReleasedAndSuppressed,
                        PhysicalSnapshot::empty(),
                    )
                } else if fingers == 2 {
                    (
                        RoutingMode::PendingTwo { started_micros: timestamp_micros },
                        RouteOutcome::PendingTwo,
                        self.virtual_state.pending_snapshot(&physical),
                    )
                } else {
                    (RoutingMode::Forwarding, RouteOutcome::Forwarded, physical)
                }
            },
            RoutingMode::PendingTwo { started_micros } => {
                if fingers >= 3 {
                    (
                        RoutingMode::Suppressing,
                        RouteOutcome::ReleasedAndSuppressed,
                        PhysicalSnapshot::empty(),
                    )
                } else if fingers < 2 || timestamp_micros.saturating_sub(started_micros)
                    >= TWO_FINGER_ARBITRATION_MICROS {
                    (RoutingMode::Forwarding, RouteOutcome::Forwarded, physical)
                } else {
                    (
                        RoutingMode::PendingTwo { started_micros },
                        RouteOutcome::PendingTwo,
                        self.virtual_state.pending_snapshot(&physical),
                    )
                }
            },
            RoutingMode::Suppressing => {
                (
                    if fingers == 0 {
                        RoutingMode::Forwarding
                    } else {
                        RoutingMode::Suppressing
                    },
                    RouteOutcome::Suppressed,
                    PhysicalSnapshot::empty(),
                )
            },
        };
        self.mode = mode;
        RoutedPacket { outcome, events: self.virtual_state.synthesize(&desired) }
    }

    /// Ends every contact that is visible on the virtual touchpad.
    pub fn release_packet(&mut self) -> (events: Vec<VirtualEvent>)
        ensures
            final(self)@ == old(self)@.released(),
            events@ == old(self)@.shown.frame(SnapshotView::empty()),
    {
        let nothing = PhysicalSnapshot::empty();
        self.virtual_state.synthesize(&nothing)
    }
}

/// Three or more fingers claim a session, and a claimed session stays so while
/// any finger is down: nothing is shown. It is over with the frame in which the
/// last finger is lifted, which is still suppressed. A frame that claims a
/// session is the only kind that releases and suppresses.
pub proof fn law_sessions_are_claimed(router: RouterView, now: u128)
    ensures
        router.fingers() >= 3 || (router.mode is Suppressing && router.fingers() > 0)
            ==> router.frame_done(now).mode is Suppressing && router.frame_done(
            now,
        ).shown.contacts.is_empty(),
        router.mode is Suppressing && router.fingers() == 0 ==> router.frame_done(
            now,
        ).mode is Forwarding && router.outcome(now) is Suppressed,
        router.outcome(now) is ReleasedAndSuppressed <==> !(router.mode is Suppressing)
            && router.fingers() >= 3,
{
    if router.fingers() >= 3 || router.mode is Suppressing {
        assert(router.frame_done(now).shown.contacts =~= Map::empty());
    }
}

} // verus!
