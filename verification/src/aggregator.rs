//! The activity aggregator: the single-writer state machine that
//! consumes events from the media registry monitor, the camera device
//! watcher and a low-frequency timer, and recomputes the published
//! three-boolean activity snapshot on each tick.

use vstd::prelude::*;
use std::collections::HashSet;
use crate::camera::CameraRefCounts;
use crate::camera::any_pending;
use crate::camera::spec_open;
use crate::camera::spec_close;
use crate::camera::opened_pair;
use crate::camera::closed_pair;
use crate::camera::pair_or_zero;
use crate::camera::lemma_wf_map;

verus! {

broadcast use vstd::std_specs::hash::group_hash_axioms;

/// The derived activity snapshot handed to the presentation layer;
/// when all three flags are false, nothing is rendered.
#[derive(Debug, Clone, Copy, PartialEq, Eq, Structural)]
pub struct ActivitySnapshot {
    pub microphone: bool,
    pub screenshare: bool,
    pub camera: bool,
}

impl ActivitySnapshot {
    /// Whether anything is to be rendered at all: with all three flags
    /// false the presentation layer shows nothing.
    pub fn any_active(&self) -> (r: bool)
        ensures
            r == (self.microphone || self.screenshare || self.camera),
    {
        self.microphone || self.screenshare || self.camera
    }
}

/// An event consumed by the aggregator.  Node events come from the
/// media registry monitor, camera events from the device watcher and
/// the baseline scanner, ticks from the timer.
#[derive(Debug, Clone)]
pub enum Message {
    /// Recompute and publish the activity snapshot.
    Tick,
    /// The daemon reported a new microphone-capture stream node.
    MicrophoneAdd(u32),
    /// The daemon reported a new screen-capture stream node.
    ScreenShareAdd(u32),
    /// The daemon removed a stream node of either kind.
    PipeWireNodeRemove(u32),
    /// An observed open of a camera device path.
    CameraOpen(String),
    /// An observed close of a camera device path.
    CameraClose(String),
    /// A path left the watched set: forget its history.
    CameraReset(String),
    /// The baseline scanner's seed: replace the whole ref-count map.
    PreviousState(CameraRefCounts),
}

/// The aggregator's state, mathematically: the two identifier sets,
/// the camera ref-count map, and the last published snapshot.
#[verifier::ext_equal]
pub ghost struct AggModel {
    pub mics: Set<u32>,
    pub shares: Set<u32>,
    pub cams: Map<Seq<char>, (int, int)>,
    pub snap: ActivitySnapshot,
}

/// An event's payload is itself well formed.
pub open spec fn msg_wf(m: Message) -> bool {
    match m {
        Message::PreviousState(b) => b.wf(),
        _ => true,
    }
}

/// The state after one event: set insertion and removal are idempotent,
/// camera events follow the floor-clamped counting rules, and a tick
/// recomputes the snapshot wholesale from the rest of the state.
pub open spec fn spec_step(s: AggModel, m: Message) -> AggModel {
    match m {
        Message::Tick => AggModel {
            snap: ActivitySnapshot {
                microphone: !s.mics.is_empty(),
                screenshare: !s.shares.is_empty(),
                camera: any_pending(s.cams),
            },
            ..s
        },
        Message::MicrophoneAdd(id) => AggModel { mics: s.mics.insert(id), ..s },
        Message::ScreenShareAdd(id) => AggModel { shares: s.shares.insert(id), ..s },
        Message::PipeWireNodeRemove(id) => AggModel {
            mics: s.mics.remove(id),
            shares: s.shares.remove(id),
            ..s
        },
        Message::CameraOpen(p) => AggModel { cams: spec_open(s.cams, p@), ..s },
        Message::CameraClose(p) => AggModel { cams: spec_close(s.cams, p@), ..s },
        Message::CameraReset(p) => AggModel { cams: s.cams.remove(p@), ..s },
        Message::PreviousState(b) => AggModel { cams: b.as_map(), ..s },
    }
}

/// The canonical in-process activity state: owned by the single
/// consuming thread, fed by events, queried through its snapshot.
#[derive(Debug)]
pub struct PrivacyIndicator {
    pub microphones: HashSet<u32>,
    pub screenshares: HashSet<u32>,
    pub cameras: CameraRefCounts,
    pub shared: ActivitySnapshot,
}

impl PrivacyIndicator {
    /// The mathematical model of this state.
    pub open spec fn model(&self) -> AggModel {
        AggModel {
            mics: self.microphones@,
            shares: self.screenshares@,
            cams: self.cameras.as_map(),
            snap: self.shared,
        }
    }

    /// The camera table is well formed.
    pub open spec fn wf(&self) -> bool {
        self.cameras.wf()
    }

    /// A fresh aggregator: nothing active, nothing tracked.
    pub fn new() -> (r: Self)
        ensures
            r.wf(),
            r.model().mics =~= Set::<u32>::empty(),
            r.model().shares =~= Set::<u32>::empty(),
            r.model().cams.dom() =~= Set::<Seq<char>>::empty(),
            r.model().snap == (ActivitySnapshot {
                microphone: false,
                screenshare: false,
                camera: false,
            }),
    {
        PrivacyIndicator {
            microphones: HashSet::new(),
            screenshares: HashSet::new(),
            cameras: CameraRefCounts::new(),
            shared: ActivitySnapshot { microphone: false, screenshare: false, camera: false },
        }
    }

    /// The last published snapshot.
    pub fn snapshot(&self) -> (s: ActivitySnapshot)
        ensures
            s == self.shared,
    {
        self.shared
    }

    /// Consumes one event.  On a tick, the published camera flag is
    /// exactly "the activity sum over all tracked paths is positive".
    pub fn update(&mut self, message: Message)
        requires
            old(self).wf(),
            msg_wf(message),
        ensures
            final(self).wf(),
            final(self).model() == spec_step(old(self).model(), message),
            message is Tick ==> final(self).shared.camera == (old(self).cameras.sum() > 0),
    {
        match message {
            Message::Tick => {
                let mic = !self.microphones.is_empty();
                let scr = !self.screenshares.is_empty();
                let cam = self.cameras.camera_active();
                self.shared = ActivitySnapshot { microphone: mic, screenshare: scr, camera: cam };
            },
            Message::MicrophoneAdd(id) => {
                self.microphones.insert(id);
            },
            Message::ScreenShareAdd(id) => {
                self.screenshares.insert(id);
            },
            Message::PipeWireNodeRemove(id) => {
                self.microphones.remove(&id);
                self.screenshares.remove(&id);
            },
            Message::CameraOpen(p) => {
                self.cameras.record_open(p);
            },
            Message::CameraClose(p) => {
                self.cameras.record_close(p);
            },
            Message::CameraReset(p) => {
                self.cameras.reset(p.as_str());
            },
            Message::PreviousState(b) => {
                self.cameras = b;
            },
        }
        proof {
            assert(self.model() =~~= spec_step(old(self).model(), message));
        }
    }
}

/// Events applied in order, oldest first.
pub open spec fn spec_steps(s: AggModel, msgs: Seq<Message>) -> AggModel
    decreases msgs.len(),
{
    if msgs.len() == 0 {
        s
    } else {
        spec_step(spec_steps(s, msgs.drop_last()), msgs.last())
    }
}

/// A stream-node add or remove event of the media registry monitor.
pub open spec fn is_node_event(m: Message) -> bool {
    m is MicrophoneAdd || m is ScreenShareAdd || m is PipeWireNodeRemove
}

/// After any sequence of microphone and screen-share add/remove
/// events — in any interleaving, duplicates included — a tick publishes
/// exactly "the respective set is non-empty", and those events have
/// touched neither the camera map nor the published snapshot.
pub proof fn lemma_snapshot_reflects_sets(s0: AggModel, msgs: Seq<Message>)
    requires
        forall|i: int| 0 <= i < msgs.len() ==> is_node_event(#[trigger] msgs[i]),
    ensures
        ({
            let s1 = spec_steps(s0, msgs);
            let s2 = spec_step(s1, Message::Tick);
            &&& s2.snap.microphone == !s1.mics.is_empty()
            &&& s2.snap.screenshare == !s1.shares.is_empty()
            &&& s1.cams == s0.cams
            &&& s1.snap == s0.snap
        }),
    decreases msgs.len(),
{
    if msgs.len() > 0 {
        assert(forall|i: int|
            0 <= i < msgs.drop_last().len() ==> is_node_event(#[trigger] msgs.drop_last()[i]));
        lemma_snapshot_reflects_sets(s0, msgs.drop_last());
    }
}

/// Applying the same add event twice leaves the state as after the
/// single application.
pub proof fn lemma_add_twice_idempotent(s: AggModel, m: Message)
    requires
        m is MicrophoneAdd || m is ScreenShareAdd,
    ensures
        spec_step(spec_step(s, m), m) == spec_step(s, m),
{
    assert(spec_step(spec_step(s, m), m) =~~= spec_step(s, m));
}

/// A remove event for an identifier absent from both sets leaves the
/// state unchanged.
pub proof fn lemma_remove_absent_noop(s: AggModel, id: u32)
    requires
        !s.mics.contains(id),
        !s.shares.contains(id),
    ensures
        spec_step(s, Message::PipeWireNodeRemove(id)) == s,
{
    assert(spec_step(s, Message::PipeWireNodeRemove(id)) =~~= s);
}

/// No tracked path's count sits below its floor.
pub open spec fn cams_wf(m: Map<Seq<char>, (int, int)>) -> bool {
    forall|p: Seq<char>| #[trigger] m.dom().contains(p) ==> m[p].1 <= m[p].0
}

/// One event keeps every tracked path's count at or above its floor.
pub proof fn lemma_step_preserves_refcount_invariant(s: AggModel, m: Message)
    requires
        cams_wf(s.cams),
        msg_wf(m),
    ensures
        cams_wf(spec_step(s, m).cams),
{
    match m {
        Message::CameraOpen(p) => {
            assert(opened_pair(pair_or_zero(s.cams, p@)).1 <= opened_pair(
                pair_or_zero(s.cams, p@),
            ).0);
        },
        Message::CameraClose(p) => {
            assert(closed_pair(pair_or_zero(s.cams, p@)).1 <= closed_pair(
                pair_or_zero(s.cams, p@),
            ).0);
        },
        Message::PreviousState(b) => {
            lemma_wf_map(b.entries@);
        },
        _ => {},
    }
}

/// The camera ref-count invariant: after any sequence of events with
/// well-formed payloads, every tracked path satisfies
/// `count - floor >= 0`.
pub proof fn lemma_refcount_invariant(s0: AggModel, msgs: Seq<Message>)
    requires
        cams_wf(s0.cams),
        forall|i: int| 0 <= i < msgs.len() ==> msg_wf(#[trigger] msgs[i]),
    ensures
        cams_wf(spec_steps(s0, msgs).cams),
    decreases msgs.len(),
{
    if msgs.len() > 0 {
        assert(forall|i: int|
            0 <= i < msgs.drop_last().len() ==> msg_wf(#[trigger] msgs.drop_last()[i]));
        lemma_refcount_invariant(s0, msgs.drop_last());
        lemma_step_preserves_refcount_invariant(spec_steps(s0, msgs.drop_last()), msgs.last());
    }
}

/// A close with no prior open leaves the fresh path contributing
/// exactly zero to the activity sum, and one subsequent open on it
/// immediately contributes one.
pub proof fn lemma_close_without_open_contributes_nothing(s: AggModel, p: String)
    requires
        !s.cams.dom().contains(p@),
    ensures
        ({
            let s1 = spec_step(s, Message::CameraClose(p));
            &&& s1.cams.dom().contains(p@)
            &&& s1.cams[p@].0 - s1.cams[p@].1 == 0
            &&& ({
                let s2 = spec_step(s1, Message::CameraOpen(p));
                s2.cams[p@].0 - s2.cams[p@].1 == 1
            })
        }),
{
}

/// After a reset, the next open of that path starts fresh at
/// `(count, floor) == (1, 0)`, exactly as the first open ever seen.
pub proof fn lemma_reset_clears_history(s: AggModel, p: String)
    ensures
        ({
            let s1 = spec_step(spec_step(s, Message::CameraReset(p)), Message::CameraOpen(p));
            s1.cams[p@] == (1int, 0int)
        }),
{
}

} // verus!
