//! The bridge between the audio side and the UI side: two independent
//! directions, each a fixed arena of one slot per parameter. A push
//! overwrites the slot's unread entry for that parameter, so rapid edits
//! coalesce and the reader only ever sees the freshest one; neither side
//! blocks and nothing is allocated after construction.

use vstd::prelude::*;
use crate::curve::{BOUND_LIMIT, NORM_ONE};

verus! {

/// Where an edit came from: host automation, the UI's own widgets, or a
/// program-state restore.
#[derive(Clone, Copy, Debug, PartialEq, Eq, Structural)]
pub enum Origin {
    Host,
    Ui,
    Program,
}

/// The unit of exchange on the bridge: one parameter's fresh values and
/// the origin of the edit. Immutable once constructed; consumed by the
/// side that drains it.
#[derive(Clone, Copy, Debug, PartialEq, Eq, Structural)]
pub struct ParameterSnapshot {
    pub id: usize,
    pub normalized: u64,
    pub plain: i64,
    pub origin: Origin,
}

impl ParameterSnapshot {
    /// The carried values are on their scales.
    pub open spec fn wf(self) -> bool {
        &&& self.normalized <= NORM_ONE
        &&& -BOUND_LIMIT <= self.plain <= BOUND_LIMIT
    }
}

/// What a push makes of one direction's slots: the newest snapshot wins
/// the slot of its parameter, and no other slot moves.
pub open spec fn spec_push(slots: Seq<Option<ParameterSnapshot>>, s: ParameterSnapshot) -> Seq<
    Option<ParameterSnapshot>,
> {
    slots.update(s.id as int, Some(s))
}

/// Last writer wins: whatever a slot held, after two pushes for the same
/// parameter the slot holds the second snapshot and nothing of the first
/// survives, so a reader that drains after any burst of pushes observes
/// only the freshest value.
pub proof fn lemma_push_coalesces(
    slots: Seq<Option<ParameterSnapshot>>,
    s1: ParameterSnapshot,
    s2: ParameterSnapshot,
)
    requires
        s1.id == s2.id,
        0 <= s1.id < slots.len(),
    ensures
        spec_push(spec_push(slots, s1), s2) == spec_push(slots, s2),
{
    assert(spec_push(spec_push(slots, s1), s2) =~= spec_push(slots, s2));
}

/// The wait-free channel pair. `to_audio` carries edits from the UI side
/// or the host into the audio side; `to_ui` carries the audio side's
/// applied state back out. Each direction holds one slot per parameter,
/// fixed at construction.
#[derive(Debug)]
pub struct SyncBridge {
    pub to_audio: Vec<Option<ParameterSnapshot>>,
    pub to_ui: Vec<Option<ParameterSnapshot>>,
}

impl SyncBridge {
    /// Both directions cover the same parameters, and every pending
    /// snapshot sits in its own parameter's slot with values on scale.
    pub open spec fn wf(self) -> bool {
        &&& self.to_audio.len() == self.to_ui.len()
        &&& forall|i: int|
            0 <= i < self.to_audio.len() && self.to_audio@[i] is Some
                ==> (#[trigger] self.to_audio@[i])->Some_0.id == i
                && self.to_audio@[i]->Some_0.wf()
        &&& forall|i: int|
            0 <= i < self.to_ui.len() && self.to_ui@[i] is Some
                ==> (#[trigger] self.to_ui@[i])->Some_0.id == i && self.to_ui@[i]->Some_0.wf()
    }

    /// How many parameters the bridge covers.
    pub open spec fn spec_len(self) -> int {
        self.to_audio.len() as int
    }

    /// A bridge of `n` empty slots per direction.
    pub fn new(n: usize) -> (b: SyncBridge)
        ensures
            b.wf(),
            b.spec_len() == n,
            forall|i: int| 0 <= i < n ==> b.to_audio@[i] is None,
            forall|i: int| 0 <= i < n ==> b.to_ui@[i] is None,
    {
        let mut to_audio: Vec<Option<ParameterSnapshot>> = Vec::new();
        let mut to_ui: Vec<Option<ParameterSnapshot>> = Vec::new();
        let mut i: usize = 0;
        while i < n
            invariant
                i <= n,
                to_audio.len() == i,
                to_ui.len() == i,
                forall|k: int| 0 <= k < i ==> to_audio@[k] is None,
                forall|k: int| 0 <= k < i ==> to_ui@[k] is None,
            decreases n - i,
        {
            to_audio.push(None);
            to_ui.push(None);
            i = i + 1;
        }
        SyncBridge { to_audio, to_ui }
    }

    /// Pushes an edit toward the audio side, overwriting any unread edit
    /// for the same parameter.
    pub fn push_to_audio(&mut self, s: ParameterSnapshot)
        requires
            old(self).wf(),
            s.wf(),
            s.id < old(self).spec_len(),
        ensures
            final(self).wf(),
            final(self).to_audio@ == spec_push(old(self).to_audio@, s),
            final(self).to_ui == old(self).to_ui,
    {
        self.to_audio.set(s.id, Some(s));
    }

    /// Pushes applied state toward the UI side, overwriting any unread
    /// entry for the same parameter.
    pub fn push_to_ui(&mut self, s: ParameterSnapshot)
        requires
            old(self).wf(),
            s.wf(),
            s.id < old(self).spec_len(),
        ensures
            final(self).wf(),
            final(self).to_ui@ == spec_push(old(self).to_ui@, s),
            final(self).to_audio == old(self).to_audio,
    {
        self.to_ui.set(s.id, Some(s));
    }

    /// Takes the pending edit for one parameter out of the audio-bound
    /// direction, leaving the slot empty.
    pub fn take_to_audio(&mut self, id: usize) -> (s: Option<ParameterSnapshot>)
        requires
            old(self).wf(),
            id < old(self).spec_len(),
        ensures
            final(self).wf(),
            s == old(self).to_audio@[id as int],
            final(self).to_audio@ == old(self).to_audio@.update(id as int, None::<
                ParameterSnapshot>),
            final(self).to_ui == old(self).to_ui,
            s is Some ==> s->Some_0.id == id && s->Some_0.wf(),
    {
        let s = self.to_audio[id];
        self.to_audio.set(id, None);
        s
    }

    /// Takes the pending state for one parameter out of the UI-bound
    /// direction, leaving the slot empty.
    pub fn take_to_ui(&mut self, id: usize) -> (s: Option<ParameterSnapshot>)
        requires
            old(self).wf(),
            id < old(self).spec_len(),
        ensures
            final(self).wf(),
            s == old(self).to_ui@[id as int],
            final(self).to_ui@ == old(self).to_ui@.update(id as int, None::<ParameterSnapshot>),
            final(self).to_audio == old(self).to_audio,
            s is Some ==> s->Some_0.id == id && s->Some_0.wf(),
    {
        let s = self.to_ui[id];
        self.to_ui.set(id, None);
        s
    }
}

} // verus!
