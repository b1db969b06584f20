//! The UI side's snapshot of the parameter model. The mirror is owned by
//! the UI alone: once per rendered frame it drains the UI-bound direction
//! of the bridge, and its own edits go back through the bridge — it never
//! touches smoother state directly.

use vstd::prelude::*;
use crate::bridge::Origin;
use crate::curve::{NORM_ONE, clamp_norm, spec_to_normalized, spec_to_plain, to_plain};
use crate::model::ParameterModel;
use crate::text::{format_display, spec_display};

verus! {

/// One parameter as the UI last saw it: its normalized and plain values,
/// and whether the latest change came from host automation (so the UI can
/// tell host-driven edits from its own echoes).
#[derive(Clone, Copy, Debug, PartialEq, Eq, Structural)]
pub struct MirrorEntry {
    pub normalized: u64,
    pub plain: i64,
    pub updated_by_host: bool,
}

/// The UI-thread-owned snapshot of the model: one entry per parameter,
/// refreshed by polling once per frame.
#[derive(Debug)]
pub struct UiMirror {
    pub entries: Vec<MirrorEntry>,
}

impl UiMirror {
    /// The mirror covers exactly the model's parameters.
    pub open spec fn covers(self, m: ParameterModel) -> bool {
        self.entries.len() == m.descriptors.len()
    }

    /// A mirror of the model's present state — what a freshly attached UI
    /// receives: the latest values, no history, and no pending host flag.
    pub fn new(m: &ParameterModel) -> (u: UiMirror)
        requires
            m.wf(),
        ensures
            u.covers(*m),
            forall|i: int|
                0 <= i < m.descriptors.len() ==> {
                    &&& (#[trigger] u.entries@[i]).plain == m.smoothers@[i].current
                    &&& u.entries@[i].normalized as int == spec_to_normalized(m.descriptors@[i],
                    m.smoothers@[i].current as int)
                    &&& !u.entries@[i].updated_by_host
                },
    {
        let n = m.descriptors.len();
        let mut entries: Vec<MirrorEntry> = Vec::new();
        let mut i: usize = 0;
        while i < n
            invariant
                i <= n,
                n == m.descriptors.len(),
                m.wf(),
                entries.len() == i,
                forall|k: int|
                    0 <= k < i ==> {
                        &&& (#[trigger] entries@[k]).plain == m.smoothers@[k].current
                        &&& entries@[k].normalized as int == spec_to_normalized(
                            m.descriptors@[k],
                            m.smoothers@[k].current as int,
                        )
                        &&& !entries@[k].updated_by_host
                    },
            decreases n - i,
        {
            let plain = m.get_plain(i);
            let normalized = m.get_normalized(i);
            entries.push(MirrorEntry { normalized, plain, updated_by_host: false });
            i = i + 1;
        }
        UiMirror { entries }
    }

    /// Applies everything the audio side has published since the last
    /// frame: each pending snapshot refreshes its entry and flags whether
    /// it came from the host; entries without news keep their values with
    /// the flag lowered. Called once at the top of each rendered frame.
    #[verifier::loop_isolation(false)]
    pub fn poll_updates(&mut self, m: &mut ParameterModel)
        requires
            old(self).covers(*old(m)),
            old(m).wf(),
        ensures
            final(self).covers(*final(m)),
            final(m).wf(),
            final(m).descriptors == old(m).descriptors,
            final(m).smoothers == old(m).smoothers,
            final(m).non_param == old(m).non_param,
            final(m).bridge.to_audio == old(m).bridge.to_audio,
            final(m).smoothing_samples == old(m).smoothing_samples,
            final(m).sample_rate == old(m).sample_rate,
            final(m).phase == old(m).phase,
            final(m).ui_attached == old(m).ui_attached,
            final(self).entries.len() == old(self).entries.len(),
            forall|i: int|
                #![trigger old(m).bridge.to_ui@[i]]
                0 <= i < old(self).entries.len() ==> final(m).bridge.to_ui@[i] is None
                    && final(self).entries@[i] == (match old(m).bridge.to_ui@[i] {
                    Option::Some(sn) => MirrorEntry {
                        normalized: sn.normalized,
                        plain: sn.plain,
                        updated_by_host: sn.origin == Origin::Host,
                    },
                    Option::None => MirrorEntry {
                        updated_by_host: false,
                        ..old(self).entries@[i]
                    },
                }),
    {
        let n = self.entries.len();
        let mut i: usize = 0;
        while i < n
            invariant
                i <= n,
                n == old(self).entries.len(),
                n == old(m).descriptors.len(),
                self.entries.len() == n,
                m.descriptors == old(m).descriptors,
                m.smoothers == old(m).smoothers,
                m.non_param == old(m).non_param,
                m.bridge.to_audio == old(m).bridge.to_audio,
                m.smoothing_samples == old(m).smoothing_samples,
                m.sample_rate == old(m).sample_rate,
                m.phase == old(m).phase,
                m.ui_attached == old(m).ui_attached,
                m.wf(),
                forall|k: int|
                    #![trigger old(m).bridge.to_ui@[k]]
                    0 <= k < i ==> m.bridge.to_ui@[k] is None && self.entries@[k] == (match old(
                        m,
                    ).bridge.to_ui@[k] {
                        Option::Some(sn) => MirrorEntry {
                            normalized: sn.normalized,
                            plain: sn.plain,
                            updated_by_host: sn.origin == Origin::Host,
                        },
                        Option::None => MirrorEntry {
                            updated_by_host: false,
                            ..old(self).entries@[k]
                        },
                    }),
                forall|k: int|
                    #![trigger old(m).bridge.to_ui@[k]]
                    i <= k < n ==> m.bridge.to_ui@[k] == old(m).bridge.to_ui@[k],
                forall|k: int|
                    #![trigger old(self).entries@[k]]
                    i <= k < n ==> self.entries@[k] == old(self).entries@[k],
            decreases n - i,
        {
            let slot = m.bridge.take_to_ui(i);
            let entry = match slot {
                Option::Some(sn) => MirrorEntry {
                    normalized: sn.normalized,
                    plain: sn.plain,
                    updated_by_host: matches!(sn.origin, Origin::Host),
                },
                Option::None => {
                    let prev = self.entries[i];
                    MirrorEntry { updated_by_host: false, ..prev }
                },
            };
            self.entries.set(i, entry);
            proof {
                assert forall|k: int|
                    #![trigger old(m).bridge.to_ui@[k]]
                    0 <= k < i + 1 implies m.bridge.to_ui@[k] is None && self.entries@[k] == (
                match old(m).bridge.to_ui@[k] {
                    Option::Some(sn) => MirrorEntry {
                        normalized: sn.normalized,
                        plain: sn.plain,
                        updated_by_host: sn.origin == Origin::Host,
                    },
                    Option::None => MirrorEntry {
                        updated_by_host: false,
                        ..old(self).entries@[k]
                    },
                }) by {
                    let slot_k = old(m).bridge.to_ui@[k];
                    let entry_k = old(self).entries@[k];
                    assert(m.bridge.to_ui@[k] is None);
                    if k == i as int {
                        assert(self.entries@[k] == entry);
                    } else {
                        assert(self.entries@[k] == (match old(m).bridge.to_ui@[k] {
                            Option::Some(sn) => MirrorEntry {
                                normalized: sn.normalized,
                                plain: sn.plain,
                                updated_by_host: sn.origin == Origin::Host,
                            },
                            Option::None => MirrorEntry {
                                updated_by_host: false,
                                ..old(self).entries@[k]
                            },
                        }));
                    }
                }
                assert forall|k: int|
                    #![trigger old(m).bridge.to_ui@[k]]
                    i + 1 <= k < n implies m.bridge.to_ui@[k] == old(m).bridge.to_ui@[k] by {
                    let slot_k = old(m).bridge.to_ui@[k];
                    assert(m.bridge.to_ui@[k] == old(m).bridge.to_ui@[k]);
                }
                assert forall|k: int|
                    #![trigger old(self).entries@[k]]
                    i + 1 <= k < n implies self.entries@[k] == old(self).entries@[k] by {
                    let slot_k = old(m).bridge.to_ui@[k];
                    let entry_k = old(self).entries@[k];
                    assert(self.entries@[k] == old(self).entries@[k]);
                }
            }
            i = i + 1;
        }
    }

    /// Publishes a UI-originated edit: the entry takes the clamped and
    /// converted values at once (so the widget shows what it set), and the
    /// snapshot goes through the bridge for the audio side to apply at its
    /// next block.
    pub fn set_from_normalized(&mut self, m: &mut ParameterModel, id: usize, n: u64)
        requires
            old(self).covers(*old(m)),
            old(m).wf(),
            id < old(m).descriptors.len(),
        ensures
            final(self).covers(*final(m)),
            final(m).wf(),
            final(m).bridge.to_audio@ == crate::bridge::spec_push(old(m).bridge.to_audio@,
            old(m).spec_edit(id, n, Origin::Ui)),
            final(m).bridge.to_ui == old(m).bridge.to_ui,
            final(m).descriptors == old(m).descriptors,
            final(m).smoothers == old(m).smoothers,
            final(m).non_param == old(m).non_param,
            final(m).smoothing_samples == old(m).smoothing_samples,
            final(m).sample_rate == old(m).sample_rate,
            final(m).phase == old(m).phase,
            final(m).ui_attached == old(m).ui_attached,
            final(self).entries@ == old(self).entries@.update(
                id as int,
                MirrorEntry {
                    normalized: clamp_norm(n as int) as u64,
                    plain: spec_to_plain(old(m).descriptors@[id as int], n as int) as i64,
                    updated_by_host: false,
                },
            ),
    {
        let nc = if n > NORM_ONE {
            NORM_ONE
        } else {
            n
        };
        let p = to_plain(&m.descriptors[id], nc);
        proof {
            assert(clamp_norm(nc as int) == clamp_norm(n as int));
        }
        m.set_normalized(id, n, Origin::Ui);
        self.entries.set(id, MirrorEntry { normalized: nc, plain: p, updated_by_host: false });
    }
}

/// The UI's frame state: the mirror, and one display text per parameter,
/// kept in step with host automation.
#[derive(Debug)]
pub struct State {
    pub model: UiMirror,
    pub value_texts: Vec<String>,
}

impl State {
    /// Fresh UI state around a mirror, with every display text still
    /// empty; the first frame's sync fills them.
    pub fn new(model: UiMirror) -> (s: State)
        ensures
            s.model == model,
            s.value_texts.len() == model.entries.len(),
            forall|i: int|
                0 <= i < model.entries.len() ==> (#[trigger] s.value_texts@[i])@
                    == Seq::<char>::empty(),
    {
        let n = model.entries.len();
        let mut value_texts: Vec<String> = Vec::new();
        let mut i: usize = 0;
        while i < n
            invariant
                i <= n,
                value_texts.len() == i,
                forall|k: int|
                    0 <= k < i ==> (#[trigger] value_texts@[k])@ == Seq::<char>::empty(),
            decreases n - i,
        {
            value_texts.push(String::new());
            i = i + 1;
        }
        State { model, value_texts }
    }

    /// Refreshes the display text of every parameter whose latest change
    /// came from the host, leaving self-originated ones alone — the frame
    /// step after polling.
    #[verifier::loop_isolation(false)]
    pub fn sync_value_texts(&mut self, m: &ParameterModel)
        requires
            old(self).model.covers(*m),
            old(self).value_texts.len() == old(self).model.entries.len(),
            m.wf(),
            forall|i: int|
                #![trigger old(self).model.entries@[i]]
                0 <= i < old(self).model.entries.len()
                    ==> -crate::curve::BOUND_LIMIT <= old(self).model.entries@[i].plain
                    <= crate::curve::BOUND_LIMIT,
        ensures
            final(self).model == old(self).model,
            final(self).value_texts.len() == old(self).value_texts.len(),
            forall|i: int|
                #![trigger final(self).value_texts@[i]]
                0 <= i < old(self).value_texts.len() ==> final(self).value_texts@[i]@ == (
                if old(self).model.entries@[i].updated_by_host {
                    spec_display(m.descriptors@[i], old(self).model.entries@[i].plain as int)
                } else {
                    old(self).value_texts@[i]@
                }),
    {
        let n = self.value_texts.len();
        let mut texts: Vec<String> = Vec::new();
        let mut i: usize = 0;
        while i < n
            invariant
                i <= n,
                n == old(self).value_texts.len(),
                n == old(self).model.entries.len(),
                n == m.descriptors.len(),
                m.wf(),
                *self == *old(self),
                texts.len() == i,
                forall|k: int|
                    #![trigger texts@[k]]
                    0 <= k < i ==> texts@[k]@ == (
                    if old(self).model.entries@[k].updated_by_host {
                        spec_display(m.descriptors@[k], old(self).model.entries@[k].plain as int)
                    } else {
                        old(self).value_texts@[k]@
                    }),
            decreases n - i,
        {
            if self.model.entries[i].updated_by_host {
                let text = format_display(&m.descriptors[i], self.model.entries[i].plain);
                texts.push(text);
            } else {
                let text = self.value_texts[i].clone();
                texts.push(text);
            }
            i = i + 1;
        }
        self.value_texts = texts;
    }

    /// A slider moved: publishes the edit through the mirror and reformats
    /// that parameter's display text at once.
    pub fn slider_changed(&mut self, m: &mut ParameterModel, id: usize, n: u64)
        requires
            old(self).model.covers(*old(m)),
            old(self).value_texts.len() == old(self).model.entries.len(),
            old(m).wf(),
            id < old(m).descriptors.len(),
        ensures
            final(m).wf(),
            final(self).model.covers(*final(m)),
            final(self).value_texts.len() == old(self).value_texts.len(),
            final(m).bridge.to_audio@ == crate::bridge::spec_push(old(m).bridge.to_audio@,
            old(m).spec_edit(id, n, Origin::Ui)),
            final(m).smoothers == old(m).smoothers,
            final(m).descriptors == old(m).descriptors,
            final(self).model.entries@ == old(self).model.entries@.update(
                id as int,
                MirrorEntry {
                    normalized: clamp_norm(n as int) as u64,
                    plain: spec_to_plain(old(m).descriptors@[id as int], n as int) as i64,
                    updated_by_host: false,
                },
            ),
            final(self).value_texts@[id as int]@ == spec_display(
                old(m).descriptors@[id as int],
                spec_to_plain(old(m).descriptors@[id as int], n as int),
            ),
            forall|i: int|
                #![trigger final(self).value_texts@[i]]
                0 <= i < old(self).value_texts.len() && i != id
                    ==> final(self).value_texts@[i] == old(self).value_texts@[i],
    {
        self.model.set_from_normalized(m, id, n);
        proof {
            crate::curve::lemma_to_plain_in_range(old(m).descriptors@[id as int], n as int);
        }
        let entry = self.model.entries[id];
        let text = format_display(&m.descriptors[id], entry.plain);
        self.value_texts.set(id, text);
    }
}

} // verus!
