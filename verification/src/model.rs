//! The parameter model: descriptors and smoothers aggregated under the
//! audio side's ownership, fed by the bridge and drained into per-block
//! process views. Smoother state changes only inside `process_block`;
//! every edit travels through the bridge first, so all samples of one
//! block see a single consistent target taken at the block's start.

use vstd::prelude::*;
use vstd::pervasive::unreached;
use crate::bridge::{Origin, ParameterSnapshot, SyncBridge, spec_push};
use crate::curve::{
    BOUND_LIMIT, Curve, NORM_ONE, ParameterDescriptor, clamp_norm, clamp_plain, spec_to_plain,
    spec_to_normalized, to_normalized, to_plain,
};
use crate::smoother::{Smoother, spec_advance_n, spec_set_target, lemma_advance_n_props,
    lemma_advance_reaches_target};

verus! {

/// How long an edit is smoothed over, in milliseconds; converted to
/// samples when the model learns its sample rate.
pub const SMOOTHING_MS: u32 = 5;

/// The conditions under which construction or initialization fails fast.
/// No parameter operation after that point is fallible: out-of-range
/// values are clamped, and a full bridge slot coalesces.
#[derive(Clone, Copy, Debug, PartialEq, Eq, Structural)]
pub enum ModelError {
    EmptyDescriptors,
    InvalidDescriptor,
    DefaultsMismatch,
    ZeroSmoothingDuration,
}

/// Where the model stands in its life: created, given a sample rate,
/// processing blocks, or destroyed. A UI attaches and detaches
/// independently of processing.
#[derive(Clone, Copy, Debug, PartialEq, Eq, Structural)]
pub enum Phase {
    Created,
    Initialized,
    Processing,
    Destroyed,
}

/// What the block start makes of one smoother: a pending edit becomes its
/// new target over the configured duration, and no pending edit leaves it
/// alone.
pub open spec fn spec_retarget(s: Smoother, slot: Option<ParameterSnapshot>, d: u32) -> Smoother {
    match slot {
        Option::None => s,
        Option::Some(sn) => spec_set_target(s, sn.plain, d),
    }
}

/// The per-sample values one smoother yields over a block of `k` frames:
/// sample `j` is the value after `j + 1` steps.
pub open spec fn spec_view(s: Smoother, k: nat) -> Seq<i64> {
    Seq::new(k, |j: int| spec_advance_n(s, (j + 1) as nat).current)
}

/// The smoother a block works from for parameter `i` of model `m`: the
/// stored state, retargeted by the pending edit taken at the block start.
pub open spec fn spec_block_source(m: ParameterModel, i: int) -> Smoother {
    spec_retarget(m.smoothers@[i], m.bridge.to_audio@[i], m.smoothing_samples)
}

/// The smoother a block of `frames` samples leaves behind for parameter
/// `i` of model `m`.
pub open spec fn spec_block_smoother(m: ParameterModel, i: int, frames: nat) -> Smoother {
    spec_advance_n(spec_block_source(m, i), frames)
}

/// The process view a block of `frames` samples yields for parameter `i`
/// of model `m`.
pub open spec fn spec_block_view(m: ParameterModel, i: int, frames: nat) -> Seq<i64> {
    spec_view(spec_block_source(m, i), frames)
}

/// The aggregate: one descriptor and one smoother per parameter, the
/// bridge between the sides, plain non-automated values that bypass
/// smoothing, and the lifecycle state.
#[derive(Debug)]
pub struct ParameterModel {
    pub descriptors: Vec<ParameterDescriptor>,
    pub smoothers: Vec<Smoother>,
    pub non_param: Vec<i64>,
    pub bridge: SyncBridge,
    pub smoothing_samples: u32,
    pub sample_rate: u32,
    pub phase: Phase,
    pub ui_attached: bool,
}

impl ParameterModel {
    /// One smoother per descriptor, a bridge slot per parameter, every
    /// descriptor and smoother well formed, and a positive smoothing
    /// duration once a sample rate is known.
    pub open spec fn wf(self) -> bool {
        &&& self.descriptors.len() >= 1
        &&& self.smoothers.len() == self.descriptors.len()
        &&& self.bridge.wf()
        &&& self.bridge.spec_len() == self.descriptors.len()
        &&& forall|i: int| 0 <= i < self.descriptors.len() ==> (#[trigger] self.descriptors@[i]).wf()
        &&& forall|i: int| 0 <= i < self.smoothers.len() ==> (#[trigger] self.smoothers@[i]).wf()
        &&& (self.phase == Phase::Initialized || self.phase == Phase::Processing)
            ==> self.smoothing_samples >= 1
    }

    /// Builds a model over the given descriptors, resting on the given
    /// plain defaults (clamped to each descriptor's range), with the given
    /// non-automated values. Fails fast on an empty descriptor set, an
    /// ill-formed descriptor, or a default for the wrong number of
    /// parameters.
    pub fn new(descriptors: Vec<ParameterDescriptor>, defaults: Vec<i64>, non_param: Vec<i64>)
        -> (r: Result<ParameterModel, ModelError>)
        ensures
            r is Ok <==> (descriptors.len() >= 1 && (forall|i: int|
                0 <= i < descriptors.len() ==> (#[trigger] descriptors@[i]).wf())
                && defaults.len() == descriptors.len()),
            r == Err::<ParameterModel, ModelError>(ModelError::EmptyDescriptors) <==> descriptors.len() == 0,
            r == Err::<ParameterModel, ModelError>(ModelError::InvalidDescriptor)
                <==> descriptors.len() >= 1 && exists|i: int|
                0 <= i < descriptors.len() && !(#[trigger] descriptors@[i]).wf(),
            r == Err::<ParameterModel, ModelError>(ModelError::DefaultsMismatch)
                <==> descriptors.len() >= 1 && (forall|i: int|
                0 <= i < descriptors.len() ==> (#[trigger] descriptors@[i]).wf())
                && defaults.len() != descriptors.len(),
            r is Ok ==> {
                let m = r->Ok_0;
                &&& m.wf()
                &&& m.phase == Phase::Created
                &&& !m.ui_attached
                &&& m.descriptors == descriptors
                &&& m.non_param == non_param
                &&& m.smoothers.len() == descriptors.len()
                &&& forall|i: int|
                    0 <= i < descriptors.len() ==> {
                        &&& (#[trigger] m.smoothers@[i]).current as int == clamp_plain(
                            descriptors@[i],
                            defaults@[i] as int,
                        )
                        &&& m.smoothers@[i].target == m.smoothers@[i].current
                        &&& m.smoothers@[i].remaining == 0
                    }
                &&& forall|i: int| 0 <= i < descriptors.len() ==> m.bridge.to_audio@[i] is None
                &&& forall|i: int| 0 <= i < descriptors.len() ==> m.bridge.to_ui@[i] is None
            },
    {
        if descriptors.len() == 0 {
            return Err(ModelError::EmptyDescriptors);
        }
        let n = descriptors.len();
        let mut i: usize = 0;
        while i < n
            invariant
                i <= n,
                n == descriptors.len(),
                forall|k: int| 0 <= k < i ==> (#[trigger] descriptors@[k]).wf(),
            decreases n - i,
        {
            let d = &descriptors[i];
            let curve_ok = match d.curve {
                Curve::Linear => true,
                Curve::Power { num, den } => num >= 1 && den >= 1,
            };
            if !(curve_ok && -BOUND_LIMIT <= d.min && d.min <= d.max && d.max <= BOUND_LIMIT) {
                return Err(ModelError::InvalidDescriptor);
            }
            i = i + 1;
        }
        if defaults.len() != n {
            return Err(ModelError::DefaultsMismatch);
        }
        let mut smoothers: Vec<Smoother> = Vec::new();
        let mut j: usize = 0;
        while j < n
            invariant
                j <= n,
                n == descriptors.len() == defaults.len(),
                forall|k: int| 0 <= k < n ==> (#[trigger] descriptors@[k]).wf(),
                smoothers.len() == j,
                forall|k: int|
                    0 <= k < j ==> {
                        &&& (#[trigger] smoothers@[k]).wf()
                        &&& smoothers@[k].current as int == clamp_plain(descriptors@[k],
                        defaults@[k] as int)
                        &&& smoothers@[k].target == smoothers@[k].current
                        &&& smoothers@[k].remaining == 0
                    },
            decreases n - j,
        {
            let d = &descriptors[j];
            let v = defaults[j];
            let c = if v < d.min {
                d.min
            } else if v > d.max {
                d.max
            } else {
                v
            };
            smoothers.push(Smoother::new(c));
            j = j + 1;
        }
        let bridge = SyncBridge::new(n);
        Ok(
            ParameterModel {
                descriptors,
                smoothers,
                non_param,
                bridge,
                smoothing_samples: 0,
                sample_rate: 0,
                phase: Phase::Created,
                ui_attached: false,
            },
        )
    }

    /// Fixes the sample rate and converts the smoothing duration from
    /// milliseconds to samples; a rate too low to give even one smoothing
    /// sample is refused, so processing never sees a zero duration.
    pub fn initialize(&mut self, sample_rate: u32) -> (r: Result<(), ModelError>)
        requires
            old(self).wf(),
            old(self).phase == Phase::Created,
        ensures
            final(self).wf(),
            r is Ok <==> sample_rate as int * SMOOTHING_MS as int / 1000 >= 1,
            r is Err ==> r == Err::<(), ModelError>(ModelError::ZeroSmoothingDuration)
                && *final(self) == *old(self),
            r is Ok ==> *final(self) == (ParameterModel {
                smoothing_samples: (sample_rate as int * SMOOTHING_MS as int / 1000) as u32,
                sample_rate,
                phase: Phase::Initialized,
                ..*old(self)
            }),
    {
        let samples = (sample_rate as u64) * (SMOOTHING_MS as u64) / 1000;
        if samples == 0 {
            return Err(ModelError::ZeroSmoothingDuration);
        }
        assert(samples <= u32::MAX) by {
            assert(sample_rate as int * SMOOTHING_MS as int <= u32::MAX as int * 5)
                by (nonlinear_arith)
                requires sample_rate <= u32::MAX;
            assert(sample_rate as int * SMOOTHING_MS as int / 1000 <= u32::MAX as int * 5 / 1000);
        }
        self.smoothing_samples = samples as u32;
        self.sample_rate = sample_rate;
        self.phase = Phase::Initialized;
        Ok(())
    }

    /// Marks a UI as attached. Attaching never pauses or blocks the audio
    /// side: nothing but the flag changes.
    pub fn attach_ui(&mut self)
        requires
            old(self).wf(),
        ensures
            final(self).wf(),
            *final(self) == (ParameterModel { ui_attached: true, ..*old(self) }),
    {
        self.ui_attached = true;
    }

    /// Marks the UI as detached. The audio side keeps pushing applied
    /// state; the slots coalesce until a new UI attaches and reads only
    /// the latest state.
    pub fn detach_ui(&mut self)
        requires
            old(self).wf(),
        ensures
            final(self).wf(),
            *final(self) == (ParameterModel { ui_attached: false, ..*old(self) }),
    {
        self.ui_attached = false;
    }

    /// Ends the model's life. The host guarantees the audio side is not
    /// inside a block when this happens.
    pub fn destroy(&mut self)
        requires
            old(self).wf(),
        ensures
            final(self).wf(),
            *final(self) == (ParameterModel { phase: Phase::Destroyed, ..*old(self) }),
    {
        self.phase = Phase::Destroyed;
    }

    /// The snapshot an edit of parameter `id` to normalized value `n`
    /// produces: the value clamped, converted through the curve, tagged
    /// with its origin.
    pub open spec fn spec_edit(self, id: usize, n: u64, origin: Origin) -> ParameterSnapshot {
        ParameterSnapshot {
            id,
            normalized: clamp_norm(n as int) as u64,
            plain: spec_to_plain(self.descriptors@[id as int], n as int) as i64,
            origin,
        }
    }

    /// Files an edit: clamps the normalized value, converts it to plain
    /// units, and enqueues the snapshot toward the audio side. Always
    /// succeeds; state mutates only when the next block drains the slot.
    pub fn set_normalized(&mut self, id: usize, n: u64, origin: Origin)
        requires
            old(self).wf(),
            id < old(self).descriptors.len(),
        ensures
            final(self).wf(),
            final(self).bridge.to_audio@ == spec_push(old(self).bridge.to_audio@,
            old(self).spec_edit(id, n, origin)),
            final(self).bridge.to_ui == old(self).bridge.to_ui,
            final(self).descriptors == old(self).descriptors,
            final(self).smoothers == old(self).smoothers,
            final(self).non_param == old(self).non_param,
            final(self).smoothing_samples == old(self).smoothing_samples,
            final(self).sample_rate == old(self).sample_rate,
            final(self).phase == old(self).phase,
            final(self).ui_attached == old(self).ui_attached,
    {
        let nc = if n > NORM_ONE {
            NORM_ONE
        } else {
            n
        };
        let p = to_plain(&self.descriptors[id], nc);
        let s = ParameterSnapshot { id, normalized: nc, plain: p, origin };
        proof {
            assert(clamp_norm(nc as int) == clamp_norm(n as int));
            assert(s == old(self).spec_edit(id, n, origin));
        }
        self.bridge.push_to_audio(s);
    }

    /// The host automation entry: an edit tagged as coming from the host.
    /// Always succeeds and clamps, as host automation may send anything.
    pub fn set_parameter(&mut self, id: usize, n: u64)
        requires
            old(self).wf(),
            id < old(self).descriptors.len(),
        ensures
            final(self).wf(),
            final(self).bridge.to_audio@ == spec_push(old(self).bridge.to_audio@,
            old(self).spec_edit(id, n, Origin::Host)),
            final(self).bridge.to_ui == old(self).bridge.to_ui,
            final(self).descriptors == old(self).descriptors,
            final(self).smoothers == old(self).smoothers,
            final(self).non_param == old(self).non_param,
            final(self).smoothing_samples == old(self).smoothing_samples,
            final(self).sample_rate == old(self).sample_rate,
            final(self).phase == old(self).phase,
            final(self).ui_attached == old(self).ui_attached,
    {
        self.set_normalized(id, n, Origin::Host);
    }

    /// The plain value a parameter currently stands at.
    pub fn get_plain(&self, id: usize) -> (p: i64)
        requires
            self.wf(),
            id < self.descriptors.len(),
        ensures
            p == self.smoothers@[id as int].current,
    {
        self.smoothers[id].current
    }

    /// The normalized value a parameter currently stands at, through the
    /// descriptor's curve.
    pub fn get_normalized(&self, id: usize) -> (n: u64)
        requires
            self.wf(),
            id < self.descriptors.len(),
        ensures
            n as int == spec_to_normalized(self.descriptors@[id as int],
            self.smoothers@[id as int].current as int),
            n <= NORM_ONE,
    {
        to_normalized(&self.descriptors[id], self.smoothers[id].current)
    }

    /// Reads a non-automated value: presentation state with no smoothing
    /// path.
    pub fn get_non_param(&self, i: usize) -> (v: i64)
        requires
            i < self.non_param.len(),
        ensures
            v == self.non_param@[i as int],
    {
        self.non_param[i]
    }

    /// Writes a non-automated value directly: it bypasses the bridge's
    /// smoothing path, as it is presentation-only.
    pub fn set_non_param(&mut self, i: usize, v: i64)
        requires
            old(self).wf(),
            i < old(self).non_param.len(),
        ensures
            final(self).wf(),
            final(self).non_param@ == old(self).non_param@.update(i as int, v),
            *final(self) == (ParameterModel {
                non_param: final(self).non_param,
                ..*old(self)
            }),
    {
        self.non_param.set(i, v);
    }

    /// The persisted form of the automated parameters: one plain value
    /// per parameter, in descriptor order (non-automated values are read
    /// through [`ParameterModel::get_non_param`]).
    pub fn saved_plain_values(&self) -> (r: Vec<i64>)
        requires
            self.wf(),
        ensures
            r.len() == self.descriptors.len(),
            forall|i: int|
                0 <= i < self.descriptors.len() ==> r@[i] == self.smoothers@[i].current,
    {
        let n = self.descriptors.len();
        let mut r: Vec<i64> = Vec::new();
        let mut i: usize = 0;
        while i < n
            invariant
                i <= n,
                n == self.descriptors.len(),
                self.wf(),
                r.len() == i,
                forall|k: int| 0 <= k < i ==> r@[k] == self.smoothers@[k].current,
            decreases n - i,
        {
            r.push(self.smoothers[i].current);
            i = i + 1;
        }
        r
    }

    /// Restores one parameter from saved state: the plain value is clamped,
    /// tagged as origin `Program`, and enqueued through the same bridge
    /// path as live edits — by design a restored value is smoothed in, not
    /// snapped.
    pub fn restore_plain(&mut self, id: usize, plain: i64)
        requires
            old(self).wf(),
            id < old(self).descriptors.len(),
        ensures
            final(self).wf(),
            final(self).bridge.to_audio@ == spec_push(
                old(self).bridge.to_audio@,
                ParameterSnapshot {
                    id,
                    normalized: spec_to_normalized(old(self).descriptors@[id as int],
                    plain as int) as u64,
                    plain: clamp_plain(old(self).descriptors@[id as int], plain as int) as i64,
                    origin: Origin::Program,
                },
            ),
            final(self).bridge.to_ui == old(self).bridge.to_ui,
            final(self).descriptors == old(self).descriptors,
            final(self).smoothers == old(self).smoothers,
            final(self).non_param == old(self).non_param,
            final(self).smoothing_samples == old(self).smoothing_samples,
            final(self).sample_rate == old(self).sample_rate,
            final(self).phase == old(self).phase,
            final(self).ui_attached == old(self).ui_attached,
    {
        let d = &self.descriptors[id];
        let pc = if plain < d.min {
            d.min
        } else if plain > d.max {
            d.max
        } else {
            plain
        };
        let n = to_normalized(d, plain);
        let s = ParameterSnapshot { id, normalized: n, plain: pc, origin: Origin::Program };
        self.bridge.push_to_audio(s);
    }

    /// Runs one audio block of `frames` samples: drains every pending edit
    /// (each becomes its parameter's new smoothing target and is echoed
    /// toward the UI side), then fills one process view per parameter by
    /// stepping its smoother once per frame. Edits arriving later are
    /// deferred to the next block: each view comes from the single target
    /// snapshot taken here.
    #[verifier::loop_isolation(false)]
    pub fn process_block(&mut self, frames: usize) -> (views: Vec<Vec<i64>>)
        requires
            old(self).wf(),
            old(self).phase == Phase::Initialized || old(self).phase == Phase::Processing,
        ensures
            final(self).wf(),
            final(self).phase == Phase::Processing,
            final(self).descriptors == old(self).descriptors,
            final(self).non_param == old(self).non_param,
            final(self).smoothing_samples == old(self).smoothing_samples,
            final(self).sample_rate == old(self).sample_rate,
            final(self).ui_attached == old(self).ui_attached,
            views.len() == old(self).descriptors.len(),
            final(self).smoothers.len() == old(self).smoothers.len(),
            forall|i: int|
                0 <= i < old(self).descriptors.len() ==> {
                    &&& final(self).smoothers@[i] == spec_block_smoother(*old(self), i,
                    frames as nat)
                    &&& (#[trigger] views@[i])@ == spec_block_view(*old(self), i, frames as nat)
                    &&& final(self).bridge.to_audio@[i] is None
                    &&& final(self).bridge.to_ui@[i] == (if old(self).bridge.to_audio@[i]
                        is Some {
                        old(self).bridge.to_audio@[i]
                    } else {
                        old(self).bridge.to_ui@[i]
                    })
                },
    {
        self.phase = Phase::Processing;
        let ghost m0 = *self;
        let n = self.descriptors.len();
        let mut views: Vec<Vec<i64>> = Vec::new();
        let mut i: usize = 0;
        while i < n
            invariant
                i <= n,
                n == m0.descriptors.len(),
                self.descriptors == m0.descriptors,
                self.non_param == m0.non_param,
                self.smoothing_samples == m0.smoothing_samples,
                self.sample_rate == m0.sample_rate,
                self.ui_attached == m0.ui_attached,
                self.phase == Phase::Processing,
                self.smoothing_samples >= 1,
                self.smoothers.len() == n,
                self.bridge.wf(),
                self.bridge.spec_len() == n,
                views.len() == i,
                forall|k: int|
                    0 <= k < n ==> (#[trigger] self.descriptors@[k]).wf(),
                forall|k: int|
                    0 <= k < n ==> (#[trigger] self.smoothers@[k]).wf(),
                forall|k: int|
                    #![trigger spec_block_smoother(m0, k, frames as nat)]
                    0 <= k < i ==> self.smoothers@[k] == spec_block_smoother(m0, k,
                    frames as nat),
                forall|k: int|
                    #![trigger spec_block_view(m0, k, frames as nat)]
                    0 <= k < i ==> views@[k]@ == spec_block_view(m0, k, frames as nat),
                forall|k: int|
                    #![trigger m0.bridge.to_audio@[k]]
                    0 <= k < i ==> {
                        &&& self.bridge.to_audio@[k] is None
                        &&& self.bridge.to_ui@[k] == (if m0.bridge.to_audio@[k]
                            is Some {
                            m0.bridge.to_audio@[k]
                        } else {
                            m0.bridge.to_ui@[k]
                        })
                    },
                forall|k: int|
                    #![trigger m0.smoothers@[k]]
                    i <= k < n ==> self.smoothers@[k] == m0.smoothers@[k],
                forall|k: int|
                    #![trigger m0.bridge.to_audio@[k]]
                    i <= k < n ==> self.bridge.to_audio@[k] == m0.bridge.to_audio@[k],
                forall|k: int|
                    #![trigger m0.bridge.to_ui@[k]]
                    i <= k < n ==> self.bridge.to_ui@[k] == m0.bridge.to_ui@[k],
            decreases n - i,
        {
            let slot = self.bridge.take_to_audio(i);
            let mut sm = self.smoothers[i];
            match slot {
                Option::Some(sn) => {
                    sm.set_target(sn.plain, self.smoothing_samples);
                    self.bridge.push_to_ui(sn);
                },
                Option::None => {},
            }
            let ghost s1 = spec_block_source(m0, i as int);
            assert(sm == s1);
            let mut buf: Vec<i64> = Vec::new();
            let mut j: usize = 0;
            while j < frames
                invariant
                    j <= frames,
                    sm.wf(),
                    sm == spec_advance_n(s1, j as nat),
                    buf.len() == j,
                    forall|k: int|
                        0 <= k < j ==> buf@[k] == spec_advance_n(s1, (k + 1) as nat).current,
                decreases frames - j,
            {
                let v = sm.advance();
                buf.push(v);
                j = j + 1;
                proof {
                    assert(spec_advance_n(s1, j as nat) == crate::smoother::spec_advance(
                        spec_advance_n(s1, (j - 1) as nat)));
                }
            }
            proof {
                assert(buf@ =~= spec_view(s1, frames as nat));
            }
            self.smoothers.set(i, sm);
            views.push(buf);
            proof {
                assert forall|k: int|
                    #![trigger m0.smoothers@[k]]
                    i + 1 <= k < n implies {
                    &&& self.smoothers@[k] == m0.smoothers@[k]
                    &&& self.bridge.to_audio@[k] == m0.bridge.to_audio@[k]
                    &&& self.bridge.to_ui@[k] == m0.bridge.to_ui@[k]
                } by {
                    assert(self.smoothers@[k] == m0.smoothers@[k]);
                    assert(self.bridge.to_audio@[k] == m0.bridge.to_audio@[k]);
                    assert(self.bridge.to_ui@[k] == m0.bridge.to_ui@[k]);
                }
                assert forall|k: int|
                    #![trigger spec_block_smoother(m0, k, frames as nat)]
                    0 <= k < i + 1 implies self.smoothers@[k] == spec_block_smoother(m0, k,
                    frames as nat) by {
                    if k == i as int {
                        assert(self.smoothers@[k] == spec_advance_n(s1, frames as nat));
                    } else {
                        assert(self.smoothers@[k] == spec_block_smoother(m0, k, frames as nat));
                    }
                }
                assert forall|k: int|
                    #![trigger spec_block_view(m0, k, frames as nat)]
                    0 <= k < i + 1 implies views@[k]@ == spec_block_view(m0, k, frames as nat)
                    by {
                    if k == i as int {
                        assert(views@[k]@ == spec_view(s1, frames as nat));
                    } else {
                        assert(views@[k]@ == spec_block_view(m0, k, frames as nat));
                    }
                }
                assert forall|k: int|
                    #![trigger m0.bridge.to_audio@[k]]
                    0 <= k < i + 1 implies {
                    &&& self.bridge.to_audio@[k] is None
                    &&& self.bridge.to_ui@[k] == (if m0.bridge.to_audio@[k] is Some {
                        m0.bridge.to_audio@[k]
                    } else {
                        m0.bridge.to_ui@[k]
                    })
                } by {
                    assert(self.bridge.to_audio@[k] is None);
                    assert(self.bridge.to_ui@[k] == (if m0.bridge.to_audio@[k] is Some {
                        m0.bridge.to_audio@[k]
                    } else {
                        m0.bridge.to_ui@[k]
                    }));
                }
            }
            proof {
                assert(self.smoothers@[i as int] == spec_advance_n(s1, frames as nat));
                assert(spec_block_smoother(m0, i as int, frames as nat)
                    == spec_advance_n(s1, frames as nat));
                assert(views@[i as int]@ == spec_view(s1, frames as nat));
                assert(spec_block_view(m0, i as int, frames as nat) == spec_view(s1,
                    frames as nat));
                assert(self.bridge.to_audio@[i as int] is None);
                assert(self.bridge.to_ui@[i as int] == (if m0.bridge.to_audio@[i as int]
                    is Some {
                    m0.bridge.to_audio@[i as int]
                } else {
                    m0.bridge.to_ui@[i as int]
                }));
            }
            i = i + 1;
        }
        proof {
            assert forall|k: int| 0 <= k < n implies spec_block_source(*old(self), k)
                == spec_block_source(m0, k) by {
                assert(m0.smoothers@[k] == old(self).smoothers@[k]);
            }
            assert forall|k: int|
                0 <= k < n implies self.smoothers@[k] == spec_block_smoother(*old(self), k,
                frames as nat) && views@[k]@ == spec_block_view(*old(self), k, frames as nat)
                by {
                assert(self.smoothers@[k] == spec_block_smoother(m0, k, frames as nat));
                assert(views@[k]@ == spec_block_view(m0, k, frames as nat));
                assert(spec_block_smoother(m0, k, frames as nat) == spec_block_smoother(
                    *old(self), k, frames as nat));
                assert(spec_block_view(m0, k, frames as nat) == spec_block_view(*old(self), k,
                    frames as nat));
            }
            assert forall|k: int|
                0 <= k < n implies self.bridge.to_audio@[k] is None && self.bridge.to_ui@[k]
                == (if old(self).bridge.to_audio@[k] is Some {
                old(self).bridge.to_audio@[k]
            } else {
                old(self).bridge.to_ui@[k]
            }) by {
                assert(m0.bridge.to_audio@[k] == old(self).bridge.to_audio@[k]);
                assert(m0.bridge.to_ui@[k] == old(self).bridge.to_ui@[k]);
                assert(self.bridge.to_audio@[k] is None);
            }
        }
        views
    }
}

/// With a constant target — no new pending edit — repeated blocks converge
/// the smoother onto its target and keep it there: once at least
/// `remaining` steps have been taken over any number of blocks, the state
/// rests on the target and every further process view is constant at it.
pub proof fn lemma_blocks_converge(s: Smoother, frames: nat, total: nat)
    requires
        s.wf(),
        total >= s.remaining,
    ensures
        spec_advance_n(s, total).remaining == 0,
        spec_advance_n(s, total).current == s.target,
        forall|j: int|
            0 <= j < frames ==> spec_view(spec_advance_n(s, total), frames)[j] == s.target,
{
    lemma_advance_reaches_target(s, total);
    lemma_advance_n_props(s, total);
    let a = spec_advance_n(s, total);
    assert forall|j: int| 0 <= j < frames implies spec_view(a, frames)[j] == s.target by {
        lemma_advance_reaches_target(a, (j + 1) as nat);
    }
}

/// Attaching or detaching a UI never alters the audio side's output: the
/// retargeted smoother and the process view of a block are functions of
/// the smoothers, the pending audio-bound edits and the smoothing
/// duration alone, so two models that agree on those — whatever their
/// attach flags or UI-bound slots — produce identical views.
pub proof fn lemma_ui_attach_invisible(
    m1: ParameterModel,
    m2: ParameterModel,
    i: int,
    frames: nat,
)
    requires
        m1.smoothers@ == m2.smoothers@,
        m1.bridge.to_audio@ == m2.bridge.to_audio@,
        m1.smoothing_samples == m2.smoothing_samples,
        0 <= i < m1.smoothers@.len(),
    ensures
        spec_retarget(m1.smoothers@[i], m1.bridge.to_audio@[i], m1.smoothing_samples)
            == spec_retarget(m2.smoothers@[i], m2.bridge.to_audio@[i], m2.smoothing_samples),
        spec_view(
            spec_retarget(m1.smoothers@[i], m1.bridge.to_audio@[i], m1.smoothing_samples),
            frames,
        ) == spec_view(
            spec_retarget(m2.smoothers@[i], m2.bridge.to_audio@[i], m2.smoothing_samples),
            frames,
        ),
{
}

/// The descriptor table of the gain model: left, right and master gain,
/// each in decibels from -90 to +3 on a 0.15-exponent power fader.
pub fn gain_descriptors() -> (ds: Vec<ParameterDescriptor>)
    ensures
        ds.len() == 3,
        forall|i: int|
            0 <= i < 3 ==> {
                &&& (#[trigger] ds@[i]).wf()
                &&& ds@[i].id == i
                &&& ds@[i].min == -90_000_000i64
                &&& ds@[i].max == 3_000_000i64
                &&& ds@[i].curve == (Curve::Power { num: 3, den: 20 })
                &&& ds@[i].unit_label@ == "Decibels"@
            },
        ds@[0].display_name@ == "gain left"@,
        ds@[1].display_name@ == "gain right"@,
        ds@[2].display_name@ == "gain master"@,
{
    let gain_curve = Curve::Power { num: 3, den: 20 };
    let mut ds: Vec<ParameterDescriptor> = Vec::new();
    ds.push(
        ParameterDescriptor {
            id: 0,
            display_name: String::from_str("gain left"),
            unit_label: String::from_str("Decibels"),
            min: -90_000_000,
            max: 3_000_000,
            curve: gain_curve,
        },
    );
    ds.push(
        ParameterDescriptor {
            id: 1,
            display_name: String::from_str("gain right"),
            unit_label: String::from_str("Decibels"),
            min: -90_000_000,
            max: 3_000_000,
            curve: gain_curve,
        },
    );
    ds.push(
        ParameterDescriptor {
            id: 2,
            display_name: String::from_str("gain master"),
            unit_label: String::from_str("Decibels"),
            min: -90_000_000,
            max: 3_000_000,
            curve: gain_curve,
        },
    );
    ds
}

/// The gain model at its defaults: every gain resting at 0 dB (a unity
/// coefficient downstream), and the one non-automated value at 1.0.
pub fn default_gain_model() -> (m: ParameterModel)
    ensures
        m.wf(),
        m.phase == Phase::Created,
        m.descriptors.len() == 3,
        forall|i: int|
            0 <= i < 3 ==> (#[trigger] m.smoothers@[i]).current == 0
                && m.smoothers@[i].target == 0 && m.smoothers@[i].remaining == 0,
        m.non_param.len() == 1,
        m.non_param@[0] == 1_000_000i64,
{
    let ds = gain_descriptors();
    let mut defaults: Vec<i64> = Vec::new();
    defaults.push(0);
    defaults.push(0);
    defaults.push(0);
    let mut non_param: Vec<i64> = Vec::new();
    non_param.push(1_000_000);
    let r = ParameterModel::new(ds, defaults, non_param);
    match r {
        Ok(m) => m,
        Err(_) => unreached(),
    }
}

} // verus!
