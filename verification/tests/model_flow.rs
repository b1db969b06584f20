use gain_params::bridge::Origin;
use gain_params::curve::{Curve, NORM_ONE, ParameterDescriptor, to_normalized};
use gain_params::mirror::{State, UiMirror};
use gain_params::model::{ModelError, ParameterModel, Phase, default_gain_model, gain_descriptors};

fn one_gain_model(default_plain: i64) -> ParameterModel {
    let d = ParameterDescriptor {
        id: 0,
        display_name: String::from("gain"),
        unit_label: String::from("Decibels"),
        min: -90_000_000,
        max: 3_000_000,
        curve: Curve::Power { num: 3, den: 20 },
    };
    ParameterModel::new(vec![d], vec![default_plain], vec![]).unwrap()
}

#[test]
fn construction_fails_fast() {
    assert!(matches!(
        ParameterModel::new(vec![], vec![], vec![]),
        Err(ModelError::EmptyDescriptors)
    ));
    let bad = ParameterDescriptor {
        id: 0,
        display_name: String::from("broken"),
        unit_label: String::from("x"),
        min: 5,
        max: -5,
        curve: Curve::Linear,
    };
    assert!(matches!(
        ParameterModel::new(vec![bad], vec![0], vec![]),
        Err(ModelError::InvalidDescriptor)
    ));
    let ok = ParameterDescriptor {
        id: 0,
        display_name: String::from("fine"),
        unit_label: String::from("x"),
        min: -5,
        max: 5,
        curve: Curve::Linear,
    };
    assert!(matches!(
        ParameterModel::new(vec![ok], vec![0, 0], vec![]),
        Err(ModelError::DefaultsMismatch)
    ));
}

#[test]
fn initialize_rejects_zero_smoothing() {
    let mut m = one_gain_model(0);
    // 100 samples/s over 5 ms is zero whole samples: refused.
    assert!(matches!(m.initialize(100), Err(ModelError::ZeroSmoothingDuration)));
    assert_eq!(m.phase, Phase::Created);
    assert!(m.initialize(48_000).is_ok());
    assert_eq!(m.phase, Phase::Initialized);
    assert_eq!(m.smoothing_samples, 240);
}

#[test]
fn defaults_of_the_gain_model() {
    let m = default_gain_model();
    assert_eq!(m.descriptors.len(), 3);
    assert_eq!(m.phase, Phase::Created);
    for i in 0..3 {
        assert_eq!(m.get_plain(i), 0); // 0 dB: a unity coefficient downstream
        assert_eq!(m.descriptors[i].min, -90_000_000);
        assert_eq!(m.descriptors[i].max, 3_000_000);
    }
    assert_eq!(m.get_non_param(0), 1_000_000);
    let ds = gain_descriptors();
    assert_eq!(ds[0].display_name, "gain left");
    assert_eq!(ds[1].display_name, "gain right");
    assert_eq!(ds[2].display_name, "gain master");
}

#[test]
fn process_converges_to_constant_target() {
    let mut m = one_gain_model(0);
    m.initialize(6_400).unwrap(); // 32 smoothing samples
    m.set_parameter(0, NORM_ONE);
    let mut blocks = 0;
    loop {
        let views = m.process_block(10);
        assert_eq!(views.len(), 1);
        assert_eq!(views[0].len(), 10);
        blocks += 1;
        if m.smoothers[0].remaining == 0 {
            break;
        }
        assert!(blocks < 100, "never converged");
    }
    assert_eq!(blocks, 4); // ceil(32 / 10)
    assert_eq!(m.get_plain(0), 3_000_000);
    // Thereafter every view is constant at the target.
    let views = m.process_block(16);
    for &v in &views[0] {
        assert_eq!(v, 3_000_000);
    }
}

#[test]
fn end_to_end_gain_block() {
    // Descriptor min -90, max 3, curve Power(0.15); smoothing 32 samples.
    let mut m = one_gain_model(-6_000_000); // resting at -6 dB
    m.initialize(6_400).unwrap();
    m.set_parameter(0, NORM_ONE);
    let views = m.process_block(40);
    assert_eq!(m.get_plain(0), 3_000_000); // normalized 1.0 is +3 dB exactly
    assert_eq!(views[0][39], 3_000_000);

    let mut m = one_gain_model(-6_000_000);
    m.initialize(6_400).unwrap();
    m.set_parameter(0, 0);
    m.process_block(40);
    assert_eq!(m.get_plain(0), -90_000_000); // normalized 0.0 is -90 dB exactly

    // A host edit from -6 dB toward 0 dB over a 64-sample block with
    // 32-sample smoothing: from the 33rd sample on, every sample already
    // equals the 0 dB-derived plain value.
    let mut m = one_gain_model(-6_000_000);
    m.initialize(6_400).unwrap();
    let n_zero = to_normalized(&m.descriptors[0], 0);
    m.set_parameter(0, n_zero);
    let views = m.process_block(64);
    let target = m.get_plain(0);
    assert!(target.abs() <= 1_000, "0 dB target off by {} micro-dB", target);
    for j in 32..64 {
        assert_eq!(views[0][j], target, "sample {} not settled", j + 1);
    }
    // And the ramp before it never leaves the edit's interval.
    for j in 0..32 {
        assert!(views[0][j] >= -6_000_000 && views[0][j] <= target);
    }
}

#[test]
fn edits_queued_before_a_block_apply_in_that_block() {
    let mut m = one_gain_model(0);
    m.initialize(48_000).unwrap();
    // Two rapid host edits for the same parameter: the later one wins.
    m.set_parameter(0, 200_000);
    m.set_parameter(0, NORM_ONE);
    m.process_block(300);
    assert_eq!(m.get_plain(0), 3_000_000);
}

#[test]
fn mirror_sees_only_the_latest_state() {
    let mut m = one_gain_model(0);
    m.initialize(48_000).unwrap();
    m.attach_ui();
    let mut ui = UiMirror::new(&m);
    assert_eq!(ui.entries[0].plain, 0);
    assert!(!ui.entries[0].updated_by_host);

    m.set_parameter(0, NORM_ONE);
    m.process_block(300);
    ui.poll_updates(&mut m);
    assert!(ui.entries[0].updated_by_host);
    assert_eq!(ui.entries[0].normalized, NORM_ONE);
    assert_eq!(ui.entries[0].plain, 3_000_000);

    // Nothing new: the next poll lowers the host flag and keeps values.
    ui.poll_updates(&mut m);
    assert!(!ui.entries[0].updated_by_host);
    assert_eq!(ui.entries[0].plain, 3_000_000);
}

#[test]
fn ui_edit_echoes_with_its_origin() {
    let mut m = one_gain_model(0);
    m.initialize(48_000).unwrap();
    m.attach_ui();
    let mut ui = UiMirror::new(&m);
    ui.set_from_normalized(&mut m, 0, NORM_ONE);
    assert_eq!(ui.entries[0].plain, 3_000_000); // optimistic local value
    m.process_block(300);
    ui.poll_updates(&mut m);
    // The echo carries origin Ui, so the mirror knows it was its own edit.
    assert!(!ui.entries[0].updated_by_host);
    assert_eq!(ui.entries[0].plain, 3_000_000);
}

#[test]
fn state_new_starts_with_empty_texts() {
    let m = default_gain_model();
    let ui = UiMirror::new(&m);
    let st = State::new(ui);
    assert_eq!(st.value_texts.len(), 3);
    for t in &st.value_texts {
        assert_eq!(t, "");
    }
}

#[test]
fn host_automation_refreshes_value_texts() {
    let mut m = default_gain_model();
    m.initialize(48_000).unwrap();
    m.attach_ui();
    let ui = UiMirror::new(&m);
    let mut st = State::new(ui);

    m.set_parameter(1, NORM_ONE);
    m.process_block(300);
    st.model.poll_updates(&mut m);
    st.sync_value_texts(&m);
    assert_eq!(st.value_texts[1], "3.0 Decibels");
    assert_eq!(st.value_texts[0], ""); // untouched parameters keep their text
}

#[test]
fn slider_edit_updates_text_and_enqueues() {
    let mut m = default_gain_model();
    m.initialize(48_000).unwrap();
    m.attach_ui();
    let ui = UiMirror::new(&m);
    let mut st = State::new(ui);
    st.slider_changed(&mut m, 2, 0);
    assert_eq!(st.value_texts[2], "-90.0 Decibels");
    m.process_block(300);
    assert_eq!(m.get_plain(2), -90_000_000);
}

#[test]
fn non_parameter_values_bypass_smoothing() {
    let mut m = default_gain_model();
    m.initialize(48_000).unwrap();
    assert_eq!(m.get_non_param(0), 1_000_000);
    m.set_non_param(0, 250_000);
    assert_eq!(m.get_non_param(0), 250_000); // immediate, no block needed
}

#[test]
fn ui_attach_and_detach_never_alter_audio_output() {
    let mut with_ui = default_gain_model();
    let mut without_ui = default_gain_model();
    with_ui.initialize(6_400).unwrap();
    without_ui.initialize(6_400).unwrap();

    with_ui.attach_ui();
    let mut ui = UiMirror::new(&with_ui);

    let edits: [(usize, u64); 4] = [(0, 1_000_000), (1, 500_000), (2, 0), (0, 750_000)];
    for (step, &(id, n)) in edits.iter().enumerate() {
        with_ui.set_parameter(id, n);
        without_ui.set_parameter(id, n);
        if step == 1 {
            with_ui.detach_ui();
        }
        if step == 2 {
            with_ui.attach_ui();
            ui = UiMirror::new(&with_ui);
        }
        let a = with_ui.process_block(48);
        let b = without_ui.process_block(48);
        assert_eq!(a, b, "views diverged at step {}", step);
        if step != 2 {
            ui.poll_updates(&mut with_ui);
        }
    }
    assert_eq!(with_ui.get_plain(0), without_ui.get_plain(0));
}

#[test]
fn host_edit_always_succeeds_and_clamps() {
    let mut m = one_gain_model(0);
    m.initialize(48_000).unwrap();
    m.set_parameter(0, u64::MAX); // far out of range: clamped, not rejected
    m.process_block(300);
    assert_eq!(m.get_plain(0), 3_000_000);
    assert_eq!(m.get_normalized(0), NORM_ONE);
}

#[test]
fn lifecycle_walk() {
    let mut m = one_gain_model(0);
    assert_eq!(m.phase, Phase::Created);
    m.initialize(48_000).unwrap();
    assert_eq!(m.phase, Phase::Initialized);
    m.process_block(8);
    assert_eq!(m.phase, Phase::Processing);
    m.attach_ui();
    assert!(m.ui_attached);
    m.process_block(8);
    m.detach_ui();
    assert!(!m.ui_attached);
    m.destroy();
    assert_eq!(m.phase, Phase::Destroyed);
}

#[test]
fn restore_is_smoothed_through_the_bridge() {
    let mut m = default_gain_model();
    m.initialize(6_400).unwrap(); // 32 smoothing samples
    m.set_parameter(0, NORM_ONE);
    m.process_block(64);
    let saved = m.saved_plain_values();
    assert_eq!(saved, vec![3_000_000, 0, 0]);

    let mut fresh = default_gain_model();
    fresh.initialize(6_400).unwrap();
    for (id, &plain) in saved.iter().enumerate() {
        fresh.restore_plain(id, plain);
    }
    // Restored values ramp in rather than snapping: the first block's
    // first sample is still on its way.
    let views = fresh.process_block(64);
    assert!(views[0][0] < 3_000_000);
    assert_eq!(views[0][63], 3_000_000);
    assert_eq!(fresh.saved_plain_values(), saved);
    // The echo carries origin Program.
    let mut ui = UiMirror::new(&fresh);
    ui.poll_updates(&mut fresh);
    assert!(!ui.entries[0].updated_by_host);
    assert_eq!(ui.entries[0].plain, 3_000_000);
}

#[test]
fn program_origin_crosses_the_bridge() {
    let mut b = gain_params::bridge::SyncBridge::new(1);
    let s = gain_params::bridge::ParameterSnapshot {
        id: 0,
        normalized: 0,
        plain: -90_000_000,
        origin: Origin::Program,
    };
    b.push_to_audio(s);
    assert_eq!(b.take_to_audio(0).unwrap().origin, Origin::Program);
}
