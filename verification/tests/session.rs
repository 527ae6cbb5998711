use midi_does::actions::Action;
use midi_does::config::{
    default_layers, Config, DeviceConfig, FeedbackEntry, HardwareDef, HardwareInput, HardwareOutput, IconType,
    InputKind, LayerDef, LayerIcon, OutputKind, SignalEntry, SoftwareDef,
};
use midi_does::device::InputField;
use midi_does::dispatch::expand_command;
use midi_does::midi::{MidiEvent, PortInfo};
use midi_does::pipewire::{PwCommand, PwEvent, PwObject, PwObjectType};
use midi_does::session::{Effect, LearnTarget, Session};
use midi_does::software::{apply_edit, SoftwareEdit};
use midi_does::source::Source;

fn knob(actions: Vec<Action>) -> DeviceConfig {
    let hw = HardwareDef {
        id: "hw0".into(),
        hw_type: IconType::Knob,
        col: 0,
        row: 0,
        col_span: 1,
        row_span: 1,
        inputs: vec![HardwareInput {
            label: "in0".into(),
            kind: InputKind::Cc,
            channel: 0,
            number: 7,
        }],
        outputs: vec![HardwareOutput {
            label: "ring".into(),
            kind: OutputKind::LedRingCc,
            channel: 0,
            number: 7,
        }],
    };
    let software = SoftwareDef {
        label: "Vol".into(),
        signal_entries: vec![SignalEntry {
            input: "in0".into(),
            actions,
        }],
        feedback_entries: vec![
            FeedbackEntry {
                output: "ring".into(),
                source: Source::Bank,
                line2_source: None,
            },
            FeedbackEntry {
                output: "missing".into(),
                source: Source::Bank,
                line2_source: None,
            },
        ],
        visual_source: Some(Source::Bank),
    };
    DeviceConfig {
        port_name: "pad".into(),
        grid_columns: 8,
        grid_rows: 4,
        hardware: vec![hw],
        layers: vec![
            LayerDef {
                name: "A".into(),
                bank_offset: 0,
                icons: vec![LayerIcon {
                    hardware: "hw0".into(),
                    software,
                }],
            },
            LayerDef {
                name: "B".into(),
                bank_offset: 16,
                icons: Vec::new(),
            },
        ],
    }
}

fn session_with(actions: Vec<Action>) -> Session {
    let mut c = Config::new();
    c.insert_device("pad".to_string(), knob(actions));
    Session::new(c)
}

fn cc(value: u8) -> MidiEvent {
    MidiEvent::Cc {
        port_name: "pad".into(),
        channel: 0,
        controller: 7,
        value,
    }
}

#[test]
fn new_session_starts_on_first_layer() {
    let s = session_with(Vec::new());
    assert_eq!(s.active_layers, vec![("pad".to_string(), "A".to_string())]);
    assert_eq!(s.status_message, "Starting...");
    assert!(!s.dirty);
}

#[test]
fn command_placeholders_are_filled() {
    assert_eq!(
        expand_command("echo $RAW_VALUE $NORM_VALUE $BANK_OFFSET $RAW_VALUE", 64, 8),
        "echo 64 0.5039 8 64"
    );
    assert_eq!(expand_command("$NORM_VALUE", 127, 0), "1.0000");
    assert_eq!(expand_command("$NORM_VALUE", 0, 0), "0.0000");
    assert_eq!(expand_command("$NORM_VALUE", 1, 0), "0.0079");
    assert_eq!(expand_command("no placeholders", 5, 5), "no placeholders");
}

#[test]
fn cc_runs_command_with_bank_of_active_layer() {
    let mut s = session_with(vec![Action::BankIncrement, Action::RunCommand { command: "v=$RAW_VALUE b=$BANK_OFFSET".into() }]);
    let mut fx = Vec::new();
    s.handle_midi_event(cc(100), "line".into(), &mut fx);
    assert_eq!(s.midi_monitor, vec!["line".to_string()]);
    assert!(s.dirty);
    assert!(matches!(fx[0], Effect::MarkDirty));
    match &fx[1] {
        Effect::RunShell(c) => assert_eq!(c, "v=100 b=8"),
        other => panic!("unexpected {other:?}"),
    }
    assert!(matches!(fx[2], Effect::EvaluateFeedback));
    assert!(matches!(fx[3], Effect::EvaluateVisuals));
    assert_eq!(fx.len(), 4);
    assert_eq!(s.last_input_value.len(), 1);
    assert_eq!(s.last_input_value[0].1, 100);
    assert_eq!(s.last_input_value[0].0.label, "in0");
}

#[test]
fn bank_saturates() {
    let mut s = session_with(vec![Action::BankDecrement]);
    let mut fx = Vec::new();
    s.dispatch_hardware_event("pad", InputKind::Cc, 0, 7, 1, &mut fx);
    assert_eq!(s.config.device_by_name("pad").unwrap().layers[0].bank_offset, 0);
    let mut s2 = session_with(vec![Action::SetBankOffset { offset: 250 }, Action::BankIncrement]);
    s2.dispatch_hardware_event("pad", InputKind::Cc, 0, 7, 1, &mut fx);
    assert_eq!(s2.config.device_by_name("pad").unwrap().layers[0].bank_offset, 255);
}

#[test]
fn select_layer_action_switches_layer() {
    let mut s = session_with(vec![Action::SelectLayer { layer: "B".into() }]);
    let mut fx = Vec::new();
    s.select_device(0, &mut fx);
    assert_eq!(s.selected_layer.as_deref(), Some("A"));
    fx.clear();
    s.dispatch_hardware_event("pad", InputKind::Cc, 0, 7, 1, &mut fx);
    assert_eq!(s.active_layers[0].1, "B");
    assert_eq!(s.selected_layer.as_deref(), Some("B"));
    let mut s2 = session_with(vec![Action::SelectLayer { layer: "nope".into() }]);
    s2.dispatch_hardware_event("pad", InputKind::Cc, 0, 7, 1, &mut fx);
    assert_eq!(s2.active_layers[0].1, "A");
}

#[test]
fn unmatched_event_changes_nothing() {
    let mut s = session_with(vec![Action::BankIncrement]);
    let mut fx = Vec::new();
    s.dispatch_hardware_event("pad", InputKind::Cc, 1, 7, 1, &mut fx);
    s.dispatch_hardware_event("other", InputKind::Cc, 0, 7, 1, &mut fx);
    assert!(fx.is_empty());
    assert!(s.last_input_value.is_empty());
}

#[test]
fn toggle_mute_and_route_follow_pipewire_state() {
    let mut s = session_with(vec![
        Action::ToggleMute { target: "spk".into() },
        Action::RouteStream { stream_id: "firefox".into(), sink_id: "spk".into() },
    ]);
    let mut fx = Vec::new();
    s.handle_pw_event(
        PwEvent::ObjectsUpdated {
            objects: vec![PwObject {
                id: 3,
                object_type: PwObjectType::Sink,
                name: "spk".into(),
                description: "Speakers".into(),
                volume: None,
                muted: true,
            }],
            edges: vec![("firefox".to_string(), "spk".to_string())],
        },
        &mut fx,
    );
    assert!(s.pw_connected);
    fx.clear();
    s.dispatch_hardware_event("pad", InputKind::Cc, 0, 7, 1, &mut fx);
    match &fx[0] {
        Effect::Pw(PwCommand::Mute { target, muted }) => {
            assert_eq!(target, "spk");
            assert!(!muted);
        }
        other => panic!("unexpected {other:?}"),
    }
    match &fx[1] {
        Effect::Pw(PwCommand::Route { connect, .. }) => assert!(!connect),
        other => panic!("unexpected {other:?}"),
    }
}

#[test]
fn midi_send_actions_address_the_device() {
    let mut s = session_with(vec![Action::MidiSendNote { channel: 1, note: 60, velocity: 100 }]);
    let mut fx = Vec::new();
    s.dispatch_hardware_event("pad", InputKind::Cc, 0, 7, 5, &mut fx);
    match &fx[0] {
        Effect::SendNote { device, channel, note, velocity } => {
            assert_eq!(device, "pad");
            assert_eq!((*channel, *note, *velocity), (1, 60, 100));
        }
        other => panic!("unexpected {other:?}"),
    }
}

#[test]
fn learn_captures_next_message() {
    let mut s = session_with(Vec::new());
    let mut fx = Vec::new();
    s.select_device(0, &mut fx);
    s.start_learn("hw0".into(), 0);
    assert_eq!(s.status_message, "MIDI Learn: waiting for event...");
    fx.clear();
    s.handle_midi_event(
        MidiEvent::NoteOn {
            port_name: "pad".into(),
            channel: 2,
            note: 40,
            velocity: 9,
        },
        "n".into(),
        &mut fx,
    );
    assert!(s.learn_target.is_none());
    assert_eq!(s.status_message, "MIDI Learn: captured hw0 ch2 #40");
    let input = &s.config.device_by_name("pad").unwrap().hardware[0].inputs[0];
    assert_eq!((input.kind, input.channel, input.number), (InputKind::Note, 2, 40));
    assert!(matches!(fx[..], [Effect::MarkDirty]));
}

#[test]
fn learn_pitch_bend_stores_number_zero() {
    let mut s = session_with(Vec::new());
    s.learn_target = Some(LearnTarget { device: "pad".into(), hardware: "hw0".into(), input: 0 });
    let mut fx = Vec::new();
    s.handle_midi_event(MidiEvent::PitchBend { port_name: "pad".into(), channel: 3, value: 0x2000 }, "p".into(), &mut fx);
    let input = &s.config.device_by_name("pad").unwrap().hardware[0].inputs[0];
    assert_eq!((input.kind, input.channel, input.number), (InputKind::PitchBend, 3, 0));
}

#[test]
fn sysex_is_shown_in_hex() {
    let mut s = session_with(Vec::new());
    let mut fx = Vec::new();
    s.handle_midi_event(MidiEvent::SysEx { port_name: "pad".into(), data: vec![0xF0, 0x0A, 0xF7] }, "ignored".into(), &mut fx);
    assert_eq!(s.midi_monitor, vec!["SX: pad  F0 0A F7".to_string()]);
    assert!(fx.is_empty());
}

#[test]
fn monitor_keeps_fifty_lines() {
    let mut s = session_with(Vec::new());
    for i in 0..60 {
        s.push_monitor(format!("l{i}"));
    }
    assert_eq!(s.midi_monitor.len(), 50);
    assert_eq!(s.midi_monitor[0], "l10");
}

#[test]
fn connected_event_records_port() {
    let mut s = session_with(Vec::new());
    let mut fx = Vec::new();
    s.handle_midi_event(MidiEvent::Connected { port_name: "pad".into() }, "c".into(), &mut fx);
    s.handle_midi_event(MidiEvent::Connected { port_name: "pad".into() }, "c".into(), &mut fx);
    assert_eq!(s.connected_devices, vec!["pad".to_string()]);
    assert_eq!(s.status_message, "Connected: pad");
}

#[test]
fn feedback_and_visual_jobs_follow_active_layer() {
    let s = session_with(Vec::new());
    let jobs = s.feedback_jobs(None);
    assert_eq!(jobs.len(), 1);
    assert_eq!(jobs[0].output_label, "ring");
    assert_eq!(jobs[0].base.layer_name, "A");
    assert_eq!(s.feedback_jobs(Some("other")).len(), 0);
    assert_eq!(s.visual_jobs().len(), 1);
    let mut s2 = session_with(vec![Action::SelectLayer { layer: "B".into() }]);
    let mut fx = Vec::new();
    s2.dispatch_hardware_event("pad", InputKind::Cc, 0, 7, 3, &mut fx);
    assert_eq!(s2.feedback_jobs(None).len(), 0);
    assert_eq!(s2.visual_jobs().len(), 0);
}

#[test]
fn raw_values_reach_jobs() {
    let mut s = session_with(Vec::new());
    let mut fx = Vec::new();
    s.dispatch_hardware_event("pad", InputKind::Cc, 0, 7, 33, &mut fx);
    let jobs = s.visual_jobs();
    assert_eq!(jobs[0].base.raw_midi_values, vec![("in0".to_string(), 33)]);
}

#[test]
fn layer_management() {
    let mut s = session_with(Vec::new());
    let mut fx = Vec::new();
    s.select_device(0, &mut fx);
    s.add_layer("  C  ", &mut fx);
    assert_eq!(s.selected_layer.as_deref(), Some("C"));
    assert_eq!(s.config.device_by_name("pad").unwrap().layers.len(), 3);
    assert!(!s.rename_layer("C".into(), "B", &mut fx));
    assert_eq!(s.status_message, "Layer 'B' already exists");
    assert!(!s.rename_layer("C".into(), "   ", &mut fx));
    assert_eq!(s.status_message, "Layer name cannot be empty");
    assert!(s.rename_layer("C".into(), " D ", &mut fx));
    assert_eq!(s.selected_layer.as_deref(), Some("D"));
    assert_eq!(s.active_layers[0].1, "D");
    s.remove_layer("D".into(), &mut fx);
    assert_eq!(s.config.device_by_name("pad").unwrap().layers.len(), 2);
    assert_eq!(s.selected_layer.as_deref(), Some("A"));
    s.remove_layer("A".into(), &mut fx);
    fx.clear();
    s.remove_layer("B".into(), &mut fx);
    assert_eq!(s.status_message, "Cannot remove the last layer");
    assert!(fx.is_empty());
}

#[test]
fn hardware_editing_follows_icons() {
    let mut s = session_with(Vec::new());
    let mut fx = Vec::new();
    s.select_device(0, &mut fx);
    assert!(s.rename_hardware("hw0", "knob", &mut fx));
    let d = s.config.device_by_name("pad").unwrap();
    assert_eq!(d.hardware[0].id, "knob");
    assert_eq!(d.layers[0].icons[0].hardware, "knob");
    assert_eq!(s.rename_hardware_input("knob", 0, "vol".into(), &mut fx), Some("in0".to_string()));
    let d = s.config.device_by_name("pad").unwrap();
    assert_eq!(d.layers[0].icons[0].software.signal_entries[0].input, "vol");
    assert!(s.add_hardware_input("knob", &mut fx));
    assert_eq!(s.config.device_by_name("pad").unwrap().hardware[0].inputs[1].label, "in0");
    assert!(s.update_hardware_input("knob", 1, InputField::Number(9), &mut fx));
    assert_eq!(s.remove_hardware_output("knob", 0, &mut fx), Some("ring".to_string()));
    let d = s.config.device_by_name("pad").unwrap();
    assert_eq!(d.layers[0].icons[0].software.feedback_entries.len(), 1);
    assert_eq!(d.layers[0].icons[0].software.feedback_entries[0].output, "missing");
    s.click_empty_cell(3, 2, &mut fx);
    assert_eq!(s.editing_icon_idx, Some(1));
    assert_eq!(s.config.device_by_name("pad").unwrap().hardware[1].id, "hw0");
    s.remove_hardware("knob", &mut fx);
    let d = s.config.device_by_name("pad").unwrap();
    assert_eq!(d.hardware.len(), 1);
    assert!(d.layers[0].icons.is_empty());
    assert_eq!(s.editing_icon_idx, None);
}

#[test]
fn duplicate_hardware_id_is_refused() {
    let mut s = session_with(Vec::new());
    let mut fx = Vec::new();
    s.select_device(0, &mut fx);
    s.click_empty_cell(1, 1, &mut fx);
    fx.clear();
    assert!(!s.rename_hardware("hw1", "hw0", &mut fx));
    assert_eq!(s.status_message, "Hardware id 'hw0' already exists");
    assert!(fx.is_empty());
}

#[test]
fn software_edits_in_selected_layer() {
    let mut s = session_with(Vec::new());
    let mut fx = Vec::new();
    s.select_device(0, &mut fx);
    fx.clear();
    assert_eq!(s.edit_software(0, SoftwareEdit::SetLabel("Vol".into()), &mut fx), Some(false));
    assert!(fx.is_empty());
    assert_eq!(s.edit_software(0, SoftwareEdit::AddSignalEntry, &mut fx), Some(true));
    assert_eq!(s.edit_software(0, SoftwareEdit::AddFeedbackEntry, &mut fx), Some(true));
    let sw = &s.config.device_by_name("pad").unwrap().layers[0].icons[0].software;
    assert_eq!(sw.signal_entries.len(), 2);
    assert!(matches!(sw.signal_entries[1].actions[..], [Action::NoOp]));
    assert_eq!(sw.feedback_entries[2].output, "");
    assert!(matches!(&sw.feedback_entries[2].source, Source::Direct { value } if value == "false"));
    fx.clear();
    assert_eq!(s.edit_software(0, SoftwareEdit::SetVisualSource(Vec::new(), None), &mut fx), Some(true));
    assert!(matches!(fx[..], [Effect::MarkDirty, Effect::EvaluateVisuals]));
    assert_eq!(s.edit_software(7, SoftwareEdit::AddSignalEntry, &mut fx), None);
}

#[test]
fn add_device_dialog_offers_unconfigured_ports() {
    let mut s = session_with(Vec::new());
    s.open_add_dialog(vec![PortInfo { name: "pad".into() }, PortInfo { name: "new".into() }]);
    assert!(s.show_add_dialog);
    assert_eq!(s.add_dialog_state.available_ports.len(), 1);
    s.dialog_select_port(0);
    let mut fx = Vec::new();
    s.confirm_add_device(&mut fx);
    assert!(!s.show_add_dialog);
    assert_eq!(s.config.device_names(), &["pad", "new"]);
    assert!(matches!(&fx[1], Effect::ConnectDevice(n) if n == "new"));
    assert!(s.active_layers.contains(&("new".to_string(), "A".to_string())));
}

#[test]
fn remove_device_forgets_it() {
    let mut s = session_with(Vec::new());
    let mut fx = Vec::new();
    s.select_device(0, &mut fx);
    s.port_connected("pad".into());
    fx.clear();
    s.remove_device(0, &mut fx);
    assert_eq!(s.config.device_count(), 0);
    assert!(s.selected_device_name.is_none());
    assert!(s.connected_devices.is_empty());
    assert!(s.active_layers.is_empty());
    assert!(matches!(&fx[0], Effect::ForgetDevice(n) if n == "pad"));
}

#[test]
fn hotplug_bookkeeping() {
    let mut s = session_with(Vec::new());
    assert_eq!(s.devices_to_connect(), vec![("pad".to_string(), "pad".to_string())]);
    s.port_connected("pad".into());
    assert!(s.devices_to_connect().is_empty());
    let gone = s.forget_unavailable(&["other".to_string()]);
    assert_eq!(gone, vec!["pad".to_string()]);
    assert!(s.connected_devices.is_empty());
}

#[test]
fn escape_closes_dialog_then_editor() {
    let mut s = session_with(Vec::new());
    let mut fx = Vec::new();
    s.show_add_dialog = true;
    s.open_icon_editor(0);
    s.press_escape(&mut fx);
    assert!(!s.show_add_dialog);
    assert_eq!(s.editing_icon_idx, Some(0));
    s.press_escape(&mut fx);
    assert_eq!(s.editing_icon_idx, None);
    assert!(matches!(fx[..], [Effect::SaveConfig]));
}

#[test]
fn set_volume_is_handed_out_with_raw_value() {
    let mut s = session_with(vec![Action::SetVolume {
        target: "spk".into(),
        target_kind: midi_does::actions::VolumeTarget::default(),
        min: midi_does::actions::default_min(),
        max: midi_does::actions::default_max(),
        mode: midi_does::actions::VolumeMode::default(),
        encoder: midi_does::actions::EncoderMode::default(),
        step: midi_does::actions::default_step(),
    }]);
    let mut fx = Vec::new();
    s.dispatch_hardware_event("pad", InputKind::Cc, 0, 7, 42, &mut fx);
    match &fx[0] {
        Effect::SetVolume { target, raw, .. } => {
            assert_eq!(target, "spk");
            assert_eq!(*raw, 42);
        }
        other => panic!("unexpected {other:?}"),
    }
}

#[test]
fn adding_then_removing_an_entry_restores_the_software() {
    let mut sw = SoftwareDef::new();
    sw.label = "Vol".into();
    assert!(apply_edit(&mut sw, SoftwareEdit::AddSignalEntry));
    assert!(apply_edit(&mut sw, SoftwareEdit::AddFeedbackEntry));
    assert_eq!(sw.signal_entries.len(), 1);
    assert!(matches!(sw.signal_entries[0].actions.as_slice(), [Action::NoOp]));
    assert!(matches!(&sw.feedback_entries[0].source, Source::Direct { value } if value == "false"));

    assert!(apply_edit(&mut sw, SoftwareEdit::RemoveSignalEntry(0)));
    assert!(apply_edit(&mut sw, SoftwareEdit::RemoveFeedbackEntry(0)));
    assert!(sw.signal_entries.is_empty());
    assert!(sw.feedback_entries.is_empty());
    assert_eq!(sw.label, "Vol");
    // Removing past the end changes nothing.
    assert!(!apply_edit(&mut sw, SoftwareEdit::RemoveSignalEntry(0)));
}

#[test]
fn bank_set_is_read_back_and_up_down_returns() {
    let mut s = session_with(Vec::new());
    let mut fx = Vec::new();
    s.execute_action(&Action::SetBankOffset { offset: 40 }, 0, "pad", &mut fx);
    assert_eq!(s.current_bank("pad"), 40);
    s.execute_action(&Action::BankIncrement, 0, "pad", &mut fx);
    assert_eq!(s.current_bank("pad"), 48);
    s.execute_action(&Action::BankDecrement, 0, "pad", &mut fx);
    assert_eq!(s.current_bank("pad"), 40);
    // A device that is not configured has bank 0 and is left alone.
    s.execute_action(&Action::SetBankOffset { offset: 9 }, 0, "other", &mut fx);
    assert_eq!(s.current_bank("other"), 0);
    assert_eq!(fx.len(), 3);
}

#[test]
fn removing_the_active_layer_moves_to_the_first_left() {
    let mut s = session_with(Vec::new());
    let mut fx = Vec::new();
    s.select_device(0, &mut fx);
    s.select_layer("B".into(), &mut fx);
    assert_eq!(s.active_layers[0].1, "B");
    s.remove_layer("B".into(), &mut fx);
    assert_eq!(s.active_layers, vec![("pad".to_string(), "A".to_string())]);
    assert_eq!(s.selected_layer.as_deref(), Some("A"));

    // Removing a layer that is neither active nor shown keeps both.
    s.add_layer("C", &mut fx);
    s.select_layer("A".into(), &mut fx);
    s.remove_layer("C".into(), &mut fx);
    assert_eq!(s.active_layers[0].1, "A");
    assert_eq!(s.selected_layer.as_deref(), Some("A"));
}
