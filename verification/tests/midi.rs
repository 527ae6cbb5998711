use midi_does::midi::{available_port_infos, handle_midi_message, stable_port_key, MidiEvent};

fn collect_event(bytes: &[u8]) -> Option<MidiEvent> {
    handle_midi_message(bytes, "test-port")
}

#[test]
fn test_midi_cc() {
    let event = collect_event(&[0xB0, 0x07, 0x40]);
    match event {
        Some(MidiEvent::Cc {
            channel,
            controller,
            value,
            port_name,
        }) => {
            assert_eq!(channel, 0);
            assert_eq!(controller, 7);
            assert_eq!(value, 64);
            assert_eq!(port_name, "test-port");
        }
        other => panic!("Expected Cc event, got {other:?}"),
    }
}

#[test]
fn test_note_on() {
    let event = collect_event(&[0x90, 0x3C, 0x7F]);
    match event {
        Some(MidiEvent::NoteOn {
            channel,
            note,
            velocity,
            ..
        }) => {
            assert_eq!(channel, 0);
            assert_eq!(note, 0x3C);
            assert_eq!(velocity, 0x7F);
        }
        other => panic!("Expected NoteOn event, got {other:?}"),
    }
}

#[test]
fn test_note_on_zero_velocity_is_ignored() {
    let event = collect_event(&[0x90, 0x3C, 0x00]);
    assert!(event.is_none());
}

#[test]
fn test_note_off_is_ignored() {
    let event = collect_event(&[0x80, 0x3C, 0x40]);
    assert!(event.is_none());
}

#[test]
fn test_pitch_bend() {
    let event = collect_event(&[0xE0, 0x00, 0x40]);
    match event {
        Some(MidiEvent::PitchBend { channel, value, .. }) => {
            assert_eq!(channel, 0);
            assert_eq!(value, 0x2000);
        }
        other => panic!("Expected PitchBend event, got {other:?}"),
    }
}

#[test]
fn test_sysex() {
    let event = collect_event(&[0xF0, 0x7E, 0x7F, 0x06, 0x01, 0xF7]);
    match event {
        Some(MidiEvent::SysEx { data, .. }) => {
            assert_eq!(data, vec![0xF0, 0x7E, 0x7F, 0x06, 0x01, 0xF7]);
        }
        other => panic!("Expected SysEx event, got {other:?}"),
    }
}

#[test]
fn test_empty_message_returns_nothing() {
    let event = collect_event(&[]);
    assert!(event.is_none());
}

#[test]
fn test_status_below_0x80_is_ignored() {
    let event = collect_event(&[0x7F, 0x42, 0x42]);
    assert!(event.is_none());
}

#[test]
fn test_stable_port_key_strips_client_port_ids() {
    assert_eq!(
        stable_port_key("X-TOUCH MINI:X-TOUCH MINI MIDI 1 16:0"),
        "X-TOUCH MINI:X-TOUCH MINI MIDI 1"
    );
    assert_eq!(
        stable_port_key("X-TOUCH MINI:X-TOUCH MINI MIDI 1 32:0"),
        "X-TOUCH MINI:X-TOUCH MINI MIDI 1"
    );
}

#[test]
fn test_stable_port_key_leaves_plain_names_untouched() {
    assert_eq!(stable_port_key("X-Touch"), "X-Touch");
    assert_eq!(stable_port_key("MIDI Fighter Twister"), "MIDI Fighter Twister");
}

#[test]
fn stable_port_key_keeps_non_numeric_suffix() {
    assert_eq!(stable_port_key("Device 1a:0"), "Device 1a:0");
    assert_eq!(stable_port_key("Device :0"), "Device :0");
}

#[test]
fn channel_is_low_nibble() {
    match collect_event(&[0xB5, 0x01, 0x02]) {
        Some(MidiEvent::Cc { channel, .. }) => assert_eq!(channel, 5),
        other => panic!("Expected Cc event, got {other:?}"),
    }
}

#[test]
fn truncated_cc_is_ignored() {
    assert!(collect_event(&[0xB0, 0x07]).is_none());
}

#[test]
fn ports_offered_by_stable_name() {
    let names = vec![
        "X-TOUCH MINI:X-TOUCH MINI MIDI 1 16:0".to_string(),
        "Plain".to_string(),
    ];
    let ports = available_port_infos(&names);
    let got: Vec<String> = ports.iter().map(|p| p.name.clone()).collect();
    assert!(got.contains(&"X-TOUCH MINI:X-TOUCH MINI MIDI 1".to_string()));
    assert!(got.contains(&"Plain".to_string()));
}
