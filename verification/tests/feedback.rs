use midi_does::feedback::{
    blink_shows_first, build_led_ring_sysex, build_scribble_sysex, is_true, MCU_LED_RING_CMD, MCU_SCRIBBLE_STRIP_CMD,
    SYSEX_TERMINATOR,
};
use midi_does::actions::Real;
use midi_does::pipewire::{node_matches, route_is_active_with_edges, PwObject, PwObjectType};

const MCU_SYSEX_HEADER: [u8; 5] = [0xF0, 0x00, 0x00, 0x66, 0x14];

fn vol(v: f64) -> Option<Real> {
    Some(Real { bits: v.to_bits() })
}

#[test]
fn test_build_scribble_sysex() {
    let data = build_scribble_sysex("T1", "abc", 3);
    assert_eq!(&data[..5], MCU_SYSEX_HEADER);
    assert_eq!(data[5], MCU_SCRIBBLE_STRIP_CMD);
    assert_eq!(data[6], 0x03);
    assert_eq!(&data[7..14], b"T1     ");
    assert_eq!(&data[14..21], b"abc    ");
    assert_eq!(*data.last().unwrap(), SYSEX_TERMINATOR);
    assert_eq!(data.len(), 22);

    let data2 = build_scribble_sysex("\u{00e9}\u{00e9}", "x", 0);
    assert_eq!(&data2[7..14], b"       ");
    assert_eq!(&data2[14..21], b"x      ");
}

#[test]
fn scribble_lines_are_cut_to_seven() {
    let data = build_scribble_sysex("ABCDEFGHIJ", "", 1);
    assert_eq!(&data[7..14], b"ABCDEFG");
    assert_eq!(&data[14..21], b"       ");
}

/// The ring position the application sends for a normalized value.
fn ring(normalized: f64) -> u8 {
    (normalized.clamp(0.0, 1.0) * 127.0).round() as u8
}

#[test]
fn test_build_led_ring_sysex() {
    let data = build_led_ring_sysex(ring(0.5), 7);
    assert_eq!(&data[..5], MCU_SYSEX_HEADER);
    assert_eq!(data[5], MCU_LED_RING_CMD);
    assert_eq!(data[6], 0x07);
    assert_eq!(data[7], 0x00, "Single mode");
    assert_eq!(data[8], 64);
    assert_eq!(*data.last().unwrap(), SYSEX_TERMINATOR);
    assert_eq!(data.len(), 10);

    // The ring index is masked to 3 bits.
    assert_eq!(build_led_ring_sysex(ring(1.0), 9)[6], 1);
}

#[test]
fn normalized_input_text_has_four_decimals() {
    assert_eq!(midi_does::text::norm_value_text(64), "0.5039");
    assert_eq!(midi_does::text::norm_value_text(127), "1.0000");
    assert_eq!(midi_does::text::norm_value_text(0), "0.0000");
    assert_eq!(midi_does::text::to_decimal(8), "8");
}

#[test]
fn truth_of_source_text() {
    assert!(is_true("true"));
    assert!(is_true("1"));
    assert!(!is_true("false"));
    assert!(!is_true("TRUE"));
}

#[test]
fn blink_alternates_and_clamps_short_intervals() {
    assert!(blink_shows_first(0, 1000));
    assert!(!blink_shows_first(1500, 1000));
    assert!(blink_shows_first(2100, 1000));
    assert!(!blink_shows_first(150, 0));
}

#[test]
fn test_node_matches() {
    assert!(node_matches("alsa_output.usb-sink", "alsa_output.usb-sink"));
    assert!(node_matches("alsa_output.usb-sink:extra", "sink"));
    assert!(!node_matches("firefox", "spotify"));
}

#[test]
fn test_find_pw_object_macro_no_match() {
    let objects = vec![PwObject {
        id: 99,
        object_type: PwObjectType::Sink,
        name: "random_sink".into(),
        description: "Random".into(),
        volume: vol(0.5),
        muted: false,
    }];
    assert!(PwObject::find(&objects, "nonexistent").is_none());
    assert!(PwObject::find(&objects, "99").is_some());
}

#[test]
fn test_find_pw_object_by_name() {
    let objects = vec![PwObject {
        id: 44,
        object_type: PwObjectType::Sink,
        name: "my-sink".into(),
        description: "My Sink".into(),
        volume: None,
        muted: false,
    }];
    assert_eq!(PwObject::find(&objects, "my-sink").map(|o| o.id), Some(44));
    assert_eq!(PwObject::find(&objects, "my").map(|o| o.id), Some(44));
    assert!(PwObject::find(&objects, "media-sink").is_none());
}

#[test]
fn test_route_is_active_with_edges() {
    let objects = vec![
        PwObject {
            id: 1,
            object_type: PwObjectType::Stream,
            name: "firefox".into(),
            description: "Firefox".into(),
            volume: None,
            muted: false,
        },
        PwObject {
            id: 2,
            object_type: PwObjectType::Sink,
            name: "alsa_output.hdmi".into(),
            description: "HDMI".into(),
            volume: vol(0.5),
            muted: false,
        },
    ];
    let edges = vec![("firefox".to_string(), "alsa_output.hdmi".to_string())];

    assert!(route_is_active_with_edges(edges.as_slice(), objects.as_slice(), "firefox", "alsa_output.hdmi"));
    assert!(!route_is_active_with_edges(edges.as_slice(), objects.as_slice(), "firefox", "other_sink"));
    assert!(!route_is_active_with_edges(&[], objects.as_slice(), "firefox", "alsa_output.hdmi"));
}
