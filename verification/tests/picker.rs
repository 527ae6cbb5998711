use midi_does::actions::Action;
use midi_does::config::{
    FeedbackEntry, HardwareDef, HardwareInput, HardwareOutput, IconType, InputKind, LayerDef,
    LayerIcon, OutputKind, SignalEntry, SoftwareDef,
};
use midi_does::midi::PortInfo;
use midi_does::picker::{
    free_input_labels, free_output_labels, leaf_source_type_names, output_kind, pw_options,
};
use midi_does::pipewire::{route_from_fields, PwObject, PwObjectType};
use midi_does::source::Source;
use midi_does::ui::{cell_occupied, shown_label, AddDeviceDialog};

fn hw(id: &str, col: u8, row: u8, col_span: u8, row_span: u8) -> HardwareDef {
    HardwareDef {
        id: id.into(),
        hw_type: IconType::Button,
        col,
        row,
        col_span,
        row_span,
        inputs: vec![
            HardwareInput {
                label: "press".into(),
                kind: InputKind::Note,
                channel: 0,
                number: 1,
            },
            HardwareInput {
                label: "turn".into(),
                kind: InputKind::Cc,
                channel: 0,
                number: 2,
            },
        ],
        outputs: vec![
            HardwareOutput {
                label: "led".into(),
                kind: OutputKind::Led,
                channel: 0,
                number: 1,
            },
            HardwareOutput {
                label: "strip".into(),
                kind: OutputKind::Scribble,
                channel: 0,
                number: 0,
            },
        ],
    }
}

fn obj(id: u32, t: PwObjectType, name: &str, description: &str) -> PwObject {
    PwObject {
        id,
        object_type: t,
        name: name.into(),
        description: description.into(),
        volume: None,
        muted: false,
    }
}

#[test]
fn occupied_cells_follow_spans() {
    let controls = vec![hw("a", 1, 1, 2, 1), hw("b", 4, 0, 1, 3)];
    assert!(cell_occupied(&controls, 1, 1));
    assert!(cell_occupied(&controls, 2, 1));
    assert!(!cell_occupied(&controls, 3, 1));
    assert!(cell_occupied(&controls, 4, 2));
    assert!(!cell_occupied(&controls, 4, 3));
    assert!(!cell_occupied(&controls, 0, 0));
    assert!(!cell_occupied(&[], 0, 0));
}

#[test]
fn occupied_cells_near_the_grid_edge() {
    let controls = vec![hw("edge", 250, 250, 10, 10)];
    assert!(cell_occupied(&controls, 255, 255));
    assert!(!cell_occupied(&controls, 249, 255));
}

#[test]
fn shown_label_prefers_layer_label() {
    let control = hw("hw0", 0, 0, 1, 1);
    let mut software = SoftwareDef::new();
    software.label = "Vol".into();
    let layer = LayerDef {
        name: "A".into(),
        bank_offset: 0,
        icons: vec![LayerIcon {
            hardware: "hw0".into(),
            software,
        }],
    };
    assert_eq!(shown_label(Some(&layer), &control), "Vol");
    assert_eq!(shown_label(None, &control), "hw0");

    let empty = LayerDef {
        name: "B".into(),
        bank_offset: 0,
        icons: vec![LayerIcon {
            hardware: "hw0".into(),
            software: SoftwareDef::new(),
        }],
    };
    assert_eq!(shown_label(Some(&empty), &control), "hw0");
}

#[test]
fn pw_options_filter_and_custom_entry() {
    let objects = vec![
        obj(30, PwObjectType::Sink, "alsa_output.hdmi", "HDMI"),
        obj(31, PwObjectType::Source, "alsa_input.mic", "Mic"),
        obj(40, PwObjectType::Stream, "firefox", "Firefox (firefox)"),
    ];
    let opts = pw_options(&objects, PwObjectType::SinkOrSource, "");
    let shown: Vec<(&str, &str)> = opts.iter().map(|o| (o.label.as_str(), o.id.as_str())).collect();
    assert_eq!(
        shown,
        vec![("HDMI (30)", "alsa_output.hdmi"), ("Mic (31)", "alsa_input.mic")]
    );

    let opts = pw_options(&objects, PwObjectType::StreamOrSource, "alsa_input.mic");
    assert_eq!(opts.len(), 2);
    assert_eq!(opts[0].id, "alsa_input.mic");
    assert_eq!(opts[1].label, "Firefox (firefox) (40)");

    let opts = pw_options(&objects, PwObjectType::Sink, "gone_sink");
    assert_eq!(opts.len(), 2);
    assert_eq!(opts[1].label, "[custom] gone_sink");
    assert_eq!(opts[1].id, "gone_sink");
}

#[test]
fn free_labels_skip_those_used_elsewhere() {
    let control = hw("hw0", 0, 0, 1, 1);
    let signals = vec![
        SignalEntry {
            input: "press".into(),
            actions: vec![Action::NoOp],
        },
        SignalEntry {
            input: String::new(),
            actions: vec![],
        },
    ];
    assert_eq!(free_input_labels(&control, &signals, 1), vec!["turn".to_string()]);
    assert_eq!(
        free_input_labels(&control, &signals, 0),
        vec!["press".to_string(), "turn".to_string()]
    );

    let feedback = vec![FeedbackEntry {
        output: "strip".into(),
        source: Source::Bank,
        line2_source: None,
    }];
    assert_eq!(free_output_labels(&control, &feedback, 5), vec!["led".to_string()]);
    assert_eq!(
        free_output_labels(&control, &feedback, 0),
        vec!["led".to_string(), "strip".to_string()]
    );
}

#[test]
fn output_kind_by_label() {
    let control = hw("hw0", 0, 0, 1, 1);
    assert_eq!(output_kind(&control, "strip"), Some(OutputKind::Scribble));
    assert_eq!(output_kind(&control, "led"), Some(OutputKind::Led));
    assert_eq!(output_kind(&control, "nope"), None);
}

#[test]
fn comparison_operands_are_leaf_kinds() {
    assert_eq!(
        leaf_source_type_names(),
        vec!["Direct", "HardwareInput", "Volume", "Muted", "RouteActive", "LayerActive", "Bank", "Custom"]
    );
}

#[test]
fn dialog_search_ignores_case() {
    let ports = ["Launchpad X:Launchpad X MIDI 1", "nanoKONTROL2:nanoKONTROL2 _ CTRL", "Other"]
        .iter()
        .map(|n| PortInfo { name: n.to_string() })
        .collect();
    let mut dialog = AddDeviceDialog::new(ports);
    assert_eq!(dialog.listed_ports(), vec![0, 1, 2]);
    dialog.search = "LAUNCH".into();
    assert_eq!(dialog.listed_ports(), vec![0]);
    dialog.search = "kontrol".into();
    assert_eq!(dialog.listed_ports(), vec![1]);
    dialog.search = "zzz".into();
    assert!(dialog.listed_ports().is_empty());
}

#[test]
fn route_fields_resolve_device() {
    let r = route_from_fields(Some(0), 1, Some(4), &[4, 5, 6]).expect("route");
    assert_eq!((r.index, r.direction, r.device), (0, 1, 4));
    assert_eq!(r.devices, vec![4, 5, 6]);

    let r = route_from_fields(Some(2), 0, None, &[-1, 7, 8]).expect("device from list");
    assert_eq!(r.device, 7);
    assert_eq!(r.devices, vec![7, 8]);

    assert!(route_from_fields(None, 0, Some(3), &[3]).is_none());
    assert!(route_from_fields(Some(-1), 0, Some(3), &[3]).is_none());
    assert!(route_from_fields(Some(1), 0, None, &[]).is_none());
    assert!(route_from_fields(Some(1), 0, Some(-2), &[-3]).is_none());
}
