use midi_does::config::{DeviceConfig, HardwareDef, HardwareInput, HardwareOutput, IconType, InputKind, LayerDef, OutputKind};
use midi_does::ids::{next_free_id, next_hardware_id, next_input_label, next_output_label, take_at, valid_layer_rename};

fn button(id: &str) -> HardwareDef {
    HardwareDef {
        id: id.into(),
        hw_type: IconType::Button,
        col: 0,
        row: 0,
        col_span: 1,
        row_span: 1,
        inputs: Vec::new(),
        outputs: Vec::new(),
    }
}

#[test]
fn test_next_hardware_id() {
    let device = DeviceConfig {
        port_name: "test".into(),
        grid_columns: 8,
        grid_rows: 4,
        hardware: vec![button("hw0"), button("hw2")],
        layers: Vec::new(),
    };
    assert_eq!(next_hardware_id(&device), "hw1");

    let empty = DeviceConfig {
        port_name: "test".into(),
        grid_columns: 8,
        grid_rows: 4,
        hardware: Vec::new(),
        layers: Vec::new(),
    };
    assert_eq!(next_hardware_id(&empty), "hw0");
}

#[test]
fn test_next_input_output_label() {
    let mut hw = button("hw0");
    hw.inputs = vec![
        HardwareInput {
            label: "in0".into(),
            kind: InputKind::Cc,
            channel: 0,
            number: 0,
        },
        HardwareInput {
            label: "volume".into(),
            kind: InputKind::Cc,
            channel: 0,
            number: 1,
        },
    ];
    hw.outputs = vec![HardwareOutput {
        label: "out0".into(),
        kind: OutputKind::Led,
        channel: 0,
        number: 0,
    }];
    assert_eq!(next_input_label(&hw), "in1");
    assert_eq!(next_output_label(&hw), "out1");
}

#[test]
fn test_valid_layer_rename() {
    let layers = vec![
        LayerDef {
            name: "A".into(),
            bank_offset: 0,
            icons: Vec::new(),
        },
        LayerDef {
            name: "B".into(),
            bank_offset: 0,
            icons: Vec::new(),
        },
    ];
    assert!(valid_layer_rename(&layers, "A", "C"));
    assert!(valid_layer_rename(&layers, "A", "A"));
    assert!(!valid_layer_rename(&layers, "A", "B"));
    assert!(!valid_layer_rename(&layers, "A", ""));
    assert!(!valid_layer_rename(&layers, "A", "  "));
}

#[test]
fn next_free_id_skips_taken_numbers() {
    let taken = vec!["x0".to_string(), "x1".to_string(), "x3".to_string()];
    assert_eq!(next_free_id("x", &taken), "x2");
    assert_eq!(next_free_id("y", &taken), "y0");
    let many: Vec<String> = (0..12).map(|i| format!("in{i}")).collect();
    assert_eq!(next_free_id("in", &many), "in12");
}

#[test]
fn take_at_in_and_out_of_range() {
    let mut v = vec![1, 2, 3];
    assert_eq!(take_at(&mut v, 1), Some(2));
    assert_eq!(v, vec![1, 3]);
    assert_eq!(take_at(&mut v, 5), None);
    assert_eq!(v, vec![1, 3]);
}
