use midi_does::config::{Config, DeviceConfig};
use midi_does::source::{CmpOp, Comparison, Source, SourceBranch};

fn device(port: &str, cols: u8) -> DeviceConfig {
    DeviceConfig {
        port_name: port.into(),
        grid_columns: cols,
        grid_rows: 4,
        hardware: Vec::new(),
        layers: midi_does::config::default_layers(),
    }
}

#[test]
fn source_replace_at_path() {
    let mut src = Source::If {
        condition: Comparison {
            left: Box::new(Source::Direct { value: "true".into() }),
            op: CmpOp::Eq,
            right: Box::new(Source::Direct { value: "true".into() }),
        },
        then_source: Box::new(Source::Direct { value: "true".into() }),
        else_source: Box::new(Source::Direct { value: "false".into() }),
    };
    src.replace_at(&[SourceBranch::IfThen], Source::Muted { target: "sink1".into() });
    assert!(matches!(
        src,
        Source::If {
            then_source,
            ..
        } if matches!(*then_source, Source::Muted { .. })
    ));
}

#[test]
fn normalize_rebuilds_device_order() {
    let config = Config::from_parts(vec![("A".to_string(), device("port-a", 8))], vec!["stale".to_string()]);
    assert_eq!(config.device_names(), &["port-a"]);

    let config2 = Config::from_parts(vec![("B".to_string(), device("port-b", 8))], Vec::new());
    assert_eq!(config2.device_names(), &["port-b"]);
}

#[test]
fn normalize_strips_client_port_suffix() {
    let key = "X-TOUCH MINI:X-TOUCH MINI MIDI 1 16:0".to_string();
    let config = Config::from_parts(vec![(key.clone(), device(&key, 10))], vec![key]);
    assert_eq!(config.device_names(), &["X-TOUCH MINI:X-TOUCH MINI MIDI 1"]);
    let device = config.device_by_name("X-TOUCH MINI:X-TOUCH MINI MIDI 1").unwrap();
    assert_eq!(device.port_name, "X-TOUCH MINI:X-TOUCH MINI MIDI 1");
    assert_eq!(device.grid_columns, 10);
}

#[test]
fn normalize_orders_unlisted_devices_by_port() {
    let config = Config::from_parts(
        vec![
            ("z".to_string(), device("zeta", 1)),
            ("a".to_string(), device("alpha", 2)),
            ("m".to_string(), device("mid", 3)),
        ],
        vec!["m".to_string(), "m".to_string()],
    );
    assert_eq!(config.device_names(), &["mid", "alpha", "zeta"]);
}

#[test]
fn normalize_keeps_last_device_of_an_identity() {
    let config = Config::from_parts(
        vec![
            ("a".to_string(), device("Pad 16:0", 1)),
            ("b".to_string(), device("Pad 20:0", 2)),
        ],
        vec!["a".to_string(), "b".to_string()],
    );
    assert_eq!(config.device_names(), &["Pad"]);
    assert_eq!(config.device_by_name("Pad").unwrap().grid_columns, 2);
}

#[test]
fn insert_then_lookup_and_remove() {
    let mut c = Config::new();
    c.insert_device("one".to_string(), device("one", 1));
    c.insert_device("two".to_string(), device("two", 2));
    c.insert_device("one".to_string(), device("one", 5));
    assert_eq!(c.device_names(), &["one", "two"]);
    assert_eq!(c.device_by_name("one").unwrap().grid_columns, 5);
    assert_eq!(c.device_count(), 2);
    c.remove_device("one");
    assert!(c.device_by_name("one").is_none());
    assert_eq!(c.device_by_name("two").unwrap().grid_columns, 2);
    assert_eq!(c.device_name(0), Some("two"));
    assert_eq!(c.device_name(1), None);
}

#[test]
fn default_layers_are_a_single_layer_a() {
    let layers = midi_does::config::default_layers();
    assert_eq!(layers.len(), 1);
    assert_eq!(layers[0].name, "A");
    assert_eq!(layers[0].bank_offset, 0);
}

#[test]
fn reloading_a_stored_configuration_gives_it_back() {
    let stored = Config::from_parts(
        vec![
            ("b".to_string(), device("Beta:Beta MIDI 1 24:0", 5)),
            ("a".to_string(), device("Alpha:Alpha MIDI 1", 7)),
        ],
        vec!["b".to_string()],
    );
    let names: Vec<String> = stored.device_names().to_vec();
    assert_eq!(names, vec!["Beta:Beta MIDI 1", "Alpha:Alpha MIDI 1"]);

    // The table as written: every device under its name, read back in another order.
    let mut entries = Vec::new();
    for i in (0..stored.device_count()).rev() {
        let d = stored.device(i).unwrap();
        entries.push((names[i].clone(), device(&d.port_name, d.grid_columns)));
    }
    let reloaded = Config::from_parts(entries, names.clone());
    assert_eq!(reloaded.device_names(), names.as_slice());
    for i in 0..stored.device_count() {
        let (a, b) = (stored.device(i).unwrap(), reloaded.device(i).unwrap());
        assert_eq!(a.port_name, b.port_name);
        assert_eq!(a.grid_columns, b.grid_columns);
        assert_eq!(a.grid_rows, b.grid_rows);
        assert_eq!(a.layers.len(), b.layers.len());
    }
}

#[test]
fn adding_then_removing_a_layer_restores_the_device() {
    let mut d = device("pad", 8);
    midi_does::device::add_layer(&mut d, "B".to_string());
    assert_eq!(d.layers.len(), 2);
    assert_eq!(d.layers[1].name, "B");
    midi_does::device::remove_layer(&mut d, "B");
    assert_eq!(d.layers.len(), 1);
    assert_eq!(d.layers[0].name, "A");
    // Adding a name that exists changes nothing.
    midi_does::device::add_layer(&mut d, "A".to_string());
    assert_eq!(d.layers.len(), 1);
}

#[test]
fn replacing_a_node_keeps_the_rest_of_the_tree() {
    let mut src = Source::If {
        condition: Comparison {
            left: Box::new(Source::Bank),
            op: CmpOp::Gt,
            right: Box::new(Source::Direct { value: "8".into() }),
        },
        then_source: Box::new(Source::Blink {
            a: Box::new(Source::Direct { value: "true".into() }),
            b: Box::new(Source::Direct { value: "false".into() }),
            interval_ms: 250,
        }),
        else_source: Box::new(Source::Muted { target: "sink".into() }),
    };
    src.replace_at(&[SourceBranch::IfThen, SourceBranch::BlinkB], Source::Bank);
    match src {
        Source::If { condition, then_source, else_source } => {
            assert!(matches!(*condition.left, Source::Bank));
            assert_eq!(condition.op, CmpOp::Gt);
            assert!(matches!(*else_source, Source::Muted { ref target } if target == "sink"));
            match *then_source {
                Source::Blink { a, b, interval_ms } => {
                    assert!(matches!(*a, Source::Direct { ref value } if value == "true"));
                    assert!(matches!(*b, Source::Bank));
                    assert_eq!(interval_ms, 250);
                }
                other => panic!("unexpected {other:?}"),
            }
        }
        other => panic!("unexpected {other:?}"),
    }
}
