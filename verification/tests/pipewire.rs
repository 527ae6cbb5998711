use midi_does::actions::Real;
use midi_does::pipewire::{
    apply_prop_update, compute_edges, covering_route, first_non_empty, links_between, node_label, node_route_info,
    object_type_for, plan_links, resolve_node_id, upsert_object, upsert_route, PortDirection, PortEntry, PwObject,
    PwObjectType, RouteInfo,
};

fn obj(id: u32, name: &str, volume: Option<f64>) -> PwObject {
    PwObject {
        id,
        object_type: PwObjectType::Sink,
        name: name.into(),
        description: name.into(),
        volume: volume.map(|v| Real { bits: v.to_bits() }),
        muted: false,
    }
}

#[test]
fn test_resolve_node_id() {
    let objects = vec![obj(1, "alsa_output.hdmi", Some(0.5)), obj(2, "alsa_input.usb", Some(0.8))];
    assert_eq!(resolve_node_id(&objects, "1"), Some(1));
    assert_eq!(resolve_node_id(&objects, "alsa_output.hdmi"), Some(1));
    assert_eq!(resolve_node_id(&objects, "hdmi"), Some(1));
    assert_eq!(resolve_node_id(&objects, "missing"), None);
}

#[test]
fn test_resolve_node_id_prefers_exact_over_substring() {
    let objects = vec![obj(1, "output.media-sink_alsa_output.hdmi", Some(0.5)), obj(2, "alsa_output.hdmi", Some(0.5))];
    assert_eq!(resolve_node_id(&objects, "alsa_output.hdmi"), Some(2));
    assert_eq!(resolve_node_id(&objects, "output.media-sink_alsa_output.hdmi"), Some(1));
}

#[test]
fn test_object_type_for() {
    assert_eq!(object_type_for("Audio/Sink"), Some(PwObjectType::Sink));
    assert_eq!(object_type_for("Audio/Source"), Some(PwObjectType::Source));
    assert_eq!(object_type_for("Stream/Input/Audio"), Some(PwObjectType::Stream));
    assert_eq!(object_type_for("Video/Source"), None);
    assert_eq!(object_type_for(""), None);
}

#[test]
fn test_compute_edges() {
    let objects = vec![obj(1, "sink", Some(0.5)), obj(2, "stream", Some(0.8))];
    let links = vec![(2u32, 1u32)];
    assert_eq!(compute_edges(&objects, &links), vec![("stream".to_string(), "sink".to_string())]);
}

#[test]
fn test_node_route_info_matches_profile_device() {
    let node_routes = vec![(165u32, (73u32, 4u32))];
    let routes = vec![(
        73u32,
        vec![
            RouteInfo {
                index: 0,
                direction: 1,
                device: 4,
                devices: vec![4, 5, 6],
            },
            RouteInfo {
                index: 1,
                direction: 1,
                device: 7,
                devices: vec![7, 8, 9],
            },
        ],
    )];
    let (device_id, route) = node_route_info(&node_routes, &routes, 165).expect("route resolved");
    assert_eq!(device_id, 73);
    assert_eq!(route.index, 0);
    assert!(node_route_info(&node_routes, &routes, 999).is_none());
}

fn port(id: u32, node: u32, direction: PortDirection, channel: &str) -> PortEntry {
    PortEntry {
        id,
        node,
        direction,
        channel: channel.into(),
    }
}

#[test]
fn links_pair_channels_and_fall_back_to_first_input() {
    let ports = vec![
        port(1, 10, PortDirection::Output, "FL"),
        port(2, 10, PortDirection::Output, "FR"),
        port(3, 10, PortDirection::Output, "LFE"),
        port(4, 20, PortDirection::Input, "FR"),
        port(5, 20, PortDirection::Input, "FL"),
        port(6, 30, PortDirection::Input, "FL"),
    ];
    assert_eq!(plan_links(&ports, 10, 20), vec![(1, 5), (2, 4), (3, 4)]);
    // A sink without input ports gets no links.
    assert!(plan_links(&ports, 10, 40).is_empty());
    // Only the stream's output ports are linked.
    assert!(plan_links(&ports, 20, 30).is_empty());
}

#[test]
fn links_between_nodes_are_found_by_their_ends() {
    let links = vec![(100, (10, 20)), (101, (10, 30)), (102, (10, 20)), (103, (20, 10))];
    assert_eq!(links_between(&links, 10, 20), vec![100, 102]);
    assert!(links_between(&links, 30, 10).is_empty());
}

#[test]
fn registry_nodes_are_recorded_once_and_props_update_them() {
    let mut objects = Vec::new();
    upsert_object(&mut objects, 7, PwObjectType::Sink, "sink".into(), "Sink".into());
    upsert_object(&mut objects, 8, PwObjectType::Stream, "app".into(), "App (app)".into());
    upsert_object(&mut objects, 7, PwObjectType::Sink, "sink2".into(), "Sink 2".into());
    assert_eq!(objects.len(), 2);
    assert_eq!(objects[0].name, "sink2");
    assert_eq!(objects[0].volume, None);
    assert!(!objects[0].muted);

    apply_prop_update(&mut objects, 7, None, Some(true));
    assert!(objects[0].muted);
    assert_eq!(objects[0].volume, None);
    apply_prop_update(&mut objects, 7, Some(Real { bits: 0.5f64.to_bits() }), None);
    assert_eq!(objects[0].volume, Some(Real { bits: 0.5f64.to_bits() }));
    assert!(objects[0].muted);
    // An unknown node is ignored.
    apply_prop_update(&mut objects, 99, None, Some(true));
    assert!(!objects[1].muted);
}

#[test]
fn routes_are_replaced_by_index() {
    let route = |index: u32, device: u32| RouteInfo {
        index,
        direction: 1,
        device,
        devices: vec![device],
    };
    let mut routes = Vec::new();
    upsert_route(&mut routes, route(0, 4));
    upsert_route(&mut routes, route(1, 7));
    upsert_route(&mut routes, route(0, 5));
    assert_eq!(routes.len(), 2);
    assert_eq!(routes[0].device, 5);
    assert_eq!(routes[1].device, 7);
    assert_eq!(covering_route(&routes, 7), Some(1));
    assert_eq!(covering_route(&routes, 4), None);
}

#[test]
fn node_labels_and_app_names() {
    assert_eq!(node_label(PwObjectType::Stream, "firefox", Some("Firefox"), None), "Firefox (firefox)");
    assert_eq!(node_label(PwObjectType::Stream, "firefox", None, Some("ignored")), "firefox");
    assert_eq!(node_label(PwObjectType::Sink, "alsa_output", None, Some("Speakers")), "Speakers");
    assert_eq!(node_label(PwObjectType::Source, "alsa_input", None, None), "alsa_input");

    let values = vec![None, Some(String::new()), Some("mpv".to_string()), Some("later".to_string())];
    assert_eq!(first_non_empty(&values), Some("mpv".to_string()));
    assert_eq!(first_non_empty(&[None, Some(String::new())]), None);
}
