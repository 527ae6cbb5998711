use vstd::prelude::*;
use crate::actions::{EncoderMode, Real, VolumeMode};
use crate::assoc::{assoc_get, assoc_insert, assoc_lookup, assoc_remove};
use crate::config::{lemma_name_index, lemma_name_index_unique, Config, ControlRef, DeviceConfig, LayerDef};
use crate::edit::{find_layer, layer_index};
use crate::pipewire::{PwCommand, PwObject};
use crate::text::str_eq;
use crate::ui::AddDeviceDialog;

verus! {

/// The hardware input that MIDI learn fills in with the next message received:
/// the device being edited, the control's id and the input's position.
#[derive(Debug)]
pub struct LearnTarget {
    pub device: String,
    pub hardware: String,
    pub input: usize,
}

/// Work that the session leaves to the application around it, in the order
/// the application must perform it.
#[derive(Debug)]
pub enum Effect {
    /// The configuration was edited: restart the delay before it is saved.
    MarkDirty,
    /// Save the configuration now; on success call `Session::saved`.
    SaveConfig,
    /// Evaluate feedback for every device (`Session::feedback_jobs`).
    EvaluateFeedback,
    /// Evaluate feedback for one device only.
    EvaluateFeedbackFor(String),
    /// Evaluate faceplate visuals (`Session::visual_jobs`) and drop the values
    /// of controls that have none.
    EvaluateVisuals,
    /// Close the device's output and drop what was cached for it.
    ForgetDevice(String),
    /// Drop what was cached for one control of a device.
    ForgetControl { device: String, hardware: String },
    /// Drop the last feedback sent to one output.
    ForgetFeedback(ControlRef),
    /// Open the MIDI input and output of a newly added device.
    ConnectDevice(String),
    /// Set a volume from a raw MIDI value, as the action's parameters say.
    SetVolume {
        target: String,
        min: Real,
        max: Real,
        mode: VolumeMode,
        encoder: EncoderMode,
        step: Real,
        raw: u8,
    },
    /// Send a command to PipeWire.
    Pw(PwCommand),
    /// Run a shell command line.
    RunShell(String),
    /// Send a note on to a device's output.
    SendNote { device: String, channel: u8, note: u8, velocity: u8 },
    /// Send a control change to a device's output.
    SendCc { device: String, channel: u8, controller: u8, value: u8 },
}

/// Everything the application decides on: the configuration being edited,
/// what the user has selected, the active layer of each device, and what has
/// been seen of the MIDI devices and of PipeWire.
#[derive(Debug)]
pub struct Session {
    pub config: Config,
    /// The selected device, by name.
    pub selected_device_name: Option<String>,
    /// The layer the editor shows for the selected device.
    pub selected_layer: Option<String>,
    /// The active layer of each device, by device name.
    pub active_layers: Vec<(String, String)>,
    pub show_add_dialog: bool,
    pub add_dialog_state: AddDeviceDialog,
    pub new_layer_name: String,
    /// Position of the control being edited in the selected device.
    pub editing_icon_idx: Option<usize>,
    pub learn_target: Option<LearnTarget>,
    /// Port names of the devices whose input is connected.
    pub connected_devices: Vec<String>,
    pub pw_objects: Vec<PwObject>,
    pub pw_edges: Vec<(String, String)>,
    pub pw_connected: bool,
    pub status_message: String,
    /// Recent MIDI traffic, oldest first.
    pub midi_monitor: Vec<String>,
    /// The last raw value received on each hardware input.
    pub last_input_value: Vec<(ControlRef, u8)>,
    /// Whether the configuration has edits not yet saved.
    pub dirty: bool,
}

/// Most lines the MIDI monitor keeps.
pub const MONITOR_LINES: usize = 50;

/// Position of the active layer among `layers`: the layer named `active` when
/// there is one, else the first.
pub open spec fn active_index(layers: Seq<LayerDef>, active: Option<String>) -> int {
    match active {
        Some(n) => if layer_index(layers, n@) < layers.len() {
            layer_index(layers, n@)
        } else {
            0
        },
        None => 0,
    }
}

/// The active layer a device starts with: its first layer.
pub open spec fn initial_active(config: Config, name: Seq<char>) -> Option<String> {
    match config.lookup(name) {
        Some(d) => if d.layers@.len() > 0 {
            Some(d.layers@[0].name)
        } else {
            None
        },
        None => None,
    }
}

/// A save, when `editing` says the icon editor was open.
pub open spec fn save_if(editing: bool) -> Seq<Effect> {
    if editing {
        seq![Effect::SaveConfig]
    } else {
        Seq::empty()
    }
}

impl Session {
    pub open spec fn wf(self) -> bool {
        self.config.wf()
    }

    /// Position of the selected device in the configuration, if it exists.
    pub open spec fn selected_index(self) -> Option<int> {
        match self.selected_device_name {
            Some(n) => if self.config.index_of(n@) < self.config.devs().len() {
                Some(self.config.index_of(n@))
            } else {
                None
            },
            None => None,
        }
    }

    /// The name of the active layer recorded for device `dev`.
    pub open spec fn active_name(self, dev: Seq<char>) -> Option<String> {
        assoc_get(self.active_layers@, dev)
    }

    /// Position of the active layer of device `d` named `dev`, when it has layers.
    pub open spec fn active_layer_index(self, d: DeviceConfig, dev: Seq<char>) -> Option<int> {
        if d.layers@.len() > 0 {
            Some(active_index(d.layers@, self.active_name(dev)))
        } else {
            None
        }
    }

    /// `a` and `b` agree on the dialog, the monitor and the status line.
    pub open spec fn same_view(a: Session, b: Session) -> bool {
        &&& a.show_add_dialog == b.show_add_dialog
        &&& a.add_dialog_state == b.add_dialog_state
        &&& a.new_layer_name == b.new_layer_name
        &&& a.status_message == b.status_message
        &&& a.midi_monitor == b.midi_monitor
    }

    /// `a` and `b` agree on what was seen of the devices and of PipeWire.
    pub open spec fn same_runtime(a: Session, b: Session) -> bool {
        &&& a.connected_devices == b.connected_devices
        &&& a.pw_objects == b.pw_objects
        &&& a.pw_edges == b.pw_edges
        &&& a.pw_connected == b.pw_connected
        &&& a.last_input_value == b.last_input_value
    }

    /// `a` and `b` agree on selection, active layers, editing and learning.
    pub open spec fn same_nav(a: Session, b: Session) -> bool {
        &&& a.selected_device_name == b.selected_device_name
        &&& a.selected_layer == b.selected_layer
        &&& a.active_layers == b.active_layers
        &&& a.editing_icon_idx == b.editing_icon_idx
        &&& a.learn_target == b.learn_target
    }

    /// A session over `config` with nothing selected, each device on its first layer.
    pub fn new(config: Config) -> (s: Session)
        requires
            config.wf(),
        ensures
            s.wf(),
            s.config == config,
            s.selected_device_name is None,
            s.selected_layer is None,
            forall|q: Seq<char>| #[trigger] s.active_name(q) == initial_active(config, q),
            !s.show_add_dialog,
            s.add_dialog_state.search@ == Seq::<char>::empty(),
            s.add_dialog_state.selected_port is None,
            s.add_dialog_state.available_ports@.len() == 0,
            s.new_layer_name@ == Seq::<char>::empty(),
            s.editing_icon_idx is None,
            s.learn_target is None,
            s.connected_devices@.len() == 0,
            s.pw_objects@.len() == 0,
            s.pw_edges@.len() == 0,
            !s.pw_connected,
            s.status_message@ == seq!['S', 't', 'a', 'r', 't', 'i', 'n', 'g', '.', '.', '.'],
            s.midi_monitor@.len() == 0,
            s.last_input_value@.len() == 0,
            !s.dirty,
    {
        let mut active: Vec<(String, String)> = Vec::new();
        let names = config.device_names();
        let n = names.len();
        let mut i: usize = 0;
        proof {
            assert forall|q: Seq<char>|
                #[trigger] assoc_get(active@, q) == (if config.index_of(q) < 0 {
                    initial_active(config, q)
                } else {
                    None
                }) by {
                lemma_name_index(config.names(), q);
            }
        }
        while i < n
            invariant
                config.wf(),
                names@ == config.names(),
                n == names@.len(),
                i <= n,
                forall|q: Seq<char>|
                    #[trigger] assoc_get(active@, q) == (if config.index_of(q) < i {
                        initial_active(config, q)
                    } else {
                        None
                    }),
            decreases n - i,
        {
            let ghost k = names@[i as int]@;
            proof {
                assert forall|j: int| 0 <= j < i implies #[trigger] config.names()[j]@ != k by {
                    assert(crate::config::distinct_names(config.names()));
                }
                lemma_name_index_unique(config.names(), k, i as int);
            }
            let d = config.device(i).unwrap();
            if d.layers.len() > 0 {
                let first = d.layers[0].name.clone();
                assoc_insert(&mut active, names[i].clone(), first);
            }
            proof {
                assert forall|q: Seq<char>|
                    #[trigger] assoc_get(active@, q) == (if config.index_of(q) < i + 1 {
                        initial_active(config, q)
                    } else {
                        None
                    }) by {
                    lemma_name_index(config.names(), q);
                }
            }
            i = i + 1;
        }
        let starting = "Starting...";
        proof {
            reveal_strlit("Starting...");
            assert(starting@ =~= seq!['S', 't', 'a', 'r', 't', 'i', 'n', 'g', '.', '.', '.']);
            assert forall|q: Seq<char>| #[trigger] assoc_get(active@, q) == initial_active(config, q) by {
                lemma_name_index(config.names(), q);
            }
        }
        Session {
            config,
            selected_device_name: None,
            selected_layer: None,
            active_layers: active,
            show_add_dialog: false,
            add_dialog_state: AddDeviceDialog::new(Vec::new()),
            new_layer_name: String::new(),
            editing_icon_idx: None,
            learn_target: None,
            connected_devices: Vec::new(),
            pw_objects: Vec::new(),
            pw_edges: Vec::new(),
            pw_connected: false,
            status_message: starting.to_owned(),
            midi_monitor: Vec::new(),
            last_input_value: Vec::new(),
            dirty: false,
        }
    }

    /// Position of the selected device, if it exists.
    pub fn selected_device_index(&self) -> (r: Option<usize>)
        requires
            self.wf(),
        ensures
            match r {
                Some(u) => self.selected_index() == Some(u as int),
                None => self.selected_index() is None,
            },
    {
        match &self.selected_device_name {
            Some(n) => self.config.index_of_device(n.as_str()),
            None => None,
        }
    }

    /// Position of the active layer of `d`, the device named `dev`.
    pub fn find_active_layer(&self, d: &DeviceConfig, dev: &str) -> (r: Option<usize>)
        ensures
            match r {
                Some(u) => self.active_layer_index(*d, dev@) == Some(u as int) && u < d.layers@.len(),
                None => self.active_layer_index(*d, dev@) is None,
            },
    {
        match assoc_lookup(&self.active_layers, dev) {
            Some(name) => {
                let li = find_layer(&d.layers, name.as_str());
                if li < d.layers.len() {
                    return Some(li);
                }
            },
            None => {},
        }
        if d.layers.len() > 0 {
            Some(0)
        } else {
            None
        }
    }

    /// Records an edit of the configuration.
    pub fn mark_dirty(&mut self, fx: &mut Vec<Effect>)
        ensures
            *final(self) == (Session { dirty: true, ..*old(self) }),
            final(fx)@ == old(fx)@.push(Effect::MarkDirty),
    {
        self.dirty = true;
        fx.push(Effect::MarkDirty);
    }

    /// Records that the configuration was saved.
    pub fn saved(&mut self)
        ensures
            *final(self) == (Session { dirty: false, ..*old(self) }),
    {
        self.dirty = false;
    }

    /// Leaves the icon editor and MIDI learn; leaving the editor saves.
    pub fn clear_editing(&mut self, fx: &mut Vec<Effect>)
        ensures
            *final(self) == (Session { editing_icon_idx: None, learn_target: None, ..*old(self) }),
            final(fx)@ == old(fx)@ + save_if(old(self).editing_icon_idx is Some),
    {
        if self.editing_icon_idx.is_some() {
            fx.push(Effect::SaveConfig);
        } else {
            proof {
                assert(fx@ =~= old(fx)@ + Seq::<Effect>::empty());
            }
        }
        self.editing_icon_idx = None;
        self.learn_target = None;
    }
}

/// Whether the recorded input value `e` belongs to control `hw` of device
/// `dev` (and to its input `label`, when one is given).
pub open spec fn input_key_matches(e: (ControlRef, u8), dev: Seq<char>, hw: Seq<char>, label: Option<Seq<char>>) -> bool {
    &&& e.0.device@ == dev
    &&& e.0.hardware@ == hw
    &&& match label {
        Some(l) => e.0.label@ == l,
        None => true,
    }
}

/// The text of `label`, if any.
pub open spec fn opt_view(label: Option<&str>) -> Option<Seq<char>> {
    match label {
        Some(l) => Some(l@),
        None => None,
    }
}

/// Drops the recorded input values of control `hw` of device `dev` (only
/// those of input `label`, when one is given), keeping the order of the rest.
pub fn forget_inputs(m: &mut Vec<(ControlRef, u8)>, dev: &str, hw: &str, label: Option<&str>)
    ensures
        final(m)@ == old(m)@.filter(|e: (ControlRef, u8)| !input_key_matches(e, dev@, hw@, opt_view(label))),
{
    let ghost lv = opt_view(label);
    let ghost pred = |e: (ControlRef, u8)| !input_key_matches(e, dev@, hw@, lv);
    let mut kept: Vec<(ControlRef, u8)> = Vec::new();
    let mut rest: Vec<(ControlRef, u8)> = Vec::new();
    core::mem::swap(&mut rest, m);
    let ghost all = rest@;
    let n = rest.len();
    let mut i: usize = 0;
    while i < n
        invariant
            n == all.len(),
            i <= n,
            rest@ == all.subrange(i as int, n as int),
            kept@ == all.take(i as int).filter(pred),
            pred == (|e: (ControlRef, u8)| !input_key_matches(e, dev@, hw@, lv)),
            lv == opt_view(label),
        decreases n - i,
    {
        let e = rest.remove(0);
        proof {
            assert(e == all[i as int]);
            assert(rest@ =~= all.subrange(i + 1, n as int));
            reveal(Seq::filter);
            assert(all.take(i + 1).drop_last() =~= all.take(i as int));
            assert(all.take(i + 1).last() == e);
        }
        let hit = str_eq(e.0.device.as_str(), dev) && str_eq(e.0.hardware.as_str(), hw) && match label {
            Some(l) => str_eq(e.0.label.as_str(), l),
            None => true,
        };
        if !hit {
            kept.push(e);
        }
        i = i + 1;
    }
    proof {
        assert(all.take(n as int) =~= all);
    }
    *m = kept;
}

/// Removes every occurrence of `name` from `names`, keeping the order of the rest.
pub fn remove_name(names: &mut Vec<String>, name: &str)
    ensures
        final(names)@ == old(names)@.filter(|x: String| x@ != name@),
        forall|p: Seq<char>|
            #[trigger] crate::ids::names_contain(final(names)@, p) == (crate::ids::names_contain(old(names)@, p) && p
                != name@),
{
    let ghost pred = |x: String| x@ != name@;
    let mut kept: Vec<String> = Vec::new();
    let mut rest: Vec<String> = Vec::new();
    core::mem::swap(&mut rest, names);
    let ghost all = rest@;
    let n = rest.len();
    let mut i: usize = 0;
    while i < n
        invariant
            n == all.len(),
            i <= n,
            rest@ == all.subrange(i as int, n as int),
            kept@ == all.take(i as int).filter(pred),
            pred == (|x: String| x@ != name@),
            forall|p: Seq<char>|
                #[trigger] crate::ids::names_contain(kept@, p) == (crate::ids::names_contain(all.take(i as int), p) && p
                    != name@),
        decreases n - i,
    {
        let e = rest.remove(0);
        let ghost k0 = kept@;
        proof {
            assert(e == all[i as int]);
            assert(rest@ =~= all.subrange(i + 1, n as int));
            reveal(Seq::filter);
            assert(all.take(i + 1).drop_last() =~= all.take(i as int));
            assert(all.take(i + 1).last() == e);
        }
        let keep = !str_eq(e.as_str(), name);
        if keep {
            kept.push(e);
        }
        proof {
            let t = all.take(i + 1);
            assert forall|p: Seq<char>|
                #[trigger] crate::ids::names_contain(kept@, p) == (crate::ids::names_contain(t, p) && p != name@) by {
                if crate::ids::names_contain(t, p) && p != name@ {
                    let j = choose|j: int| 0 <= j < t.len() && #[trigger] t[j]@ == p;
                    if j < i {
                        assert(all.take(i as int)[j]@ == p);
                        assert(crate::ids::names_contain(all.take(i as int), p));
                        assert(crate::ids::names_contain(k0, p));
                        let k = choose|k: int| 0 <= k < k0.len() && #[trigger] k0[k]@ == p;
                        assert(kept@[k]@ == p);
                    } else {
                        assert(kept@[kept@.len() - 1]@ == p);
                    }
                }
                if crate::ids::names_contain(kept@, p) {
                    let k = choose|k: int| 0 <= k < kept@.len() && #[trigger] kept@[k]@ == p;
                    if k < k0.len() {
                        assert(k0[k]@ == p);
                        assert(crate::ids::names_contain(k0, p));
                        assert(crate::ids::names_contain(all.take(i as int), p));
                        let j = choose|j: int| 0 <= j < i && #[trigger] all.take(i as int)[j]@ == p;
                        assert(t[j]@ == p);
                    } else {
                        assert(t[i as int]@ == p);
                    }
                }
            }
        }
        i = i + 1;
    }
    proof {
        assert(all.take(n as int) =~= all);
    }
    *names = kept;
}

/// Adds `name` to `names` unless it is there already.
pub fn add_name(names: &mut Vec<String>, name: String)
    ensures
        if crate::ids::names_contain(old(names)@, name@) {
            final(names)@ == old(names)@
        } else {
            final(names)@ == old(names)@.push(name)
        },
{
    let mut i: usize = 0;
    while i < names.len()
        invariant
            i <= names@.len(),
            names@ == old(names)@,
            forall|j: int| 0 <= j < i ==> #[trigger] names@[j]@ != name@,
        decreases names@.len() - i,
    {
        if str_eq(names[i].as_str(), name.as_str()) {
            assert(names@[i as int]@ == name@);
            return;
        }
        i = i + 1;
    }
    names.push(name);
}

} // verus!
