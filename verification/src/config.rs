use vstd::prelude::*;
use crate::actions::Action;
use crate::source::Source;
use crate::text::str_eq;

verus! {

/// Identifies one input or output of one control of one device.
#[derive(Debug)]
pub struct ControlRef {
    pub device: String,
    pub hardware: String,
    pub label: String,
}

impl Clone for ControlRef {
    fn clone(&self) -> (r: Self)
        ensures
            r == *self,
    {
        ControlRef {
            device: self.device.clone(),
            hardware: self.hardware.clone(),
            label: self.label.clone(),
        }
    }
}

impl ControlRef {
    pub fn new(device: &str, hardware: &str, label: &str) -> (r: Self)
        ensures
            r.device@ == device@,
            r.hardware@ == hardware@,
            r.label@ == label@,
    {
        ControlRef { device: device.to_owned(), hardware: hardware.to_owned(), label: label.to_owned() }
    }

    /// Whether two references name the same control endpoint.
    pub fn same(&self, other: &ControlRef) -> (r: bool)
        ensures
            r == (self.device@ == other.device@ && self.hardware@ == other.hardware@ && self.label@
                == other.label@),
    {
        self.device == other.device && self.hardware == other.hardware && self.label == other.label
    }
}

/// Default number of grid columns of a new device.
pub fn default_grid_cols() -> (v: u8)
    ensures
        v == 8,
{
    8
}

/// Default number of grid rows of a new device.
pub fn default_grid_rows() -> (v: u8)
    ensures
        v == 4,
{
    4
}

/// Default column and row span of a control.
pub fn default_span() -> (v: u8)
    ensures
        v == 1,
{
    1
}

#[derive(Debug, Clone, Copy, PartialEq, Eq, Structural)]
pub enum InputKind {
    Cc,
    Note,
    PitchBend,
}

#[derive(Debug, Clone, Copy, PartialEq, Eq, Structural)]
pub enum OutputKind {
    Led,
    /// LED ring driven by MCU SysEx (channel = ring index 0-7).
    LedRing,
    /// LED ring driven by a standard MIDI CC (channel = MIDI channel,
    /// number = controller, value 0-127).
    LedRingCc,
    /// MCU scribble strip (channel = strip index 0-7).
    Scribble,
}

#[derive(Debug, Clone, Copy, PartialEq, Eq, Structural)]
pub enum IconType {
    Button,
    Knob,
    Fader,
    Encoder,
}

impl Default for IconType {
    fn default() -> (r: Self)
        ensures
            r == IconType::Button,
    {
        IconType::Button
    }
}

impl IconType {
    pub open spec fn spec_label(self) -> &'static str {
        match self {
            IconType::Button => "Button",
            IconType::Knob => "Knob",
            IconType::Fader => "Fader",
            IconType::Encoder => "Encoder",
        }
    }

    /// Text shown for this control type.
    pub fn label(&self) -> (s: &'static str)
        ensures
            s == self.spec_label(),
    {
        match self {
            IconType::Button => "Button",
            IconType::Knob => "Knob",
            IconType::Fader => "Fader",
            IconType::Encoder => "Encoder",
        }
    }
}

impl InputKind {
    pub open spec fn spec_label(self) -> &'static str {
        match self {
            InputKind::Cc => "CC",
            InputKind::Note => "Note",
            InputKind::PitchBend => "PBend",
        }
    }

    /// Text shown for this input kind.
    pub fn label(&self) -> (s: &'static str)
        ensures
            s == self.spec_label(),
    {
        match self {
            InputKind::Cc => "CC",
            InputKind::Note => "Note",
            InputKind::PitchBend => "PBend",
        }
    }
}

impl OutputKind {
    pub open spec fn spec_label(self) -> &'static str {
        match self {
            OutputKind::Led => "LED",
            OutputKind::LedRing => "LED Ring",
            OutputKind::LedRingCc => "LED Ring (CC)",
            OutputKind::Scribble => "Scribble",
        }
    }

    /// Text shown for this output kind.
    pub fn label(&self) -> (s: &'static str)
        ensures
            s == self.spec_label(),
    {
        match self {
            OutputKind::Led => "LED",
            OutputKind::LedRing => "LED Ring",
            OutputKind::LedRingCc => "LED Ring (CC)",
            OutputKind::Scribble => "Scribble",
        }
    }
}

/// A MIDI message a control sends when operated.
#[derive(Debug)]
pub struct HardwareInput {
    pub label: String,
    pub kind: InputKind,
    pub channel: u8,
    pub number: u8,
}

/// A MIDI message a control accepts to show state.
#[derive(Debug)]
pub struct HardwareOutput {
    pub label: String,
    pub kind: OutputKind,
    pub channel: u8,
    pub number: u8,
}

impl Clone for HardwareInput {
    fn clone(&self) -> (r: Self)
        ensures
            r == *self,
    {
        HardwareInput { label: self.label.clone(), kind: self.kind, channel: self.channel, number: self.number }
    }
}

impl Clone for HardwareOutput {
    fn clone(&self) -> (r: Self)
        ensures
            r == *self,
    {
        HardwareOutput { label: self.label.clone(), kind: self.kind, channel: self.channel, number: self.number }
    }
}

/// Physical element on a MIDI controller, with its grid placement. Shared
/// across all layers; layers only add per-layer software on top.
#[derive(Debug)]
pub struct HardwareDef {
    pub id: String,
    pub hw_type: IconType,
    pub col: u8,
    pub row: u8,
    pub col_span: u8,
    pub row_span: u8,
    pub inputs: Vec<HardwareInput>,
    pub outputs: Vec<HardwareOutput>,
}

/// Per-layer software: icon label, signal actions, feedback sources, and
/// visual feedback source. The label lives here so the same icon can show a
/// different name on each layer.
#[derive(Debug)]
pub struct SoftwareDef {
    pub label: String,
    pub signal_entries: Vec<SignalEntry>,
    pub feedback_entries: Vec<FeedbackEntry>,
    pub visual_source: Option<Source>,
}

/// Actions run when the named input fires.
#[derive(Debug)]
pub struct SignalEntry {
    pub input: String,
    pub actions: Vec<Action>,
}

/// A source mapped to an output. The output kind determines how the evaluated
/// source text is interpreted: boolean → LED, number → LED ring, text → scribble lines.
#[derive(Debug)]
pub struct FeedbackEntry {
    pub output: String,
    /// Source for LED/ring outputs; line 1 source for scribble outputs.
    pub source: Source,
    /// Line 2 source, only used by scribble outputs.
    pub line2_source: Option<Source>,
}

/// Per-layer software bound to a device-level icon (identified by hardware id).
#[derive(Debug)]
pub struct LayerIcon {
    pub hardware: String,
    pub software: SoftwareDef,
}

#[derive(Debug)]
pub struct LayerDef {
    pub name: String,
    pub bank_offset: u8,
    pub icons: Vec<LayerIcon>,
}

#[derive(Debug)]
pub struct DeviceConfig {
    pub port_name: String,
    pub grid_columns: u8,
    pub grid_rows: u8,
    /// Icon definitions (hardware element + grid placement + inputs/outputs),
    /// shared across all layers.
    pub hardware: Vec<HardwareDef>,
    pub layers: Vec<LayerDef>,
}

impl DeviceConfig {
    /// A device with no name, no grid, no hardware and no layers.
    pub fn blank() -> (d: Self)
        ensures
            d.port_name@ == Seq::<char>::empty(),
            d.grid_columns == 0,
            d.grid_rows == 0,
            d.hardware@.len() == 0,
            d.layers@.len() == 0,
    {
        DeviceConfig { port_name: String::new(), grid_columns: 0, grid_rows: 0, hardware: Vec::new(), layers: Vec::new() }
    }
}

impl SoftwareDef {
    /// Software with an empty label and no entries or visual source.
    pub fn new() -> (r: Self)
        ensures
            r.label@ == Seq::<char>::empty(),
            r.signal_entries@ == Seq::<SignalEntry>::empty(),
            r.feedback_entries@ == Seq::<FeedbackEntry>::empty(),
            r.visual_source is None,
    {
        SoftwareDef {
            label: String::new(),
            signal_entries: Vec::new(),
            feedback_entries: Vec::new(),
            visual_source: None,
        }
    }
}

/// The single layer a new device starts with: "A", bank offset 0, no icons.
pub fn default_layers() -> (v: Vec<LayerDef>)
    ensures
        v@.len() == 1,
        v@[0].name@ == seq!['A'],
        v@[0].bank_offset == 0,
        v@[0].icons@.len() == 0,
{
    let name = "A";
    proof {
        reveal_strlit("A");
    }
    let mut v = Vec::new();
    v.push(LayerDef { name: name.to_owned(), bank_offset: 0, icons: Vec::new() });
    proof {
        assert(name@ =~= seq!['A']);
    }
    v
}

/// Index of the first icon bound to hardware `hw`, or `icons.len()` when
/// there is none.
pub open spec fn icon_index(icons: Seq<LayerIcon>, hw: Seq<char>) -> int
    decreases icons.len(),
{
    if icons.len() == 0 {
        0
    } else if icons[0].hardware@ == hw {
        0
    } else {
        1 + icon_index(icons.drop_first(), hw)
    }
}

pub proof fn lemma_icon_index(icons: Seq<LayerIcon>, hw: Seq<char>)
    ensures
        0 <= icon_index(icons, hw) <= icons.len(),
        icon_index(icons, hw) < icons.len() ==> icons[icon_index(icons, hw)].hardware@ == hw,
        forall|j: int| 0 <= j < icon_index(icons, hw) ==> #[trigger] icons[j].hardware@ != hw,
    decreases icons.len(),
{
    if icons.len() > 0 && icons[0].hardware@ != hw {
        lemma_icon_index(icons.drop_first(), hw);
        assert forall|j: int| 0 <= j < icon_index(icons, hw) implies #[trigger] icons[j].hardware@ != hw by {
            if j > 0 {
                assert(icons[j] == icons.drop_first()[j - 1]);
            }
        }
    }
}

proof fn lemma_icon_index_unique(icons: Seq<LayerIcon>, hw: Seq<char>, i: int)
    requires
        0 <= i <= icons.len(),
        i < icons.len() ==> icons[i].hardware@ == hw,
        forall|j: int| 0 <= j < i ==> #[trigger] icons[j].hardware@ != hw,
    ensures
        icon_index(icons, hw) == i,
    decreases icons.len(),
{
    if icons.len() > 0 && icons[0].hardware@ != hw {
        assert forall|j: int| 0 <= j < i - 1 implies #[trigger] icons.drop_first()[j].hardware@ != hw by {
            assert(icons.drop_first()[j] == icons[j + 1]);
        }
        lemma_icon_index_unique(icons.drop_first(), hw, i - 1);
    }
}

/// Position of the icon bound to hardware `hw` among `icons`.
pub fn find_icon(icons: &Vec<LayerIcon>, hw: &str) -> (i: usize)
    ensures
        i == icon_index(icons@, hw@),
{
    let mut i: usize = 0;
    while i < icons.len() && !str_eq(icons[i].hardware.as_str(), hw)
        invariant
            i <= icons@.len(),
            forall|j: int| 0 <= j < i ==> #[trigger] icons@[j].hardware@ != hw@,
        decreases icons@.len() - i,
    {
        i = i + 1;
    }
    proof {
        lemma_icon_index_unique(icons@, hw@, i as int);
    }
    i
}

impl LayerDef {
    /// The software of the first icon bound to `hw`, if any.
    pub open spec fn spec_software(self, hw: Seq<char>) -> Option<SoftwareDef> {
        let i = icon_index(self.icons@, hw);
        if i < self.icons@.len() {
            Some(self.icons@[i].software)
        } else {
            None
        }
    }

    pub fn software(&self, hardware_id: &str) -> (r: Option<&SoftwareDef>)
        ensures
            r matches Some(s) ==> self.spec_software(hardware_id@) == Some(*s),
            r is None ==> self.spec_software(hardware_id@) is None,
    {
        let i = find_icon(&self.icons, hardware_id);
        proof {
            lemma_icon_index(self.icons@, hardware_id@);
        }
        if i < self.icons.len() {
            Some(&self.icons[i].software)
        } else {
            None
        }
    }

    /// Per-layer software for the icon with the given hardware id, creating an
    /// empty entry on first access so edits have somewhere to live.
    pub fn software_mut(&mut self, hardware_id: &str) -> (r: &mut SoftwareDef)
        ensures
            final(self).name == old(self).name,
            final(self).bank_offset == old(self).bank_offset,
            ({
                let i = icon_index(old(self).icons@, hardware_id@);
                if i < old(self).icons@.len() {
                    &&& *r == old(self).icons@[i].software
                    &&& final(self).icons@ == old(self).icons@.update(
                        i,
                        LayerIcon { hardware: old(self).icons@[i].hardware, software: *final(r) },
                    )
                } else {
                    &&& r.label@ == Seq::<char>::empty()
                    &&& r.signal_entries@.len() == 0
                    &&& r.feedback_entries@.len() == 0
                    &&& r.visual_source is None
                    &&& final(self).icons@.len() == old(self).icons@.len() + 1
                    &&& final(self).icons@.take(old(self).icons@.len() as int) == old(self).icons@
                    &&& final(self).icons@.last().hardware@ == hardware_id@
                    &&& final(self).icons@.last().software == *final(r)
                }
            }),
    {
        let i = find_icon(&self.icons, hardware_id);
        proof {
            lemma_icon_index(self.icons@, hardware_id@);
        }
        if i == self.icons.len() {
            self.icons.push(LayerIcon { hardware: hardware_id.to_owned(), software: SoftwareDef::new() });
        }
        let icon = &mut self.icons[i];
        &mut icon.software
    }
}

/// The devices of the configuration, in display order, each under a unique
/// name (its stable port identity).
#[derive(Debug)]
pub struct Config {
    devices: Vec<DeviceConfig>,
    device_order: Vec<String>,
}

/// Index of the first occurrence of the name `name` in `names`, or
/// `names.len()` when it does not occur.
pub open spec fn name_index(names: Seq<String>, name: Seq<char>) -> int
    decreases names.len(),
{
    if names.len() == 0 {
        0
    } else if names[0]@ == name {
        0
    } else {
        1 + name_index(names.drop_first(), name)
    }
}

pub proof fn lemma_name_index(names: Seq<String>, name: Seq<char>)
    ensures
        0 <= name_index(names, name) <= names.len(),
        name_index(names, name) < names.len() ==> names[name_index(names, name)]@ == name,
        forall|j: int| 0 <= j < name_index(names, name) ==> #[trigger] names[j]@ != name,
    decreases names.len(),
{
    if names.len() > 0 && names[0]@ != name {
        lemma_name_index(names.drop_first(), name);
        assert forall|j: int| 0 <= j < name_index(names, name) implies #[trigger] names[j]@ != name by {
            if j > 0 {
                assert(names[j] == names.drop_first()[j - 1]);
            }
        }
    }
}

pub proof fn lemma_name_index_unique(names: Seq<String>, name: Seq<char>, i: int)
    requires
        0 <= i <= names.len(),
        i < names.len() ==> names[i]@ == name,
        forall|j: int| 0 <= j < i ==> #[trigger] names[j]@ != name,
    ensures
        name_index(names, name) == i,
    decreases names.len(),
{
    if names.len() > 0 && names[0]@ != name {
        assert forall|j: int| 0 <= j < i - 1 implies #[trigger] names.drop_first()[j]@ != name by {
            assert(names.drop_first()[j] == names[j + 1]);
        }
        lemma_name_index_unique(names.drop_first(), name, i - 1);
    }
}

/// Position of the name `name` in `names`.
pub fn find_name(names: &Vec<String>, name: &str) -> (i: usize)
    ensures
        i == name_index(names@, name@),
{
    let mut i: usize = 0;
    while i < names.len() && !str_eq(names[i].as_str(), name)
        invariant
            i <= names@.len(),
            forall|j: int| 0 <= j < i ==> #[trigger] names@[j]@ != name@,
        decreases names@.len() - i,
    {
        i = i + 1;
    }
    proof {
        lemma_name_index_unique(names@, name@, i as int);
    }
    i
}

/// Whether the names in `names` are pairwise different.
pub open spec fn distinct_names(names: Seq<String>) -> bool {
    forall|i: int, j: int| 0 <= i < names.len() && 0 <= j < names.len() && i != j ==> #[trigger] names[i]@
        != #[trigger] names[j]@
}

impl Config {
    /// The device names, in display order.
    pub closed spec fn names(self) -> Seq<String> {
        self.device_order@
    }

    /// The devices, in display order.
    pub closed spec fn devs(self) -> Seq<DeviceConfig> {
        self.devices@
    }

    /// Every device has exactly one name, and no name is used twice.
    pub open spec fn wf(self) -> bool {
        &&& self.names().len() == self.devs().len()
        &&& distinct_names(self.names())
    }

    /// Position of the device named `name` (`device_count` when absent).
    pub open spec fn index_of(self, name: Seq<char>) -> int {
        name_index(self.names(), name)
    }

    /// The device named `name`, if any.
    pub open spec fn lookup(self, name: Seq<char>) -> Option<DeviceConfig> {
        let i = self.index_of(name);
        if i < self.devs().len() {
            Some(self.devs()[i])
        } else {
            None
        }
    }

    /// An empty configuration.
    pub fn new() -> (c: Self)
        ensures
            c.wf(),
            c.names().len() == 0,
            c.devs().len() == 0,
    {
        Config { devices: Vec::new(), device_order: Vec::new() }
    }

    pub fn device_names(&self) -> (r: &[String])
        ensures
            r@ == self.names(),
    {
        self.device_order.as_slice()
    }

    pub fn device_name(&self, idx: usize) -> (r: Option<&str>)
        ensures
            match r {
                Some(n) => idx < self.names().len() && n@ == self.names()[idx as int]@,
                None => idx >= self.names().len(),
            },
    {
        if idx < self.device_order.len() {
            Some(self.device_order[idx].as_str())
        } else {
            None
        }
    }

    pub fn device(&self, idx: usize) -> (r: Option<&DeviceConfig>)
        requires
            self.wf(),
        ensures
            match r {
                Some(d) => idx < self.devs().len() && *d == self.devs()[idx as int],
                None => idx >= self.devs().len(),
            },
    {
        if idx < self.devices.len() {
            Some(&self.devices[idx])
        } else {
            None
        }
    }

    pub fn device_mut(&mut self, idx: usize) -> (r: Option<&mut DeviceConfig>)
        requires
            old(self).wf(),
        ensures
            final(self).names() == old(self).names(),
            match r {
                Some(d) => idx < old(self).devs().len() && *d == old(self).devs()[idx as int]
                    && final(self).devs() == old(self).devs().update(idx as int, *final(d)),
                None => idx >= old(self).devs().len() && final(self).devs() == old(self).devs(),
            },
            final(self).wf(),
    {
        if idx < self.devices.len() {
            Some(&mut self.devices[idx])
        } else {
            None
        }
    }

    /// Position of the device named `name`, if any.
    pub fn index_of_device(&self, name: &str) -> (r: Option<usize>)
        requires
            self.wf(),
        ensures
            match r {
                Some(i) => i == self.index_of(name@) && i < self.devs().len(),
                None => self.index_of(name@) == self.devs().len(),
            },
    {
        let i = find_name(&self.device_order, name);
        proof {
            lemma_name_index(self.names(), name@);
        }
        if i < self.device_order.len() {
            Some(i)
        } else {
            None
        }
    }

    /// Whether a device named `name` is configured.
    pub fn contains_device(&self, name: &str) -> (r: bool)
        requires
            self.wf(),
        ensures
            r == (self.lookup(name@) is Some),
    {
        self.index_of_device(name).is_some()
    }

    /// The device named `name`, if any.
    pub fn device_by_name(&self, name: &str) -> (r: Option<&DeviceConfig>)
        requires
            self.wf(),
        ensures
            match r {
                Some(d) => self.lookup(name@) == Some(*d),
                None => self.lookup(name@) is None,
            },
    {
        match self.index_of_device(name) {
            Some(i) => Some(&self.devices[i]),
            None => None,
        }
    }

    /// The device named `name`, if any, for mutation.
    pub fn device_by_name_mut(&mut self, name: &str) -> (r: Option<&mut DeviceConfig>)
        requires
            old(self).wf(),
        ensures
            final(self).names() == old(self).names(),
            final(self).wf(),
            match r {
                Some(d) => old(self).lookup(name@) == Some(*d) && final(self).devs() == old(self).devs().update(
                    old(self).index_of(name@),
                    *final(d),
                ),
                None => old(self).lookup(name@) is None && final(self).devs() == old(self).devs(),
            },
    {
        match self.index_of_device(name) {
            Some(i) => Some(&mut self.devices[i]),
            None => None,
        }
    }

    /// Whether `n` is `o` with `device` stored under `name`: in place of the
    /// device already stored under that name, else appended.
    pub open spec fn device_inserted(o: Config, n: Config, name: String, device: DeviceConfig) -> bool {
        let i = o.index_of(name@);
        if i < o.devs().len() {
            &&& n.names() == o.names()
            &&& n.devs() == o.devs().update(i, device)
        } else {
            &&& n.names() == o.names().push(name)
            &&& n.devs() == o.devs().push(device)
        }
    }

    /// Whether `n` is `o` without the device named `name` (unchanged when
    /// there is none).
    pub open spec fn device_removed(o: Config, n: Config, name: Seq<char>) -> bool {
        let i = o.index_of(name);
        if i < o.devs().len() {
            &&& n.names() == o.names().remove(i)
            &&& n.devs() == o.devs().remove(i)
        } else {
            &&& n.names() == o.names()
            &&& n.devs() == o.devs()
        }
    }

    /// Adds `device` under `name`, or replaces the device already stored
    /// under that name, keeping its position.
    pub fn insert_device(&mut self, name: String, device: DeviceConfig)
        requires
            old(self).wf(),
        ensures
            final(self).wf(),
            Config::device_inserted(*old(self), *final(self), name, device),
            forall|q: Seq<char>| #[trigger] final(self).lookup(q) == if q == name@ {
                Some(device)
            } else {
                old(self).lookup(q)
            },
    {
        let i = find_name(&self.device_order, name.as_str());
        proof {
            lemma_name_index(self.names(), name@);
        }
        if i < self.device_order.len() {
            self.devices.set(i, device);
            proof {
                assert forall|q: Seq<char>| #[trigger] self.lookup(q) == if q == name@ {
                    Some(device)
                } else {
                    old(self).lookup(q)
                } by {
                    lemma_name_index(self.names(), q);
                }
            }
        } else {
            self.device_order.push(name);
            self.devices.push(device);
            proof {
                let names = self.device_order@;
                assert forall|a: int, b: int|
                    0 <= a < names.len() && 0 <= b < names.len() && a != b implies #[trigger] names[a]@
                    != #[trigger] names[b]@ by {
                    if a < i && b < i {
                        assert(old(self).names()[a] == names[a]);
                        assert(old(self).names()[b] == names[b]);
                    } else if a == i {
                        assert(old(self).names()[b] == names[b]);
                    } else {
                        assert(old(self).names()[a] == names[a]);
                    }
                }
                assert forall|q: Seq<char>| #[trigger] self.lookup(q) == if q == name@ {
                    Some(device)
                } else {
                    old(self).lookup(q)
                } by {
                    lemma_name_index(self.names(), q);
                    lemma_name_index(old(self).names(), q);
                    if q == name@ {
                        lemma_name_index_unique(self.names(), q, i as int);
                    } else if old(self).index_of(q) < old(self).names().len() {
                        lemma_name_index_unique(self.names(), q, old(self).index_of(q));
                    } else {
                        lemma_name_index_unique(self.names(), q, self.names().len() as int);
                    }
                }
            }
        }
    }

    /// Removes the device named `name`, if present.
    pub fn remove_device(&mut self, name: &str)
        requires
            old(self).wf(),
        ensures
            final(self).wf(),
            Config::device_removed(*old(self), *final(self), name@),
            forall|q: Seq<char>| #[trigger] final(self).lookup(q) == if q == name@ {
                None
            } else {
                old(self).lookup(q)
            },
    {
        let i = find_name(&self.device_order, name);
        proof {
            lemma_name_index(self.names(), name@);
        }
        if i < self.device_order.len() {
            self.device_order.remove(i);
            self.devices.remove(i);
            proof {
                let old_names = old(self).names();
                let names = self.device_order@;
                assert forall|a: int, b: int|
                    0 <= a < names.len() && 0 <= b < names.len() && a != b implies #[trigger] names[a]@
                    != #[trigger] names[b]@ by {
                    let oa = if a < i { a } else { a + 1 };
                    let ob = if b < i { b } else { b + 1 };
                    assert(names[a] == old_names[oa]);
                    assert(names[b] == old_names[ob]);
                }
                assert forall|q: Seq<char>| #[trigger] self.lookup(q) == if q == name@ {
                    None
                } else {
                    old(self).lookup(q)
                } by {
                    lemma_name_index(self.names(), q);
                    lemma_name_index(old_names, q);
                    let oi = name_index(old_names, q);
                    if q == name@ {
                        assert forall|j: int| 0 <= j < names.len() implies #[trigger] names[j]@ != q by {
                            let oj = if j < i { j } else { j + 1 };
                            assert(names[j] == old_names[oj]);
                        }
                        lemma_name_index_unique(names, q, names.len() as int);
                    } else if oi < old_names.len() {
                        let ni = if oi < i { oi } else { oi - 1 };
                        assert forall|j: int| 0 <= j < ni implies #[trigger] names[j]@ != q by {
                            let oj = if j < i { j } else { j + 1 };
                            assert(names[j] == old_names[oj]);
                        }
                        assert(names[ni] == old_names[oi]);
                        lemma_name_index_unique(names, q, ni);
                    } else {
                        assert forall|j: int| 0 <= j < names.len() implies #[trigger] names[j]@ != q by {
                            let oj = if j < i { j } else { j + 1 };
                            assert(names[j] == old_names[oj]);
                        }
                        lemma_name_index_unique(names, q, names.len() as int);
                    }
                }
            }
        }
    }

    /// Each device is found again under its own name.
    pub proof fn lemma_index_of_name(self, idx: int)
        requires
            self.wf(),
            0 <= idx < self.names().len(),
        ensures
            self.index_of(self.names()[idx]@) == idx,
            self.lookup(self.names()[idx]@) == Some(self.devs()[idx]),
    {
        let k = self.names()[idx]@;
        assert forall|j: int| 0 <= j < idx implies #[trigger] self.names()[j]@ != k by {}
        lemma_name_index_unique(self.names(), k, idx);
    }

    /// Exchanges the device at position `idx` with `d`, so that it can be
    /// edited outside the configuration and put back.
    pub fn swap_device(&mut self, idx: usize, d: &mut DeviceConfig)
        requires
            old(self).wf(),
            idx < old(self).devs().len(),
        ensures
            final(self).wf(),
            final(self).names() == old(self).names(),
            *final(d) == old(self).devs()[idx as int],
            final(self).devs() == old(self).devs().update(idx as int, *old(d)),
    {
        let mut held = self.devices.remove(idx);
        core::mem::swap(&mut held, d);
        self.devices.insert(idx, held);
        proof {
            assert(self.devices@ =~= old(self).devices@.update(idx as int, *old(d)));
        }
    }

    pub fn device_count(&self) -> (n: usize)
        ensures
            n == self.names().len(),
    {
        self.device_order.len()
    }
}

} // verus!
