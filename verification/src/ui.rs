use vstd::prelude::*;
use crate::config::{HardwareDef, LayerDef};
use crate::midi::PortInfo;
use crate::source::{CmpOp, Comparison, Source};
use crate::text::{has_substring, str_contains, str_eq};

verus! {

/// A click on the faceplate.
#[derive(Debug, Clone, Copy, PartialEq, Eq, Structural)]
pub enum FaceplateMessage {
    /// The control at this position in the device's hardware list.
    ClickIcon(usize),
    /// The empty cell at (column, row).
    ClickEmptyCell(u8, u8),
}

/// What the tray menu asks of the application.
#[derive(Debug, Clone, Copy, PartialEq, Eq, Structural)]
pub enum TrayMessage {
    ShowWindow,
    Quit,
}

/// What the tray icon shows: its tooltip text.
#[derive(Debug)]
pub struct TrayState {
    pub tooltip: String,
}

impl TrayState {
    pub fn new(tooltip: String) -> (t: Self)
        ensures
            t.tooltip == tooltip,
    {
        TrayState { tooltip }
    }

    /// The message a click on the icon itself sends.
    pub fn activate(&self) -> (m: TrayMessage)
        ensures
            m == TrayMessage::ShowWindow,
    {
        TrayMessage::ShowWindow
    }

    /// The menu entries, in order: label, icon name, and the message each sends.
    pub fn menu(&self) -> (items: Vec<(&'static str, &'static str, TrayMessage)>)
        ensures
            items@.len() == 2,
            items@[0].0 == "Show" && items@[0].1 == "window" && items@[0].2 == TrayMessage::ShowWindow,
            items@[1].0 == "Quit" && items@[1].1 == "application-exit" && items@[1].2 == TrayMessage::Quit,
    {
        let mut items = Vec::new();
        items.push(("Show", "window", TrayMessage::ShowWindow));
        items.push(("Quit", "application-exit", TrayMessage::Quit));
        items
    }
}

/// State of the dialog that adds a device from the ports not yet configured.
#[derive(Debug)]
pub struct AddDeviceDialog {
    pub search: String,
    pub selected_port: Option<usize>,
    pub available_ports: Vec<PortInfo>,
}

impl AddDeviceDialog {
    /// A dialog offering `ports`, with no search text and nothing selected.
    pub fn new(ports: Vec<PortInfo>) -> (d: Self)
        ensures
            d.search@ == Seq::<char>::empty(),
            d.selected_port is None,
            d.available_ports == ports,
    {
        AddDeviceDialog { search: String::new(), selected_port: None, available_ports: ports }
    }
}

/// What `str::to_lowercase` gives for a text: its lowercase equivalent as
/// Unicode defines it, which depends on the text alone.
pub uninterp spec fn lowercase(s: Seq<char>) -> Seq<char>;

/// Calls `str::to_lowercase`. The contract claims only that the result is
/// `lowercase` of the argument; the Unicode case mapping itself is left unstated.
#[verifier::external_body]
fn to_lowercase(s: &str) -> (r: String)
    ensures
        r@ == lowercase(s@),
{
    s.to_lowercase()
}

/// Whether the add-device dialog lists a port named `name` while the search
/// text is `search`: always for an empty search, else when the name contains
/// the search text, both taken in lowercase.
pub open spec fn port_listed(name: Seq<char>, search: Seq<char>) -> bool {
    search.len() == 0 || has_substring(lowercase(name), lowercase(search))
}

/// Positions among the first `n` of `ports` of those listed for `search`, in order.
pub open spec fn listed_upto(ports: Seq<PortInfo>, search: Seq<char>, n: int) -> Seq<int>
    decreases n,
{
    if n <= 0 {
        Seq::empty()
    } else {
        let rest = listed_upto(ports, search, n - 1);
        if port_listed(ports[n - 1].name@, search) {
            rest.push(n - 1)
        } else {
            rest
        }
    }
}

impl AddDeviceDialog {
    /// Positions of the offered ports that the search text lets through, in order.
    pub fn listed_ports(&self) -> (r: Vec<usize>)
        ensures
            r@.map_values(|i: usize| i as int) == listed_upto(
                self.available_ports@,
                self.search@,
                self.available_ports@.len() as int,
            ),
    {
        let ghost ports = self.available_ports@;
        let ghost search = self.search@;
        let empty = self.search.as_str().unicode_len() == 0;
        let needle = to_lowercase(self.search.as_str());
        let mut r: Vec<usize> = Vec::new();
        let mut i: usize = 0;
        while i < self.available_ports.len()
            invariant
                ports == self.available_ports@,
                search == self.search@,
                empty == (search.len() == 0),
                needle@ == lowercase(search),
                i <= ports.len(),
                r@.map_values(|i: usize| i as int) == listed_upto(ports, search, i as int),
            decreases ports.len() - i,
        {
            let ghost before = r@;
            let shown = empty || str_contains(to_lowercase(self.available_ports[i].name.as_str()).as_str(), needle.as_str());
            if shown {
                r.push(i);
                proof {
                    assert(r@.map_values(|i: usize| i as int) =~= before.map_values(|i: usize| i as int).push(i as int));
                }
            }
            i = i + 1;
        }
        r
    }
}

/// Whether `s` is `Source::Direct` with the text `t`.
pub open spec fn is_direct(s: Source, t: Seq<char>) -> bool {
    s matches Source::Direct { value } && value@ == t
}

/// Whether `s` is the representative of its kind offered by the source picker:
/// empty text fields, and for the composite kinds a small working example.
pub open spec fn is_sample(s: Source) -> bool {
    match s {
        Source::Direct { value } => value@ == Seq::<char>::empty(),
        Source::HardwareInput { input_label } => input_label@ == Seq::<char>::empty(),
        Source::Volume { target } => target@ == Seq::<char>::empty(),
        Source::Muted { target } => target@ == Seq::<char>::empty(),
        Source::RouteActive { stream, sink } => stream@ == Seq::<char>::empty() && sink@ == Seq::<char>::empty(),
        Source::LayerActive { layer } => layer@ == Seq::<char>::empty(),
        Source::Bank => true,
        Source::Custom { cmd } => cmd@ == Seq::<char>::empty(),
        Source::If { condition, then_source, else_source } => {
            &&& is_direct(*condition.left, seq!['t', 'r', 'u', 'e'])
            &&& condition.op == CmpOp::Eq
            &&& is_direct(*condition.right, seq!['t', 'r', 'u', 'e'])
            &&& is_direct(*then_source, seq!['t', 'r', 'u', 'e'])
            &&& is_direct(*else_source, seq!['f', 'a', 'l', 's', 'e'])
        },
        Source::RingRange { source, min, max } => is_direct(*source, seq!['0', '.', '5']) && min == 0 && max == 127,
        Source::Blink { a, b, interval_ms } => {
            &&& is_direct(*a, seq!['t', 'r', 'u', 'e'])
            &&& is_direct(*b, seq!['f', 'a', 'l', 's', 'e'])
            &&& interval_ms == 1000
        },
    }
}

/// The source kinds in picker order.
pub open spec fn kind_names() -> Seq<&'static str> {
    seq![
        "Direct",
        "HardwareInput",
        "Volume",
        "Muted",
        "RouteActive",
        "LayerActive",
        "Bank",
        "Custom",
        "If",
        "RingRange",
        "Blink",
    ]
}

fn direct(t: &str) -> (s: Source)
    ensures
        is_direct(s, t@),
{
    Source::Direct { value: t.to_owned() }
}

fn true_source() -> (s: Source)
    ensures
        is_direct(s, seq!['t', 'r', 'u', 'e']),
{
    let t = "true";
    proof {
        reveal_strlit("true");
        assert(t@ =~= seq!['t', 'r', 'u', 'e']);
    }
    direct(t)
}

fn false_source() -> (s: Source)
    ensures
        is_direct(s, seq!['f', 'a', 'l', 's', 'e']),
{
    let t = "false";
    proof {
        reveal_strlit("false");
        assert(t@ =~= seq!['f', 'a', 'l', 's', 'e']);
    }
    direct(t)
}

/// The picker's representative of the `i`-th kind in `kind_names()`.
fn sample(i: usize) -> (s: Source)
    requires
        i < 11,
    ensures
        is_sample(s),
        s.spec_kind() == kind_names()[i as int],
{
    match i {
        0 => Source::Direct { value: String::new() },
        1 => Source::HardwareInput { input_label: String::new() },
        2 => Source::Volume { target: String::new() },
        3 => Source::Muted { target: String::new() },
        4 => Source::RouteActive { stream: String::new(), sink: String::new() },
        5 => Source::LayerActive { layer: String::new() },
        6 => Source::Bank,
        7 => Source::Custom { cmd: String::new() },
        8 => Source::If {
            condition: Comparison { left: Box::new(true_source()), op: CmpOp::Eq, right: Box::new(true_source()) },
            then_source: Box::new(true_source()),
            else_source: Box::new(false_source()),
        },
        9 => {
            let t = "0.5";
            proof {
                reveal_strlit("0.5");
                assert(t@ =~= seq!['0', '.', '5']);
            }
            Source::RingRange { source: Box::new(direct(t)), min: 0, max: 127 }
        },
        _ => Source::Blink { a: Box::new(true_source()), b: Box::new(false_source()), interval_ms: 1000 },
    }
}

/// One representative of each source kind, in picker order.
pub fn source_samples() -> (v: Vec<Source>)
    ensures
        v@.len() == 11,
        forall|i: int| 0 <= i < 11 ==> is_sample(#[trigger] v@[i]) && v@[i].spec_kind() == kind_names()[i],
{
    let mut v: Vec<Source> = Vec::new();
    let mut i: usize = 0;
    while i < 11
        invariant
            i <= 11,
            v@.len() == i,
            forall|j: int| 0 <= j < i ==> is_sample(#[trigger] v@[j]) && v@[j].spec_kind() == kind_names()[j],
        decreases 11 - i,
    {
        v.push(sample(i));
        i = i + 1;
    }
    v
}

/// The names of the source kinds, in picker order.
pub fn source_type_names() -> (v: Vec<&'static str>)
    ensures
        v@ == kind_names(),
{
    let mut v: Vec<&'static str> = Vec::new();
    let mut i: usize = 0;
    while i < 11
        invariant
            i <= 11,
            v@ == kind_names().take(i as int),
        decreases 11 - i,
    {
        v.push(sample(i).kind());
        i = i + 1;
        proof {
            assert(v@ =~= kind_names().take(i as int));
        }
    }
    proof {
        assert(kind_names().take(11) =~= kind_names());
    }
    v
}

/// The picker's representative of the kind named `kind`; `Direct` with the
/// text "true" for a name that is no kind.
pub fn new_source(kind: &str) -> (s: Source)
    ensures
        (exists|i: int| 0 <= i < 11 && #[trigger] kind_names()[i]@ == kind@) ==> is_sample(s) && s.spec_kind()@ == kind@,
        !(exists|i: int| 0 <= i < 11 && #[trigger] kind_names()[i]@ == kind@) ==> is_direct(s, seq!['t', 'r', 'u', 'e']),
{
    let names = source_type_names();
    let mut i: usize = 0;
    while i < 11
        invariant
            i <= 11,
            names@ == kind_names(),
            forall|j: int| 0 <= j < i ==> #[trigger] kind_names()[j]@ != kind@,
        decreases 11 - i,
    {
        if str_eq(names[i], kind) {
            return sample(i);
        }
        i = i + 1;
    }
    true_source()
}

/// Whether `source` nests other sources.
pub fn source_is_composite(source: &Source) -> (r: bool)
    ensures
        r == (source is If || source is RingRange || source is Blink),
{
    match source {
        Source::If { .. } | Source::RingRange { .. } | Source::Blink { .. } => true,
        _ => false,
    }
}


/// Whether control `h` covers the grid cell (`col`, `row`).
pub open spec fn covers(h: HardwareDef, col: u8, row: u8) -> bool {
    &&& h.col <= col
    &&& (col as int) < h.col + h.col_span
    &&& h.row <= row
    &&& (row as int) < h.row + h.row_span
}

/// Whether some control of `hardware` covers the grid cell (`col`, `row`);
/// a click there selects that control rather than adding one.
pub fn cell_occupied(hardware: &[HardwareDef], col: u8, row: u8) -> (r: bool)
    ensures
        r == exists|i: int| 0 <= i < hardware@.len() && covers(#[trigger] hardware@[i], col, row),
{
    let mut i: usize = 0;
    while i < hardware.len()
        invariant
            i <= hardware@.len(),
            forall|j: int| 0 <= j < i ==> !covers(#[trigger] hardware@[j], col, row),
        decreases hardware@.len() - i,
    {
        let h = &hardware[i];
        if h.col <= col && (col as u16) < h.col as u16 + h.col_span as u16 && h.row <= row && (row as u16)
            < h.row as u16 + h.row_span as u16 {
            assert(covers(hardware@[i as int], col, row));
            return true;
        }
        i = i + 1;
    }
    false
}

/// The text control `h` shows on the faceplate: its label in `layer` when
/// the layer gives it a non-empty one, else its id.
pub open spec fn spec_shown_label(layer: Option<LayerDef>, h: HardwareDef) -> Seq<char> {
    match layer {
        Some(l) => match l.spec_software(h.id@) {
            Some(sw) => if sw.label@.len() > 0 {
                sw.label@
            } else {
                h.id@
            },
            None => h.id@,
        },
        None => h.id@,
    }
}

pub fn shown_label(layer: Option<&LayerDef>, h: &HardwareDef) -> (s: String)
    ensures
        s@ == spec_shown_label(match layer {
            Some(l) => Some(*l),
            None => None,
        }, *h),
{
    if let Some(l) = layer {
        if let Some(sw) = l.software(h.id.as_str()) {
            if sw.label.as_str().unicode_len() > 0 {
                return sw.label.clone();
            }
        }
    }
    h.id.clone()
}

} // verus!
