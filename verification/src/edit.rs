use vstd::prelude::*;
use crate::config::{
    DeviceConfig, FeedbackEntry, HardwareDef, HardwareInput, HardwareOutput, IconType, InputKind,
    LayerDef, LayerIcon, OutputKind, SignalEntry, SoftwareDef,
};
use crate::ids::{is_next_free_id, next_hardware_id, next_input_label, next_output_label, take_at};
use crate::text::str_eq;

verus! {

/// Index of the first control with id `id`, or `hws.len()`.
pub open spec fn hardware_index(hws: Seq<HardwareDef>, id: Seq<char>) -> int
    decreases hws.len(),
{
    if hws.len() == 0 || hws[0].id@ == id {
        0
    } else {
        1 + hardware_index(hws.drop_first(), id)
    }
}

pub proof fn lemma_hardware_index_at(hws: Seq<HardwareDef>, id: Seq<char>, i: int)
    requires
        0 <= i <= hws.len(),
        i < hws.len() ==> hws[i].id@ == id,
        forall|j: int| 0 <= j < i ==> #[trigger] hws[j].id@ != id,
    ensures
        hardware_index(hws, id) == i,
    decreases hws.len(),
{
    if hws.len() > 0 && hws[0].id@ != id {
        assert forall|j: int| 0 <= j < i - 1 implies #[trigger] hws.drop_first()[j].id@ != id by {
            assert(hws.drop_first()[j] == hws[j + 1]);
        }
        lemma_hardware_index_at(hws.drop_first(), id, i - 1);
    }
}

/// When no control has id `id`, its position is the length of the list, and
/// conversely.
pub proof fn lemma_hardware_index_bounds(hws: Seq<HardwareDef>, id: Seq<char>)
    ensures
        0 <= hardware_index(hws, id) <= hws.len(),
        hardware_index(hws, id) < hws.len() ==> hws[hardware_index(hws, id)].id@ == id,
        forall|j: int| 0 <= j < hardware_index(hws, id) ==> #[trigger] hws[j].id@ != id,
    decreases hws.len(),
{
    if hws.len() > 0 && hws[0].id@ != id {
        lemma_hardware_index_bounds(hws.drop_first(), id);
        assert forall|j: int| 0 <= j < hardware_index(hws, id) implies #[trigger] hws[j].id@ != id by {
            if j > 0 {
                assert(hws[j] == hws.drop_first()[j - 1]);
            }
        }
    }
}

/// Position of the first control with id `id` (`hws.len()` when absent).
pub fn find_hardware(hws: &Vec<HardwareDef>, id: &str) -> (i: usize)
    ensures
        i == hardware_index(hws@, id@),
        i <= hws@.len(),
        i < hws@.len() ==> hws@[i as int].id@ == id@,
        forall|j: int| 0 <= j < i ==> #[trigger] hws@[j].id@ != id@,
{
    let mut i: usize = 0;
    while i < hws.len() && !str_eq(hws[i].id.as_str(), id)
        invariant
            i <= hws@.len(),
            forall|j: int| 0 <= j < i ==> #[trigger] hws@[j].id@ != id@,
        decreases hws@.len() - i,
    {
        i = i + 1;
    }
    proof {
        lemma_hardware_index_at(hws@, id@, i as int);
    }
    i
}

/// Index of the first layer named `name`, or `layers.len()`.
pub open spec fn layer_index(layers: Seq<LayerDef>, name: Seq<char>) -> int
    decreases layers.len(),
{
    if layers.len() == 0 || layers[0].name@ == name {
        0
    } else {
        1 + layer_index(layers.drop_first(), name)
    }
}

proof fn lemma_layer_index(layers: Seq<LayerDef>, name: Seq<char>, i: int)
    requires
        0 <= i <= layers.len(),
        i < layers.len() ==> layers[i].name@ == name,
        forall|j: int| 0 <= j < i ==> #[trigger] layers[j].name@ != name,
    ensures
        layer_index(layers, name) == i,
    decreases layers.len(),
{
    if layers.len() > 0 && layers[0].name@ != name {
        assert forall|j: int| 0 <= j < i - 1 implies #[trigger] layers.drop_first()[j].name@ != name by {
            assert(layers.drop_first()[j] == layers[j + 1]);
        }
        lemma_layer_index(layers.drop_first(), name, i - 1);
    }
}

/// Position of the first layer named `name` (`layers.len()` when absent).
pub fn find_layer(layers: &Vec<LayerDef>, name: &str) -> (i: usize)
    ensures
        i == layer_index(layers@, name@),
        i <= layers@.len(),
        i < layers@.len() ==> layers@[i as int].name@ == name@,
        forall|j: int| 0 <= j < i ==> #[trigger] layers@[j].name@ != name@,
{
    let mut i: usize = 0;
    while i < layers.len() && !str_eq(layers[i].name.as_str(), name)
        invariant
            i <= layers@.len(),
            forall|j: int| 0 <= j < i ==> #[trigger] layers@[j].name@ != name@,
        decreases layers@.len() - i,
    {
        i = i + 1;
    }
    proof {
        lemma_layer_index(layers@, name@, i as int);
    }
    i
}

/// A change applied to the per-layer software of every icon bound to one
/// control, when that control's endpoints or id change.
pub enum IconEdit {
    /// Drop the signal entries of the removed input with this label.
    DropSignalInput(String),
    /// Rename the input of signal entries from the first label to the second.
    RenameSignalInput(String, String),
    /// Drop the feedback entries of the removed output with this label.
    DropFeedbackOutput(String),
    /// Rename the output of feedback entries from the first label to the second.
    RenameFeedbackOutput(String, String),
    /// Bind the icon to the control's new id.
    Rebind(String),
}

/// An icon edit, as plain values.
pub enum IconChange {
    DropSignalInput(Seq<char>),
    RenameSignalInput(Seq<char>, Seq<char>),
    DropFeedbackOutput(Seq<char>),
    RenameFeedbackOutput(Seq<char>, Seq<char>),
    Rebind(Seq<char>),
}

impl View for IconEdit {
    type V = IconChange;

    open spec fn view(&self) -> IconChange {
        match self {
            IconEdit::DropSignalInput(l) => IconChange::DropSignalInput(l@),
            IconEdit::RenameSignalInput(a, b) => IconChange::RenameSignalInput(a@, b@),
            IconEdit::DropFeedbackOutput(l) => IconChange::DropFeedbackOutput(l@),
            IconEdit::RenameFeedbackOutput(a, b) => IconChange::RenameFeedbackOutput(a@, b@),
            IconEdit::Rebind(id) => IconChange::Rebind(id@),
        }
    }
}

/// Whether icon `n` is icon `o` after applying `e` to the icons bound to `hw`.
pub open spec fn icon_edited(e: IconChange, hw: Seq<char>, o: LayerIcon, n: LayerIcon) -> bool {
    if o.hardware@ != hw {
        n == o
    } else {
        match e {
            IconChange::DropSignalInput(l) => n.hardware == o.hardware && n.software.label == o.software.label
                && n.software.feedback_entries == o.software.feedback_entries && n.software.visual_source
                == o.software.visual_source && n.software.signal_entries@ == o.software.signal_entries@.filter(
                |se: SignalEntry| se.input@ != l,
            ),
            IconChange::RenameSignalInput(a, b) => n.hardware == o.hardware && n.software.label == o.software.label
                && n.software.feedback_entries == o.software.feedback_entries && n.software.visual_source
                == o.software.visual_source && n.software.signal_entries@.len() == o.software.signal_entries@.len()
                && forall|k: int|
                0 <= k < o.software.signal_entries@.len() ==> {
                    let os = #[trigger] o.software.signal_entries@[k];
                    let ns = n.software.signal_entries@[k];
                    ns.actions == os.actions && if os.input@ == a {
                        ns.input@ == b
                    } else {
                        ns.input == os.input
                    }
                },
            IconChange::DropFeedbackOutput(l) => n.hardware == o.hardware && n.software.label == o.software.label
                && n.software.signal_entries == o.software.signal_entries && n.software.visual_source
                == o.software.visual_source && n.software.feedback_entries@ == o.software.feedback_entries@.filter(
                |fe: FeedbackEntry| fe.output@ != l,
            ),
            IconChange::RenameFeedbackOutput(a, b) => n.hardware == o.hardware && n.software.label
                == o.software.label && n.software.signal_entries == o.software.signal_entries
                && n.software.visual_source == o.software.visual_source && n.software.feedback_entries@.len()
                == o.software.feedback_entries@.len() && forall|k: int|
                0 <= k < o.software.feedback_entries@.len() ==> {
                    let of = #[trigger] o.software.feedback_entries@[k];
                    let nf = n.software.feedback_entries@[k];
                    nf.source == of.source && nf.line2_source == of.line2_source && if of.output@ == a {
                        nf.output@ == b
                    } else {
                        nf.output == of.output
                    }
                },
            IconChange::Rebind(new_id) => n.hardware@ == new_id && n.software == o.software,
        }
    }
}

/// Whether `new` is `old` with `e` applied to every icon bound to `hw`, in every layer.
pub open spec fn layers_edited(e: IconChange, hw: Seq<char>, old: Seq<LayerDef>, new: Seq<LayerDef>) -> bool {
    &&& new.len() == old.len()
    &&& forall|li: int|
        0 <= li < old.len() ==> {
            let ol = #[trigger] old[li];
            let nl = new[li];
            &&& nl.name == ol.name
            &&& nl.bank_offset == ol.bank_offset
            &&& nl.icons@.len() == ol.icons@.len()
            &&& forall|ii: int| 0 <= ii < ol.icons@.len() ==> icon_edited(e, hw, #[trigger] ol.icons@[ii], nl.icons@[ii])
        }
}

fn edit_signal_entries(entries: &mut Vec<SignalEntry>, old_label: &str, new_label: &str)
    ensures
        final(entries)@.len() == old(entries)@.len(),
        forall|k: int|
            0 <= k < old(entries)@.len() ==> {
                let os = #[trigger] old(entries)@[k];
                let ns = final(entries)@[k];
                ns.actions == os.actions && if os.input@ == old_label@ {
                    ns.input@ == new_label@
                } else {
                    ns.input == os.input
                }
            },
{
    let mut out: Vec<SignalEntry> = Vec::new();
    let mut rest: Vec<SignalEntry> = Vec::new();
    core::mem::swap(&mut rest, entries);
    let ghost all = rest@;
    let n = rest.len();
    let mut i: usize = 0;
    while i < n
        invariant
            n == all.len(),
            i <= n,
            rest@ == all.subrange(i as int, n as int),
            out@.len() == i,
            forall|k: int|
                0 <= k < i ==> {
                    let os = #[trigger] all[k];
                    let ns = out@[k];
                    ns.actions == os.actions && if os.input@ == old_label@ {
                        ns.input@ == new_label@
                    } else {
                        ns.input == os.input
                    }
                },
        decreases n - i,
    {
        let se = rest.remove(0);
        proof {
            assert(se == all[i as int]);
            assert(rest@ =~= all.subrange(i + 1, n as int));
        }
        if str_eq(se.input.as_str(), old_label) {
            out.push(SignalEntry { input: new_label.to_owned(), actions: se.actions });
        } else {
            out.push(se);
        }
        i = i + 1;
    }
    *entries = out;
}

fn edit_feedback_entries(entries: &mut Vec<FeedbackEntry>, old_label: &str, new_label: &str)
    ensures
        final(entries)@.len() == old(entries)@.len(),
        forall|k: int|
            0 <= k < old(entries)@.len() ==> {
                let of = #[trigger] old(entries)@[k];
                let nf = final(entries)@[k];
                nf.source == of.source && nf.line2_source == of.line2_source && if of.output@ == old_label@ {
                    nf.output@ == new_label@
                } else {
                    nf.output == of.output
                }
            },
{
    let mut out: Vec<FeedbackEntry> = Vec::new();
    let mut rest: Vec<FeedbackEntry> = Vec::new();
    core::mem::swap(&mut rest, entries);
    let ghost all = rest@;
    let n = rest.len();
    let mut i: usize = 0;
    while i < n
        invariant
            n == all.len(),
            i <= n,
            rest@ == all.subrange(i as int, n as int),
            out@.len() == i,
            forall|k: int|
                0 <= k < i ==> {
                    let of = #[trigger] all[k];
                    let nf = out@[k];
                    nf.source == of.source && nf.line2_source == of.line2_source && if of.output@
                        == old_label@ {
                        nf.output@ == new_label@
                    } else {
                        nf.output == of.output
                    }
                },
        decreases n - i,
    {
        let fe = rest.remove(0);
        proof {
            assert(fe == all[i as int]);
            assert(rest@ =~= all.subrange(i + 1, n as int));
        }
        if str_eq(fe.output.as_str(), old_label) {
            out.push(FeedbackEntry { output: new_label.to_owned(), source: fe.source, line2_source: fe.line2_source });
        } else {
            out.push(fe);
        }
        i = i + 1;
    }
    *entries = out;
}

/// Removes the signal entries whose input is `label`, keeping the order of the rest.
fn drop_signal_input(entries: &mut Vec<SignalEntry>, label: &String)
    ensures
        final(entries)@ == old(entries)@.filter(|se: SignalEntry| se.input@ != label@),
{
    let ghost pred = |se: SignalEntry| se.input@ != label@;
    let mut kept: Vec<SignalEntry> = Vec::new();
    let mut rest: Vec<SignalEntry> = Vec::new();
    core::mem::swap(&mut rest, entries);
    let ghost all = rest@;
    let n = rest.len();
    let mut i: usize = 0;
    while i < n
        invariant
            n == all.len(),
            i <= n,
            rest@ == all.subrange(i as int, n as int),
            kept@ == all.take(i as int).filter(pred),
            pred == (|se: SignalEntry| se.input@ != label@),
        decreases n - i,
    {
        let e = rest.remove(0);
        proof {
            assert(e == all[i as int]);
            assert(rest@ =~= all.subrange(i + 1, n as int));
            reveal(Seq::filter);
            assert(all.take(i + 1).drop_last() =~= all.take(i as int));
            assert(all.take(i + 1).last() == e);
        }
        if !str_eq(e.input.as_str(), label.as_str()) {
            kept.push(e);
        }
        i = i + 1;
    }
    proof {
        assert(all.take(n as int) =~= all);
    }
    *entries = kept;
}

/// Removes the feedback entries whose output is `label`, keeping the order of the rest.
fn drop_feedback_output(entries: &mut Vec<FeedbackEntry>, label: &String)
    ensures
        final(entries)@ == old(entries)@.filter(|fe: FeedbackEntry| fe.output@ != label@),
{
    let ghost pred = |fe: FeedbackEntry| fe.output@ != label@;
    let mut kept: Vec<FeedbackEntry> = Vec::new();
    let mut rest: Vec<FeedbackEntry> = Vec::new();
    core::mem::swap(&mut rest, entries);
    let ghost all = rest@;
    let n = rest.len();
    let mut i: usize = 0;
    while i < n
        invariant
            n == all.len(),
            i <= n,
            rest@ == all.subrange(i as int, n as int),
            kept@ == all.take(i as int).filter(pred),
            pred == (|fe: FeedbackEntry| fe.output@ != label@),
        decreases n - i,
    {
        let e = rest.remove(0);
        proof {
            assert(e == all[i as int]);
            assert(rest@ =~= all.subrange(i + 1, n as int));
            reveal(Seq::filter);
            assert(all.take(i + 1).drop_last() =~= all.take(i as int));
            assert(all.take(i + 1).last() == e);
        }
        if !str_eq(e.output.as_str(), label.as_str()) {
            kept.push(e);
        }
        i = i + 1;
    }
    proof {
        assert(all.take(n as int) =~= all);
    }
    *entries = kept;
}

/// Applies `e` to `icon` when it is bound to `hw`.
fn edit_icon(icon: LayerIcon, e: &IconEdit, hw: &str) -> (n: LayerIcon)
    ensures
        icon_edited(e@, hw@, icon, n),
{
    if !str_eq(icon.hardware.as_str(), hw) {
        return icon;
    }
    let LayerIcon { hardware, software } = icon;
    let SoftwareDef { label, signal_entries, feedback_entries, visual_source } = software;
    let mut signal_entries = signal_entries;
    let mut feedback_entries = feedback_entries;
    match e {
        IconEdit::DropSignalInput(l) => {
            drop_signal_input(&mut signal_entries, l);
            proof {
                let lv = l@;
                assert((|se: SignalEntry| se.input@ != l@) =~= (|se: SignalEntry| se.input@ != lv));
            }
            LayerIcon { hardware, software: SoftwareDef { label, signal_entries, feedback_entries, visual_source } }
        },
        IconEdit::RenameSignalInput(a, b) => {
            edit_signal_entries(&mut signal_entries, a.as_str(), b.as_str());
            LayerIcon { hardware, software: SoftwareDef { label, signal_entries, feedback_entries, visual_source } }
        },
        IconEdit::DropFeedbackOutput(l) => {
            drop_feedback_output(&mut feedback_entries, l);
            proof {
                let lv = l@;
                assert((|fe: FeedbackEntry| fe.output@ != l@) =~= (|fe: FeedbackEntry| fe.output@ != lv));
            }
            LayerIcon { hardware, software: SoftwareDef { label, signal_entries, feedback_entries, visual_source } }
        },
        IconEdit::RenameFeedbackOutput(a, b) => {
            edit_feedback_entries(&mut feedback_entries, a.as_str(), b.as_str());
            LayerIcon { hardware, software: SoftwareDef { label, signal_entries, feedback_entries, visual_source } }
        },
        IconEdit::Rebind(new_id) => LayerIcon {
            hardware: new_id.clone(),
            software: SoftwareDef { label, signal_entries, feedback_entries, visual_source },
        },
    }
}

/// Applies `e` to every icon bound to `hw` in `layer`.
fn edit_layer(layer: LayerDef, e: &IconEdit, hw: &str) -> (n: LayerDef)
    ensures
        n.name == layer.name,
        n.bank_offset == layer.bank_offset,
        n.icons@.len() == layer.icons@.len(),
        forall|ii: int| 0 <= ii < layer.icons@.len() ==> icon_edited(e@, hw@, #[trigger] layer.icons@[ii], n.icons@[ii]),
{
    let LayerDef { name, bank_offset, icons } = layer;
    let mut rest = icons;
    let ghost all = rest@;
    let mut out: Vec<LayerIcon> = Vec::new();
    let n = rest.len();
    let mut i: usize = 0;
    while i < n
        invariant
            n == all.len(),
            i <= n,
            rest@ == all.subrange(i as int, n as int),
            out@.len() == i,
            forall|ii: int| 0 <= ii < i ==> icon_edited(e@, hw@, #[trigger] all[ii], out@[ii]),
        decreases n - i,
    {
        let icon = rest.remove(0);
        proof {
            assert(icon == all[i as int]);
            assert(rest@ =~= all.subrange(i + 1, n as int));
        }
        out.push(edit_icon(icon, e, hw));
        i = i + 1;
    }
    LayerDef { name, bank_offset, icons: out }
}

/// Applies `e` to every icon bound to `hw`, in every layer.
pub fn edit_layers(layers: &mut Vec<LayerDef>, e: &IconEdit, hw: &str)
    ensures
        layers_edited(e@, hw@, old(layers)@, final(layers)@),
{
    let mut rest: Vec<LayerDef> = Vec::new();
    core::mem::swap(&mut rest, layers);
    let ghost all = rest@;
    let mut out: Vec<LayerDef> = Vec::new();
    let n = rest.len();
    let mut i: usize = 0;
    while i < n
        invariant
            n == all.len(),
            i <= n,
            rest@ == all.subrange(i as int, n as int),
            out@.len() == i,
            forall|li: int|
                0 <= li < i ==> {
                    let ol = #[trigger] all[li];
                    let nl = out@[li];
                    &&& nl.name == ol.name
                    &&& nl.bank_offset == ol.bank_offset
                    &&& nl.icons@.len() == ol.icons@.len()
                    &&& forall|ii: int|
                        0 <= ii < ol.icons@.len() ==> icon_edited(e@, hw@, #[trigger] ol.icons@[ii], nl.icons@[ii])
                },
        decreases n - i,
    {
        let layer = rest.remove(0);
        proof {
            assert(layer == all[i as int]);
            assert(rest@ =~= all.subrange(i + 1, n as int));
        }
        out.push(edit_layer(layer, e, hw));
        i = i + 1;
    }
    *layers = out;
}

} // verus!
