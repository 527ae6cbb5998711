use vstd::prelude::*;
use crate::config::{
    DeviceConfig, HardwareDef, HardwareInput, HardwareOutput, IconType, InputKind, LayerDef, LayerIcon,
    OutputKind,
};
use crate::edit::{edit_layers, find_hardware, find_layer, hardware_index, layer_index, layers_edited, IconChange, IconEdit};
use crate::ids::{is_next_free_id, layer_named, next_hardware_id, next_input_label, next_output_label, take_at, valid_layer_rename, is_blank};
use crate::software::{apply_edit, empty_software, is_edit, SoftwareEdit};
use crate::text::str_eq;

verus! {

/// A field of a hardware input that the editor sets.
#[derive(Debug, Clone, Copy, PartialEq, Eq, Structural)]
pub enum InputField {
    Kind(InputKind),
    Channel(u8),
    Number(u8),
}

/// A field of a hardware output that the editor sets.
#[derive(Debug, Clone, Copy, PartialEq, Eq, Structural)]
pub enum OutputField {
    Kind(OutputKind),
    Channel(u8),
    Number(u8),
}

/// `a` and `b` agree on everything but their layers.
pub open spec fn same_but_layers(a: DeviceConfig, b: DeviceConfig) -> bool {
    &&& a.port_name == b.port_name
    &&& a.grid_columns == b.grid_columns
    &&& a.grid_rows == b.grid_rows
    &&& a.hardware == b.hardware
}

/// `a` and `b` agree on everything but their hardware and layers.
pub open spec fn same_frame(a: DeviceConfig, b: DeviceConfig) -> bool {
    &&& a.port_name == b.port_name
    &&& a.grid_columns == b.grid_columns
    &&& a.grid_rows == b.grid_rows
}

/// `new` is `old` with only control `i` changed.
pub open spec fn only_control_changed(old: Seq<HardwareDef>, new: Seq<HardwareDef>, i: int) -> bool {
    &&& new.len() == old.len()
    &&& forall|j: int| 0 <= j < old.len() && j != i ==> #[trigger] new[j] == old[j]
}

/// Whether `n` and its answer are device `o` after `add_layer`.
pub open spec fn layer_added(o: DeviceConfig, name: Seq<char>, n: DeviceConfig) -> bool {
    &&& same_but_layers(o, n)
    &&& if layer_named(o.layers@, name) {
        n.layers@ == o.layers@
    } else {
        &&& n.layers@.len() == o.layers@.len() + 1
        &&& n.layers@.take(o.layers@.len() as int) == o.layers@
        &&& n.layers@.last().name@ == name
        &&& n.layers@.last().bank_offset == 0
        &&& n.layers@.last().icons@.len() == 0
    }
}

/// Adds an empty layer named `name` unless one exists.
pub fn add_layer(d: &mut DeviceConfig, name: String)
    ensures
        layer_added(*old(d), name@, *final(d)),
{
    let i = find_layer(&d.layers, name.as_str());
    if i == d.layers.len() {
        d.layers.push(LayerDef { name, bank_offset: 0, icons: Vec::new() });
        proof {
            assert(final(d).layers@.take(old(d).layers@.len() as int) =~= old(d).layers@);
        }
    } else {
        assert(d.layers@[i as int].name@ == name@);
    }
}

/// Holds of the layers not named `name`.
pub open spec fn not_named(name: Seq<char>) -> spec_fn(LayerDef) -> bool {
    |l: LayerDef| l.name@ != name
}

/// Whether `n` and its answer are device `o` after `remove_layer`.
pub open spec fn layer_removed(o: DeviceConfig, name: Seq<char>, n: DeviceConfig) -> bool {
    &&& same_but_layers(o, n)
    &&& n.layers@ == o.layers@.filter(not_named(name))
}

/// Removes every layer named `name`, keeping the order of the rest.
pub fn remove_layer(d: &mut DeviceConfig, name: &str)
    ensures
        layer_removed(*old(d), name@, *final(d)),
{
    let ghost pred = not_named(name@);
    let mut kept: Vec<LayerDef> = Vec::new();
    let mut rest: Vec<LayerDef> = Vec::new();
    core::mem::swap(&mut rest, &mut d.layers);
    let ghost all = rest@;
    let n = rest.len();
    let mut i: usize = 0;
    while i < n
        invariant
            n == all.len(),
            i <= n,
            rest@ == all.subrange(i as int, n as int),
            kept@ == all.take(i as int).filter(pred),
            pred == not_named(name@),
        decreases n - i,
    {
        let e = rest.remove(0);
        proof {
            assert(e == all[i as int]);
            assert(rest@ =~= all.subrange(i + 1, n as int));
            reveal(Seq::filter);
            assert(all.take(i + 1).drop_last() =~= all.take(i as int));
            assert(all.take(i + 1).last() == e);
        }
        if !str_eq(e.name.as_str(), name) {
            kept.push(e);
        }
        i = i + 1;
    }
    proof {
        assert(all.take(n as int) =~= all);
    }
    d.layers = kept;
}

/// Whether `n` and its answer are device `o` after `rename_layer`.
pub open spec fn layer_renamed(o: DeviceConfig, old_name: Seq<char>, new_name: Seq<char>, n: DeviceConfig, renamed: bool) -> bool {
    &&& same_but_layers(o, n)
    &&& renamed == (!is_blank(new_name) && (old_name == new_name || !layer_named(o.layers@, new_name)))
    &&& n.layers@.len() == o.layers@.len()
    &&& forall|k: int|
        0 <= k < o.layers@.len() ==> {
            let o = #[trigger] o.layers@[k];
            let n = n.layers@[k];
            &&& n.bank_offset == o.bank_offset
            &&& n.icons == o.icons
            &&& if renamed && o.name@ == old_name {
                n.name@ == new_name
            } else {
                n.name == o.name
            }
        }
}

/// Renames every layer named `old_name` to `new_name` when that rename is
/// allowed; answers whether it was.
pub fn rename_layer(d: &mut DeviceConfig, old_name: &str, new_name: &str) -> (renamed: bool)
    ensures
        layer_renamed(*old(d), old_name@, new_name@, *final(d), renamed),
{
    if !valid_layer_rename(d.layers.as_slice(), old_name, new_name) {
        return false;
    }
    let n = d.layers.len();
    let mut i: usize = 0;
    while i < n
        invariant
            n == old(d).layers@.len(),
            d.layers@.len() == n,
            i <= n,
            same_but_layers(*old(d), *d),
            forall|k: int|
                0 <= k < n ==> {
                    let o = #[trigger] old(d).layers@[k];
                    let nl = d.layers@[k];
                    &&& nl.bank_offset == o.bank_offset
                    &&& nl.icons == o.icons
                    &&& if k < i && o.name@ == old_name@ {
                        nl.name@ == new_name@
                    } else {
                        nl.name == o.name
                    }
                },
        decreases n - i,
    {
        if str_eq(d.layers[i].name.as_str(), old_name) {
            d.layers[i].name = new_name.to_owned();
        }
        i = i + 1;
    }
    true
}

/// Whether `n` and its answer are device `o` after `remove_hardware`.
pub open spec fn hardware_removed(o: DeviceConfig, id: Seq<char>, n: DeviceConfig) -> bool {
    &&& same_frame(o, n)
    &&& n.hardware@ == o.hardware@.filter(|h: HardwareDef| h.id@ != id)
    &&& n.layers@.len() == o.layers@.len()
    &&& forall|k: int|
        0 <= k < o.layers@.len() ==> {
            let o = #[trigger] o.layers@[k];
            let n = n.layers@[k];
            &&& n.name == o.name
            &&& n.bank_offset == o.bank_offset
            &&& n.icons@ == o.icons@.filter(|icon: LayerIcon| icon.hardware@ != id)
        }
}

/// Removes the controls with id `id` and the icons bound to them in every layer.
pub fn remove_hardware(d: &mut DeviceConfig, id: &str)
    ensures
        hardware_removed(*old(d), id@, *final(d)),
{
    let ghost pred = |h: HardwareDef| h.id@ != id@;
    let mut kept: Vec<HardwareDef> = Vec::new();
    let mut rest: Vec<HardwareDef> = Vec::new();
    core::mem::swap(&mut rest, &mut d.hardware);
    let ghost all = rest@;
    let n = rest.len();
    let mut i: usize = 0;
    while i < n
        invariant
            n == all.len(),
            i <= n,
            rest@ == all.subrange(i as int, n as int),
            kept@ == all.take(i as int).filter(pred),
            pred == (|h: HardwareDef| h.id@ != id@),
        decreases n - i,
    {
        let e = rest.remove(0);
        proof {
            assert(e == all[i as int]);
            assert(rest@ =~= all.subrange(i + 1, n as int));
            reveal(Seq::filter);
            assert(all.take(i + 1).drop_last() =~= all.take(i as int));
            assert(all.take(i + 1).last() == e);
        }
        if !str_eq(e.id.as_str(), id) {
            kept.push(e);
        }
        i = i + 1;
    }
    proof {
        assert(all.take(n as int) =~= all);
    }
    d.hardware = kept;
    let nl = d.layers.len();
    let mut k: usize = 0;
    while k < nl
        invariant
            nl == old(d).layers@.len(),
            d.layers@.len() == nl,
            k <= nl,
            same_frame(*old(d), *d),
            d.hardware@ == old(d).hardware@.filter(|h: HardwareDef| h.id@ != id@),
            forall|j: int|
                0 <= j < nl ==> {
                    let o = #[trigger] old(d).layers@[j];
                    let n = d.layers@[j];
                    &&& n.name == o.name
                    &&& n.bank_offset == o.bank_offset
                    &&& if j < k {
                        n.icons@ == o.icons@.filter(|icon: LayerIcon| icon.hardware@ != id@)
                    } else {
                        n.icons == o.icons
                    }
                },
        decreases nl - k,
    {
        drop_icons(&mut d.layers[k].icons, id);
        k = k + 1;
    }
}

/// Removes the icons bound to `id`, keeping the order of the rest.
fn drop_icons(icons: &mut Vec<LayerIcon>, id: &str)
    ensures
        final(icons)@ == old(icons)@.filter(|icon: LayerIcon| icon.hardware@ != id@),
{
    let ghost pred = |icon: LayerIcon| icon.hardware@ != id@;
    let mut kept: Vec<LayerIcon> = Vec::new();
    let mut rest: Vec<LayerIcon> = Vec::new();
    core::mem::swap(&mut rest, icons);
    let ghost all = rest@;
    let n = rest.len();
    let mut i: usize = 0;
    while i < n
        invariant
            n == all.len(),
            i <= n,
            rest@ == all.subrange(i as int, n as int),
            kept@ == all.take(i as int).filter(pred),
            pred == (|icon: LayerIcon| icon.hardware@ != id@),
        decreases n - i,
    {
        let e = rest.remove(0);
        proof {
            assert(e == all[i as int]);
            assert(rest@ =~= all.subrange(i + 1, n as int));
            reveal(Seq::filter);
            assert(all.take(i + 1).drop_last() =~= all.take(i as int));
            assert(all.take(i + 1).last() == e);
        }
        if !str_eq(e.hardware.as_str(), id) {
            kept.push(e);
        }
        i = i + 1;
    }
    proof {
        assert(all.take(n as int) =~= all);
    }
    *icons = kept;
}

/// Whether `n` and its answer are device `o` after `rename_hardware`.
pub open spec fn hardware_renamed(o: DeviceConfig, old_id: Seq<char>, new_id: Seq<char>, n: DeviceConfig, renamed: bool) -> bool {
    &&& same_frame(o, n)
    &&& ({
        let i = hardware_index(o.hardware@, old_id);
        &&& renamed == (i < o.hardware@.len())
        &&& if renamed {
            &&& only_control_changed(o.hardware@, n.hardware@, i)
            &&& n.hardware@[i].id@ == new_id
            &&& n.hardware@[i] == HardwareDef { id: n.hardware@[i].id, ..o.hardware@[i] }
            &&& layers_edited(IconChange::Rebind(new_id), old_id, o.layers@, n.layers@)
        } else {
            n == o
        }
    })
}

/// Renames the first control with id `old_id` to `new_id` and rebinds its
/// icons in every layer; answers whether such a control exists.
pub fn rename_hardware(d: &mut DeviceConfig, old_id: &str, new_id: &str) -> (renamed: bool)
    ensures
        hardware_renamed(*old(d), old_id@, new_id@, *final(d), renamed),
{
    let i = find_hardware(&d.hardware, old_id);
    if i == d.hardware.len() {
        return false;
    }
    let e = IconEdit::Rebind(new_id.to_owned());
    edit_layers(&mut d.layers, &e, old_id);
    d.hardware[i].id = new_id.to_owned();
    true
}

/// Whether `n` and its answer are device `o` after `add_input`.
pub open spec fn input_added(od: DeviceConfig, hw_id: Seq<char>, nd: DeviceConfig, added: bool) -> bool {
    &&& same_frame(od, nd)
    &&& nd.layers == od.layers
    &&& ({
        let i = hardware_index(od.hardware@, hw_id);
        let o = od.hardware@[i];
        let n = nd.hardware@[i];
        &&& added == (i < od.hardware@.len())
        &&& if added {
            &&& only_control_changed(od.hardware@, nd.hardware@, i)
            &&& n == HardwareDef { inputs: n.inputs, ..o }
            &&& n.inputs@.len() == o.inputs@.len() + 1
            &&& n.inputs@.take(o.inputs@.len() as int) == o.inputs@
            &&& is_next_free_id(seq!['i', 'n'], o.inputs@.map_values(|x: HardwareInput| x.label), n.inputs@.last().label@)
            &&& n.inputs@.last().kind == InputKind::Cc
            &&& n.inputs@.last().channel == 0
            &&& n.inputs@.last().number == 0
        } else {
            nd == od
        }
    })
}

/// Adds an input with a fresh label (CC, channel 0, number 0) to the first
/// control with id `hw_id`; answers whether that control exists.
pub fn add_input(d: &mut DeviceConfig, hw_id: &str) -> (added: bool)
    ensures
        input_added(*old(d), hw_id@, *final(d), added),
{
    let i = find_hardware(&d.hardware, hw_id);
    if i == d.hardware.len() {
        return false;
    }
    let label = next_input_label(&d.hardware[i]);
    d.hardware[i].inputs.push(HardwareInput { label, kind: InputKind::Cc, channel: 0, number: 0 });
    proof {
        let o = old(d).hardware@[i as int];
        assert(d.hardware@[i as int].inputs@.take(o.inputs@.len() as int) =~= o.inputs@);
    }
    true
}

/// Whether `n` and its answer are device `o` after `add_output`.
pub open spec fn output_added(od: DeviceConfig, hw_id: Seq<char>, nd: DeviceConfig, added: bool) -> bool {
    &&& same_frame(od, nd)
    &&& nd.layers == od.layers
    &&& ({
        let i = hardware_index(od.hardware@, hw_id);
        let o = od.hardware@[i];
        let n = nd.hardware@[i];
        &&& added == (i < od.hardware@.len())
        &&& if added {
            &&& only_control_changed(od.hardware@, nd.hardware@, i)
            &&& n == HardwareDef { outputs: n.outputs, ..o }
            &&& n.outputs@.len() == o.outputs@.len() + 1
            &&& n.outputs@.take(o.outputs@.len() as int) == o.outputs@
            &&& is_next_free_id(
                seq!['o', 'u', 't'],
                o.outputs@.map_values(|x: HardwareOutput| x.label),
                n.outputs@.last().label@,
            )
            &&& n.outputs@.last().kind == OutputKind::Led
            &&& n.outputs@.last().channel == 0
            &&& n.outputs@.last().number == 0
        } else {
            nd == od
        }
    })
}

/// Adds an output with a fresh label (LED, channel 0, number 0) to the first
/// control with id `hw_id`; answers whether that control exists.
pub fn add_output(d: &mut DeviceConfig, hw_id: &str) -> (added: bool)
    ensures
        output_added(*old(d), hw_id@, *final(d), added),
{
    let i = find_hardware(&d.hardware, hw_id);
    if i == d.hardware.len() {
        return false;
    }
    let label = next_output_label(&d.hardware[i]);
    d.hardware[i].outputs.push(HardwareOutput { label, kind: OutputKind::Led, channel: 0, number: 0 });
    proof {
        let o = old(d).hardware@[i as int];
        assert(d.hardware@[i as int].outputs@.take(o.outputs@.len() as int) =~= o.outputs@);
    }
    true
}

/// Whether `n` and its answer are device `o` after `remove_input`.
pub open spec fn input_removed(od: DeviceConfig, hw_id: Seq<char>, idx: usize, nd: DeviceConfig, removed: Option<String>) -> bool {
    &&& same_frame(od, nd)
    &&& ({
        let i = hardware_index(od.hardware@, hw_id);
        let o = od.hardware@[i];
        let n = nd.hardware@[i];
        if i < od.hardware@.len() && idx < o.inputs@.len() {
            &&& removed matches Some(l) && l == o.inputs@[idx as int].label
            &&& only_control_changed(od.hardware@, nd.hardware@, i)
            &&& n == HardwareDef { inputs: n.inputs, ..o }
            &&& n.inputs@ == o.inputs@.remove(idx as int)
            &&& layers_edited(IconChange::DropSignalInput(o.inputs@[idx as int].label@), hw_id, od.layers@, nd.layers@)
        } else {
            removed is None && nd == od
        }
    })
}

/// Removes input `idx` of the first control with id `hw_id`, and the signal
/// entries that listen to it in the icons bound to `hw_id`; gives the removed
/// input's label.
pub fn remove_input(d: &mut DeviceConfig, hw_id: &str, idx: usize) -> (removed: Option<String>)
    ensures
        input_removed(*old(d), hw_id@, idx, *final(d), removed),
{
    let i = find_hardware(&d.hardware, hw_id);
    if i == d.hardware.len() || idx >= d.hardware[i].inputs.len() {
        return None;
    }
    let input = d.hardware[i].inputs.remove(idx);
    let label = input.label;
    let e = IconEdit::DropSignalInput(label.clone());
    edit_layers(&mut d.layers, &e, hw_id);
    Some(label)
}

/// Whether `n` and its answer are device `o` after `remove_output`.
pub open spec fn output_removed(od: DeviceConfig, hw_id: Seq<char>, idx: usize, nd: DeviceConfig, removed: Option<String>) -> bool {
    &&& same_frame(od, nd)
    &&& ({
        let i = hardware_index(od.hardware@, hw_id);
        let o = od.hardware@[i];
        let n = nd.hardware@[i];
        if i < od.hardware@.len() && idx < o.outputs@.len() {
            &&& removed matches Some(l) && l == o.outputs@[idx as int].label
            &&& only_control_changed(od.hardware@, nd.hardware@, i)
            &&& n == HardwareDef { outputs: n.outputs, ..o }
            &&& n.outputs@ == o.outputs@.remove(idx as int)
            &&& layers_edited(IconChange::DropFeedbackOutput(o.outputs@[idx as int].label@), hw_id, od.layers@, nd.layers@)
        } else {
            removed is None && nd == od
        }
    })
}

/// Removes output `idx` of the first control with id `hw_id`, and the feedback
/// entries that drive it in the icons bound to `hw_id`; gives the removed
/// output's label.
pub fn remove_output(d: &mut DeviceConfig, hw_id: &str, idx: usize) -> (removed: Option<String>)
    ensures
        output_removed(*old(d), hw_id@, idx, *final(d), removed),
{
    let i = find_hardware(&d.hardware, hw_id);
    if i == d.hardware.len() || idx >= d.hardware[i].outputs.len() {
        return None;
    }
    let output = d.hardware[i].outputs.remove(idx);
    let label = output.label;
    let e = IconEdit::DropFeedbackOutput(label.clone());
    edit_layers(&mut d.layers, &e, hw_id);
    Some(label)
}

/// Whether `n` and its answer are device `o` after `rename_input`.
pub open spec fn input_renamed(od: DeviceConfig, hw_id: Seq<char>, idx: usize, label: String, nd: DeviceConfig, renamed: Option<String>) -> bool {
    &&& same_frame(od, nd)
    &&& ({
        let i = hardware_index(od.hardware@, hw_id);
        let o = od.hardware@[i];
        let n = nd.hardware@[i];
        if i < od.hardware@.len() && idx < o.inputs@.len() && o.inputs@[idx as int].label@ != label@ {
            &&& renamed matches Some(l) && l == o.inputs@[idx as int].label
            &&& only_control_changed(od.hardware@, nd.hardware@, i)
            &&& n == HardwareDef { inputs: n.inputs, ..o }
            &&& n.inputs@ == o.inputs@.update(idx as int, HardwareInput { label, ..o.inputs@[idx as int] })
            &&& layers_edited(
                IconChange::RenameSignalInput(o.inputs@[idx as int].label@, label@),
                hw_id,
                od.layers@,
                nd.layers@,
            )
        } else {
            renamed is None && nd == od
        }
    })
}

/// Renames input `idx` of the first control with id `hw_id` to `label`, and
/// the signal entries that listen to it in the icons bound to `hw_id`; gives
/// the former label when something changed.
pub fn rename_input(d: &mut DeviceConfig, hw_id: &str, idx: usize, label: String) -> (renamed: Option<String>)
    ensures
        input_renamed(*old(d), hw_id@, idx, label, *final(d), renamed),
{
    let i = find_hardware(&d.hardware, hw_id);
    if i == d.hardware.len() || idx >= d.hardware[i].inputs.len() {
        return None;
    }
    if d.hardware[i].inputs[idx].label == label {
        return None;
    }
    let old_label = d.hardware[i].inputs[idx].label.clone();
    let e = IconEdit::RenameSignalInput(old_label.clone(), label.clone());
    edit_layers(&mut d.layers, &e, hw_id);
    d.hardware[i].inputs[idx].label = label;
    proof {
        let o = old(d).hardware@[i as int];
        assert(d.hardware@[i as int].inputs@ =~= o.inputs@.update(
            idx as int,
            HardwareInput { label: d.hardware@[i as int].inputs@[idx as int].label, ..o.inputs@[idx as int] },
        ));
    }
    Some(old_label)
}

/// Whether `n` and its answer are device `o` after `rename_output`.
pub open spec fn output_renamed(od: DeviceConfig, hw_id: Seq<char>, idx: usize, label: String, nd: DeviceConfig, renamed: Option<String>) -> bool {
    &&& same_frame(od, nd)
    &&& ({
        let i = hardware_index(od.hardware@, hw_id);
        let o = od.hardware@[i];
        let n = nd.hardware@[i];
        if i < od.hardware@.len() && idx < o.outputs@.len() && o.outputs@[idx as int].label@ != label@ {
            &&& renamed matches Some(l) && l == o.outputs@[idx as int].label
            &&& only_control_changed(od.hardware@, nd.hardware@, i)
            &&& n == HardwareDef { outputs: n.outputs, ..o }
            &&& n.outputs@ == o.outputs@.update(idx as int, HardwareOutput { label, ..o.outputs@[idx as int] })
            &&& layers_edited(
                IconChange::RenameFeedbackOutput(o.outputs@[idx as int].label@, label@),
                hw_id,
                od.layers@,
                nd.layers@,
            )
        } else {
            renamed is None && nd == od
        }
    })
}

/// Renames output `idx` of the first control with id `hw_id` to `label`, and
/// the feedback entries that drive it in the icons bound to `hw_id`; gives the
/// former label when something changed.
pub fn rename_output(d: &mut DeviceConfig, hw_id: &str, idx: usize, label: String) -> (renamed: Option<String>)
    ensures
        output_renamed(*old(d), hw_id@, idx, label, *final(d), renamed),
{
    let i = find_hardware(&d.hardware, hw_id);
    if i == d.hardware.len() || idx >= d.hardware[i].outputs.len() {
        return None;
    }
    if d.hardware[i].outputs[idx].label == label {
        return None;
    }
    let old_label = d.hardware[i].outputs[idx].label.clone();
    let e = IconEdit::RenameFeedbackOutput(old_label.clone(), label.clone());
    edit_layers(&mut d.layers, &e, hw_id);
    d.hardware[i].outputs[idx].label = label;
    proof {
        let o = old(d).hardware@[i as int];
        assert(d.hardware@[i as int].outputs@ =~= o.outputs@.update(
            idx as int,
            HardwareOutput { label: d.hardware@[i as int].outputs@[idx as int].label, ..o.outputs@[idx as int] },
        ));
    }
    Some(old_label)
}

/// `input` with `field` set.
pub open spec fn input_with(input: HardwareInput, field: InputField) -> HardwareInput {
    match field {
        InputField::Kind(k) => HardwareInput { kind: k, ..input },
        InputField::Channel(c) => HardwareInput { channel: c, ..input },
        InputField::Number(n) => HardwareInput { number: n, ..input },
    }
}

/// `output` with `field` set.
pub open spec fn output_with(output: HardwareOutput, field: OutputField) -> HardwareOutput {
    match field {
        OutputField::Kind(k) => HardwareOutput { kind: k, ..output },
        OutputField::Channel(c) => HardwareOutput { channel: c, ..output },
        OutputField::Number(n) => HardwareOutput { number: n, ..output },
    }
}

/// Whether `n` and its answer are device `o` after `update_input`.
pub open spec fn input_updated(od: DeviceConfig, hw_id: Seq<char>, idx: usize, field: InputField, nd: DeviceConfig, updated: bool) -> bool {
    &&& same_frame(od, nd)
    &&& nd.layers == od.layers
    &&& ({
        let i = hardware_index(od.hardware@, hw_id);
        let o = od.hardware@[i];
        let n = nd.hardware@[i];
        &&& updated == (i < od.hardware@.len() && idx < o.inputs@.len())
        &&& if updated {
            &&& only_control_changed(od.hardware@, nd.hardware@, i)
            &&& n == HardwareDef { inputs: n.inputs, ..o }
            &&& n.inputs@ == o.inputs@.update(idx as int, input_with(o.inputs@[idx as int], field))
        } else {
            nd == od
        }
    })
}

/// Sets `field` of input `idx` of the first control with id `hw_id`; answers
/// whether that input exists.
pub fn update_input(d: &mut DeviceConfig, hw_id: &str, idx: usize, field: InputField) -> (updated: bool)
    ensures
        input_updated(*old(d), hw_id@, idx, field, *final(d), updated),
{
    let i = find_hardware(&d.hardware, hw_id);
    if i == d.hardware.len() || idx >= d.hardware[i].inputs.len() {
        return false;
    }
    match field {
        InputField::Kind(k) => d.hardware[i].inputs[idx].kind = k,
        InputField::Channel(c) => d.hardware[i].inputs[idx].channel = c,
        InputField::Number(n) => d.hardware[i].inputs[idx].number = n,
    }
    proof {
        let o = old(d).hardware@[i as int];
        assert(d.hardware@[i as int].inputs@ =~= o.inputs@.update(idx as int, input_with(o.inputs@[idx as int], field)));
    }
    true
}

/// Whether `n` and its answer are device `o` after `update_output`.
pub open spec fn output_updated(od: DeviceConfig, hw_id: Seq<char>, idx: usize, field: OutputField, nd: DeviceConfig, updated: bool) -> bool {
    &&& same_frame(od, nd)
    &&& nd.layers == od.layers
    &&& ({
        let i = hardware_index(od.hardware@, hw_id);
        let o = od.hardware@[i];
        let n = nd.hardware@[i];
        &&& updated == (i < od.hardware@.len() && idx < o.outputs@.len())
        &&& if updated {
            &&& only_control_changed(od.hardware@, nd.hardware@, i)
            &&& n == HardwareDef { outputs: n.outputs, ..o }
            &&& n.outputs@ == o.outputs@.update(idx as int, output_with(o.outputs@[idx as int], field))
        } else {
            nd == od
        }
    })
}

/// Sets `field` of output `idx` of the first control with id `hw_id`; answers
/// whether that output exists.
pub fn update_output(d: &mut DeviceConfig, hw_id: &str, idx: usize, field: OutputField) -> (updated: bool)
    ensures
        output_updated(*old(d), hw_id@, idx, field, *final(d), updated),
{
    let i = find_hardware(&d.hardware, hw_id);
    if i == d.hardware.len() || idx >= d.hardware[i].outputs.len() {
        return false;
    }
    match field {
        OutputField::Kind(k) => d.hardware[i].outputs[idx].kind = k,
        OutputField::Channel(c) => d.hardware[i].outputs[idx].channel = c,
        OutputField::Number(n) => d.hardware[i].outputs[idx].number = n,
    }
    proof {
        let o = old(d).hardware@[i as int];
        assert(d.hardware@[i as int].outputs@ =~= o.outputs@.update(idx as int, output_with(o.outputs@[idx as int], field)));
    }
    true
}

/// Whether `n` and its answer are device `o` after `set_hardware_type`.
pub open spec fn type_set(o: DeviceConfig, hw_id: Seq<char>, t: IconType, n: DeviceConfig, updated: bool) -> bool {
    &&& same_frame(o, n)
    &&& n.layers == o.layers
    &&& ({
        let i = hardware_index(o.hardware@, hw_id);
        &&& updated == (i < o.hardware@.len())
        &&& if updated {
            n.hardware@ == o.hardware@.update(i, HardwareDef { hw_type: t, ..o.hardware@[i] })
        } else {
            n == o
        }
    })
}

/// Sets the type of the first control with id `hw_id`; answers whether it exists.
pub fn set_hardware_type(d: &mut DeviceConfig, hw_id: &str, t: IconType) -> (updated: bool)
    ensures
        type_set(*old(d), hw_id@, t, *final(d), updated),
{
    let i = find_hardware(&d.hardware, hw_id);
    if i == d.hardware.len() {
        return false;
    }
    d.hardware[i].hw_type = t;
    proof {
        assert(d.hardware@ =~= old(d).hardware@.update(i as int, HardwareDef { hw_type: t, ..old(d).hardware@[i as int] }));
    }
    true
}

/// The larger of `v` and 1.
pub open spec fn at_least_one(v: u8) -> u8 {
    if v == 0 { 1 } else { v }
}

/// Whether `n` and its answer are device `o` after `set_hardware_span`.
pub open spec fn span_set(o: DeviceConfig, hw_id: Seq<char>, cols: u8, rows: u8, n: DeviceConfig, updated: bool) -> bool {
    &&& same_frame(o, n)
    &&& n.layers == o.layers
    &&& ({
        let i = hardware_index(o.hardware@, hw_id);
        &&& updated == (i < o.hardware@.len())
        &&& if updated {
            n.hardware@ == o.hardware@.update(
                i,
                HardwareDef { col_span: at_least_one(cols), row_span: at_least_one(rows), ..o.hardware@[i] },
            )
        } else {
            n == o
        }
    })
}

/// Sets the span of the first control with id `hw_id`, each at least one
/// cell; answers whether it exists.
pub fn set_hardware_span(d: &mut DeviceConfig, hw_id: &str, cols: u8, rows: u8) -> (updated: bool)
    ensures
        span_set(*old(d), hw_id@, cols, rows, *final(d), updated),
{
    let i = find_hardware(&d.hardware, hw_id);
    if i == d.hardware.len() {
        return false;
    }
    d.hardware[i].col_span = if cols == 0 { 1 } else { cols };
    d.hardware[i].row_span = if rows == 0 { 1 } else { rows };
    proof {
        assert(d.hardware@ =~= old(d).hardware@.update(
            i as int,
            HardwareDef { col_span: at_least_one(cols), row_span: at_least_one(rows), ..old(d).hardware@[i as int] },
        ));
    }
    true
}

/// Whether `n` and its answer are device `o` after `add_hardware_at`.
pub open spec fn hardware_added_at(o: DeviceConfig, col: u8, row: u8, n: DeviceConfig, idx: usize) -> bool {
    &&& same_frame(o, n)
    &&& n.layers == o.layers
    &&& idx == o.hardware@.len()
    &&& n.hardware@.len() == o.hardware@.len() + 1
    &&& n.hardware@.take(idx as int) == o.hardware@
    &&& ({
        let h = n.hardware@[idx as int];
        &&& is_next_free_id(seq!['h', 'w'], o.hardware@.map_values(|x: HardwareDef| x.id), h.id@)
        &&& h.hw_type == IconType::Button
        &&& h.col == col && h.row == row && h.col_span == 1 && h.row_span == 1
        &&& h.inputs@.len() == 0 && h.outputs@.len() == 0
        &&& hardware_index(n.hardware@, h.id@) == idx
    })
}

/// Places a new one-cell button with a fresh id and no endpoints at
/// (`col`, `row`); gives its position, which is also the first with its id.
pub fn add_hardware_at(d: &mut DeviceConfig, col: u8, row: u8) -> (idx: usize)
    ensures
        hardware_added_at(*old(d), col, row, *final(d), idx),
{
    let id = next_hardware_id(d);
    let ghost taken = old(d).hardware@.map_values(|x: HardwareDef| x.id);
    d.hardware.push(
        HardwareDef {
            id,
            hw_type: IconType::Button,
            col,
            row,
            col_span: 1,
            row_span: 1,
            inputs: Vec::new(),
            outputs: Vec::new(),
        },
    );
    let idx = d.hardware.len() - 1;
    proof {
        assert(d.hardware@.take(idx as int) =~= old(d).hardware@);
        let h = d.hardware@[idx as int];
        assert forall|j: int| 0 <= j < idx implies #[trigger] d.hardware@[j].id@ != h.id@ by {
            assert(taken[j] == old(d).hardware@[j].id);
            if d.hardware@[j].id@ == h.id@ {
                assert(crate::ids::names_contain(taken, h.id@));
            }
        }
        crate::edit::lemma_hardware_index_at(d.hardware@, h.id@, idx as int);
    }
    idx
}

/// Whether `n` and its answer are device `o` after `learn_input`.
pub open spec fn input_learned(od: DeviceConfig, hw_id: Seq<char>, idx: usize, kind: InputKind, channel: u8, number: u8, nd: DeviceConfig, learned: bool) -> bool {
    &&& same_frame(od, nd)
    &&& nd.layers == od.layers
    &&& ({
        let i = hardware_index(od.hardware@, hw_id);
        let o = od.hardware@[i];
        let n = nd.hardware@[i];
        &&& learned == (i < od.hardware@.len() && idx < o.inputs@.len())
        &&& if learned {
            &&& only_control_changed(od.hardware@, nd.hardware@, i)
            &&& n == HardwareDef { inputs: n.inputs, ..o }
            &&& n.inputs@ == o.inputs@.update(
                idx as int,
                HardwareInput {
                    kind,
                    channel,
                    number: if kind == InputKind::PitchBend { 0 } else { number },
                    ..o.inputs@[idx as int]
                },
            )
        } else {
            nd == od
        }
    })
}

/// Binds input `idx` of the first control with id `hw_id` to the message
/// kind, channel and number just received (number 0 for pitch bend);
/// answers whether that input exists.
pub fn learn_input(d: &mut DeviceConfig, hw_id: &str, idx: usize, kind: InputKind, channel: u8, number: u8) -> (learned: bool)
    ensures
        input_learned(*old(d), hw_id@, idx, kind, channel, number, *final(d), learned),
{
    let i = find_hardware(&d.hardware, hw_id);
    if i == d.hardware.len() || idx >= d.hardware[i].inputs.len() {
        return false;
    }
    d.hardware[i].inputs[idx].kind = kind;
    d.hardware[i].inputs[idx].channel = channel;
    d.hardware[i].inputs[idx].number = match kind {
        InputKind::PitchBend => 0,
        _ => number,
    };
    proof {
        let o = old(d).hardware@[i as int];
        assert(d.hardware@[i as int].inputs@ =~= o.inputs@.update(
            idx as int,
            HardwareInput {
                kind,
                channel,
                number: if kind == InputKind::PitchBend { 0 } else { number },
                ..o.inputs@[idx as int]
            },
        ));
    }
    true
}

/// Whether `nl` is layer `ol` after `e` was applied to the software of its
/// icon for control `hw`, creating an empty one first when the layer had none,
/// with `changed` telling whether `e` changed anything.
pub open spec fn layer_software_edited(ol: LayerDef, hw: Seq<char>, e: SoftwareEdit, nl: LayerDef, changed: bool) -> bool {
    let k = crate::config::icon_index(ol.icons@, hw);
    &&& nl.name == ol.name
    &&& nl.bank_offset == ol.bank_offset
    &&& if k < ol.icons@.len() {
        &&& nl.icons@ == ol.icons@.update(k, LayerIcon { hardware: ol.icons@[k].hardware, software: nl.icons@[k].software })
        &&& is_edit(ol.icons@[k].software@, e, nl.icons@[k].software@, changed)
    } else {
        &&& nl.icons@.len() == ol.icons@.len() + 1
        &&& nl.icons@.take(ol.icons@.len() as int) == ol.icons@
        &&& nl.icons@.last().hardware@ == hw
        &&& is_edit(empty_software(), e, nl.icons@.last().software@, changed)
    }
}

/// Whether `n` and its answer are device `o` after `edit_layer_software`.
pub open spec fn layer_software_changed(o: DeviceConfig, layer_name: Seq<char>, icon_idx: usize, e: SoftwareEdit, n: DeviceConfig, r: Option<bool>) -> bool {
    &&& same_but_layers(o, n)
    &&& ({
        let li = layer_index(o.layers@, layer_name);
        if icon_idx < o.hardware@.len() && li < o.layers@.len() {
            &&& r is Some
            &&& n.layers@ == o.layers@.update(li, n.layers@[li])
            &&& layer_software_edited(
                o.layers@[li],
                o.hardware@[icon_idx as int].id@,
                e,
                n.layers@[li],
                r->0,
            )
        } else {
            r is None && n == o
        }
    })
}

/// Applies `e` to the software of control `icon_idx` in the layer named
/// `layer_name`; `None` when there is no such control or layer, else whether
/// `e` changed anything.
pub fn edit_layer_software(d: &mut DeviceConfig, layer_name: &str, icon_idx: usize, e: SoftwareEdit) -> (r: Option<bool>)
    ensures
        layer_software_changed(*old(d), layer_name@, icon_idx, e, *final(d), r),
{
    let li = find_layer(&d.layers, layer_name);
    if icon_idx >= d.hardware.len() || li == d.layers.len() {
        return None;
    }
    let hw_id = d.hardware[icon_idx].id.clone();
    let ghost ol = d.layers@[li as int];
    let mut layer = d.layers.remove(li);
    let k = crate::config::find_icon(&layer.icons, hw_id.as_str());
    proof {
        crate::config::lemma_icon_index(ol.icons@, hw_id@);
    }
    let changed;
    if k < layer.icons.len() {
        let mut icon = layer.icons.remove(k);
        changed = apply_edit(&mut icon.software, e);
        layer.icons.insert(k, icon);
        proof {
            assert(layer.icons@ =~= ol.icons@.update(
                k as int,
                LayerIcon { hardware: ol.icons@[k as int].hardware, software: layer.icons@[k as int].software },
            ));
        }
    } else {
        let mut sw = crate::config::SoftwareDef::new();
        proof {
            assert(sw@ =~= empty_software()) by {
                assert(sw@.signals =~= Seq::empty());
            }
        }
        changed = apply_edit(&mut sw, e);
        layer.icons.push(LayerIcon { hardware: hw_id, software: sw });
        proof {
            assert(layer.icons@.take(ol.icons@.len() as int) =~= ol.icons@);
        }
    }
    d.layers.insert(li, layer);
    proof {
        assert(d.layers@ =~= old(d).layers@.update(li as int, d.layers@[li as int]));
    }
    Some(changed)
}

} // verus!
