use vstd::prelude::*;
use crate::config::{FeedbackEntry, HardwareDef, HardwareInput, HardwareOutput, OutputKind, SignalEntry};
use crate::jobs::{find_output, output_index};
use crate::pipewire::{PwObject, PwObjectType};
use crate::text::{decimal, push_decimal, str_eq};
use crate::ui::kind_names;

verus! {

/// Whether a picker filtered by `filter` offers an object of type `t`: the
/// two sentinel filters stand for a pair of types, any other for itself.
pub open spec fn spec_offered(filter: PwObjectType, t: PwObjectType) -> bool {
    match filter {
        PwObjectType::SinkOrSource => t == PwObjectType::Sink || t == PwObjectType::Source,
        PwObjectType::StreamOrSource => t == PwObjectType::Stream || t == PwObjectType::Source,
        _ => t == filter,
    }
}

pub fn offered(filter: PwObjectType, t: PwObjectType) -> (r: bool)
    ensures
        r == spec_offered(filter, t),
{
    match filter {
        PwObjectType::SinkOrSource => t == PwObjectType::Sink || t == PwObjectType::Source,
        PwObjectType::StreamOrSource => t == PwObjectType::Stream || t == PwObjectType::Source,
        _ => t == filter,
    }
}

/// An entry of a PipeWire object picker: the text shown and the value stored
/// (the node name, which unlike the numeric id survives a reboot).
#[derive(Debug, PartialEq, Eq)]
pub struct PwOption {
    pub label: String,
    pub id: String,
}

impl Clone for PwOption {
    fn clone(&self) -> (r: Self)
        ensures
            r == *self,
    {
        PwOption { label: self.label.clone(), id: self.id.clone() }
    }
}

/// The entry offered for object `o`: `description (id)`, storing its name.
pub open spec fn option_of(o: PwObject) -> (Seq<char>, Seq<char>) {
    (o.description@ + " ("@ + decimal(o.id as nat) + ")"@, o.name@)
}

/// The entries for the objects that `filter` offers, in order.
pub open spec fn offered_options(objects: Seq<PwObject>, filter: PwObjectType) -> Seq<(Seq<char>, Seq<char>)>
    decreases objects.len(),
{
    if objects.len() == 0 {
        Seq::empty()
    } else {
        let rest = offered_options(objects.drop_last(), filter);
        if spec_offered(filter, objects.last().object_type) {
            rest.push(option_of(objects.last()))
        } else {
            rest
        }
    }
}

/// Whether some entry of `opts` stores `id`.
pub open spec fn stores(opts: Seq<(Seq<char>, Seq<char>)>, id: Seq<char>) -> bool {
    exists|k: int| 0 <= k < opts.len() && #[trigger] opts[k].1 == id
}

/// The picker's entries: the offered objects, then the current value marked
/// `[custom]` when it is set and no offered object stores it.
pub open spec fn picker_options(objects: Seq<PwObject>, filter: PwObjectType, current: Seq<char>) -> Seq<(Seq<char>, Seq<char>)> {
    let base = offered_options(objects, filter);
    if current.len() > 0 && !stores(base, current) {
        base.push(("[custom] "@ + current, current))
    } else {
        base
    }
}

/// The entry as plain text.
pub open spec fn option_view(o: PwOption) -> (Seq<char>, Seq<char>) {
    (o.label@, o.id@)
}

/// The entries of a picker of PipeWire objects of kind `filter` whose value
/// is now `current`.
pub fn pw_options(objects: &[PwObject], filter: PwObjectType, current: &str) -> (r: Vec<PwOption>)
    ensures
        r@.map_values(|o: PwOption| option_view(o)) == picker_options(objects@, filter, current@),
{
    let mut r: Vec<PwOption> = Vec::new();
    let mut i: usize = 0;
    proof {
        assert(objects@.take(0) =~= Seq::<PwObject>::empty());
        assert(r@.map_values(|o: PwOption| option_view(o)) =~= offered_options(objects@.take(0), filter));
    }
    while i < objects.len()
        invariant
            i <= objects@.len(),
            r@.map_values(|o: PwOption| option_view(o)) == offered_options(objects@.take(i as int), filter),
        decreases objects@.len() - i,
    {
        let o = &objects[i];
        proof {
            assert(objects@.take(i + 1).drop_last() =~= objects@.take(i as int));
        }
        if offered(filter, o.object_type) {
            let mut label = o.description.clone();
            label.append(" (");
            push_decimal(&mut label, o.id as u64);
            label.append(")");
            let ghost before = r@;
            r.push(PwOption { label, id: o.name.clone() });
            proof {
                assert(r@.map_values(|o: PwOption| option_view(o)) =~= before.map_values(|o: PwOption| option_view(o)).push(
                    option_of(objects@[i as int]),
                ));
            }
        }
        i = i + 1;
    }
    proof {
        assert(objects@.take(objects@.len() as int) =~= objects@);
    }
    let ghost base = r@.map_values(|o: PwOption| option_view(o));
    if current.unicode_len() > 0 {
        let mut found = false;
        let mut k: usize = 0;
        while k < r.len()
            invariant
                k <= r@.len(),
                base == r@.map_values(|o: PwOption| option_view(o)),
                found == exists|j: int| 0 <= j < k && #[trigger] base[j].1 == current@,
            decreases r@.len() - k,
        {
            if str_eq(r[k].id.as_str(), current) {
                assert(base[k as int].1 == current@);
                found = true;
            }
            k = k + 1;
        }
        if !found {
            let mut label = String::new();
            label.append("[custom] ");
            label.append(current);
            r.push(PwOption { label, id: current.to_owned() });
            proof {
                assert(r@.map_values(|o: PwOption| option_view(o)) =~= base.push(("[custom] "@ + current@, current@)));
            }
        }
    }
    r
}

/// The labels of `inputs`, in order.
pub open spec fn input_labels(inputs: Seq<HardwareInput>) -> Seq<Seq<char>> {
    inputs.map_values(|i: HardwareInput| i.label@)
}

/// The labels of `outputs`, in order.
pub open spec fn output_labels(outputs: Seq<HardwareOutput>) -> Seq<Seq<char>> {
    outputs.map_values(|o: HardwareOutput| o.label@)
}

/// Whether a signal entry other than the `skip`-th listens to input `label`.
pub open spec fn signal_uses(entries: Seq<SignalEntry>, skip: int, label: Seq<char>) -> bool {
    exists|k: int| 0 <= k < entries.len() && k != skip && #[trigger] entries[k].input@ == label
}

/// Whether a feedback entry other than the `skip`-th drives output `label`.
pub open spec fn feedback_uses(entries: Seq<FeedbackEntry>, skip: int, label: Seq<char>) -> bool {
    exists|k: int| 0 <= k < entries.len() && k != skip && #[trigger] entries[k].output@ == label
}

fn signal_uses_exec(entries: &[SignalEntry], skip: usize, label: &str) -> (r: bool)
    ensures
        r == signal_uses(entries@, skip as int, label@),
{
    let mut k: usize = 0;
    while k < entries.len()
        invariant
            k <= entries@.len(),
            forall|j: int| 0 <= j < k && j != skip ==> #[trigger] entries@[j].input@ != label@,
        decreases entries@.len() - k,
    {
        if k != skip && str_eq(entries[k].input.as_str(), label) {
            return true;
        }
        k = k + 1;
    }
    false
}

fn feedback_uses_exec(entries: &[FeedbackEntry], skip: usize, label: &str) -> (r: bool)
    ensures
        r == feedback_uses(entries@, skip as int, label@),
{
    let mut k: usize = 0;
    while k < entries.len()
        invariant
            k <= entries@.len(),
            forall|j: int| 0 <= j < k && j != skip ==> #[trigger] entries@[j].output@ != label@,
        decreases entries@.len() - k,
    {
        if k != skip && str_eq(entries[k].output.as_str(), label) {
            return true;
        }
        k = k + 1;
    }
    false
}

/// The inputs the `skip`-th signal entry may listen to: those of `hw` that no
/// other entry uses, in order, by label.
pub fn free_input_labels(hw: &HardwareDef, entries: &[SignalEntry], skip: usize) -> (r: Vec<String>)
    ensures
        r@.map_values(|s: String| s@) == input_labels(hw.inputs@).filter(
            |l: Seq<char>| !signal_uses(entries@, skip as int, l),
        ),
{
    let ghost pred = |l: Seq<char>| !signal_uses(entries@, skip as int, l);
    let ghost all = input_labels(hw.inputs@);
    let mut r: Vec<String> = Vec::new();
    let mut i: usize = 0;
    proof {
        assert(all.take(0) =~= Seq::<Seq<char>>::empty());
        assert(r@.map_values(|s: String| s@) =~= all.take(0).filter(pred));
    }
    while i < hw.inputs.len()
        invariant
            i <= hw.inputs@.len(),
            all == input_labels(hw.inputs@),
            pred == (|l: Seq<char>| !signal_uses(entries@, skip as int, l)),
            r@.map_values(|s: String| s@) == all.take(i as int).filter(pred),
        decreases hw.inputs@.len() - i,
    {
        let label = &hw.inputs[i].label;
        proof {
            assert(all.take(i + 1) =~= all.take(i as int).push(label@));
            all.take(i as int).lemma_filter_push(label@, pred);
        }
        let ghost before = r@;
        if !signal_uses_exec(entries, skip, label.as_str()) {
            r.push(label.clone());
            proof {
                assert(r@.map_values(|s: String| s@) =~= before.map_values(|s: String| s@).push(label@));
            }
        }
        i = i + 1;
    }
    proof {
        assert(all.take(hw.inputs@.len() as int) =~= all);
    }
    r
}

/// The outputs the `skip`-th feedback entry may drive: those of `hw` that no
/// other entry uses, in order, by label.
pub fn free_output_labels(hw: &HardwareDef, entries: &[FeedbackEntry], skip: usize) -> (r: Vec<String>)
    ensures
        r@.map_values(|s: String| s@) == output_labels(hw.outputs@).filter(
            |l: Seq<char>| !feedback_uses(entries@, skip as int, l),
        ),
{
    let ghost pred = |l: Seq<char>| !feedback_uses(entries@, skip as int, l);
    let ghost all = output_labels(hw.outputs@);
    let mut r: Vec<String> = Vec::new();
    let mut i: usize = 0;
    proof {
        assert(all.take(0) =~= Seq::<Seq<char>>::empty());
        assert(r@.map_values(|s: String| s@) =~= all.take(0).filter(pred));
    }
    while i < hw.outputs.len()
        invariant
            i <= hw.outputs@.len(),
            all == output_labels(hw.outputs@),
            pred == (|l: Seq<char>| !feedback_uses(entries@, skip as int, l)),
            r@.map_values(|s: String| s@) == all.take(i as int).filter(pred),
        decreases hw.outputs@.len() - i,
    {
        let label = &hw.outputs[i].label;
        proof {
            assert(all.take(i + 1) =~= all.take(i as int).push(label@));
            all.take(i as int).lemma_filter_push(label@, pred);
        }
        let ghost before = r@;
        if !feedback_uses_exec(entries, skip, label.as_str()) {
            r.push(label.clone());
            proof {
                assert(r@.map_values(|s: String| s@) =~= before.map_values(|s: String| s@).push(label@));
            }
        }
        i = i + 1;
    }
    proof {
        assert(all.take(hw.outputs@.len() as int) =~= all);
    }
    r
}

/// The kind of the first output of `hw` labelled `label`, if any.
pub fn output_kind(hw: &HardwareDef, label: &str) -> (r: Option<OutputKind>)
    ensures
        ({
            let i = output_index(hw.outputs@, label@);
            match r {
                Some(k) => i < hw.outputs@.len() && k == hw.outputs@[i].kind,
                None => i >= hw.outputs@.len(),
            }
        }),
{
    let i = find_output(&hw.outputs, label);
    if i < hw.outputs.len() {
        Some(hw.outputs[i].kind)
    } else {
        None
    }
}

/// The source kinds offered for the operands of a comparison: every kind
/// that nests no other source, in picker order.
pub fn leaf_source_type_names() -> (v: Vec<&'static str>)
    ensures
        v@ == kind_names().take(8),
{
    let mut v: Vec<&'static str> = Vec::new();
    v.push("Direct");
    v.push("HardwareInput");
    v.push("Volume");
    v.push("Muted");
    v.push("RouteActive");
    v.push("LayerActive");
    v.push("Bank");
    v.push("Custom");
    proof {
        assert(v@ =~= kind_names().take(8));
    }
    v
}

} // verus!
