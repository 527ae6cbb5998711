use vstd::prelude::*;
use vstd::set_lib::*;
use vstd::relations::injective_on;
use crate::config::{DeviceConfig, HardwareDef, LayerDef};
use crate::text::{decimal, lemma_decimal_injective, push_decimal, str_eq};

verus! {

/// Whether some name in `names` has the characters `s`.
pub open spec fn names_contain(names: Seq<String>, s: Seq<char>) -> bool {
    exists|j: int| 0 <= j < names.len() && #[trigger] names[j]@ == s
}

/// The candidate identifier number `i` for `prefix`.
pub open spec fn candidate_id(prefix: Seq<char>, i: nat) -> Seq<char> {
    prefix + decimal(i)
}

/// Whether `id` is `prefix` followed by the smallest number whose candidate
/// is not in `taken`.
pub open spec fn is_next_free_id(prefix: Seq<char>, taken: Seq<String>, id: Seq<char>) -> bool {
    exists|i: nat|
        #![trigger candidate_id(prefix, i)]
        id == candidate_id(prefix, i) && !names_contain(taken, id) && forall|j: nat|
            j < i ==> names_contain(taken, #[trigger] candidate_id(prefix, j))
}

/// Whether `s` occurs in `names`.
pub fn contains_name(names: &[String], s: &str) -> (r: bool)
    ensures
        r == names_contain(names@, s@),
{
    let mut j: usize = 0;
    while j < names.len()
        invariant
            j <= names@.len(),
            forall|k: int| 0 <= k < j ==> #[trigger] names@[k]@ != s@,
        decreases names@.len() - j,
    {
        if str_eq(names[j].as_str(), s) {
            return true;
        }
        j = j + 1;
    }
    false
}

proof fn lemma_candidate_injective(prefix: Seq<char>, a: nat, b: nat)
    requires
        candidate_id(prefix, a) == candidate_id(prefix, b),
    ensures
        a == b,
{
    let ca = candidate_id(prefix, a);
    let cb = candidate_id(prefix, b);
    assert(ca.subrange(prefix.len() as int, ca.len() as int) =~= decimal(a));
    assert(cb.subrange(prefix.len() as int, cb.len() as int) =~= decimal(b));
    lemma_decimal_injective(a, b);
}

/// At most `names.len()` candidates can be taken, so one of the first
/// `names.len() + 1` is free.
proof fn lemma_some_candidate_free(prefix: Seq<char>, names: Seq<String>)
    ensures
        exists|i: nat| i <= names.len() && !names_contain(names, #[trigger] candidate_id(prefix, i)),
{
    if forall|i: nat| i <= names.len() ==> names_contain(names, #[trigger] candidate_id(prefix, i)) {
        let views = names.map_values(|s: String| s@);
        let taken = views.to_set();
        views.lemma_cardinality_of_set();
        let range = set_int_range(0, names.len() as int + 1);
        lemma_int_range(0, names.len() as int + 1);
        let f = |i: int| candidate_id(prefix, i as nat);
        let image = range.map(f);
        assert(injective_on(f, range)) by {
            assert forall|a: int, b: int| range.contains(a) && range.contains(b) && #[trigger] f(a) == #[trigger] f(b) implies a == b by {
                lemma_candidate_injective(prefix, a as nat, b as nat);
            }
        }
        lemma_map_size(range, image, f);
        assert(image.subset_of(taken)) by {
            assert forall|x: Seq<char>| image.contains(x) implies taken.contains(x) by {
                let i = choose|i: int| range.contains(i) && f(i) == x;
                assert(names_contain(names, candidate_id(prefix, i as nat)));
                let j = choose|j: int| 0 <= j < names.len() && #[trigger] names[j]@ == candidate_id(prefix, i as nat);
                assert(views[j] == x);
            }
        }
        lemma_len_subset(image, taken);
        assert(false);
    }
}

/// The first identifier `prefix` + `i` (`i` = 0, 1, 2, …) that is not in `taken`.
pub fn next_free_id(prefix: &str, taken: &[String]) -> (id: String)
    ensures
        is_next_free_id(prefix@, taken@, id@),
{
    let n = taken.len();
    let mut i: usize = 0;
    loop
        invariant
            n == taken@.len(),
            i <= n,
            forall|j: nat| j < i ==> names_contain(taken@, #[trigger] candidate_id(prefix@, j)),
        decreases n - i,
    {
        let mut cand = prefix.to_owned();
        push_decimal(&mut cand, i as u64);
        assert(cand@ == candidate_id(prefix@, i as nat));
        if !contains_name(taken, cand.as_str()) {
            return cand;
        }
        if i == n {
            proof {
                lemma_some_candidate_free(prefix@, taken@);
                let k = choose|k: nat| k <= taken@.len() && !names_contain(taken@, #[trigger] candidate_id(prefix@, k));
                if k < i {
                } else {
                    assert(k == i);
                }
            }
            return cand;
        }
        i = i + 1;
    }
}

/// Removes and returns the element at `idx`, or `None` when out of range.
pub fn take_at<T>(list: &mut Vec<T>, idx: usize) -> (r: Option<T>)
    ensures
        idx < old(list)@.len() ==> r == Some(old(list)@[idx as int]) && final(list)@ == old(list)@.remove(idx as int),
        idx >= old(list)@.len() ==> r is None && final(list)@ == old(list)@,
{
    if idx < list.len() {
        Some(list.remove(idx))
    } else {
        None
    }
}

/// A fresh hardware id for `device`: `hw0`, `hw1`, … skipping those in use.
pub fn next_hardware_id(device: &DeviceConfig) -> (id: String)
    ensures
        is_next_free_id(seq!['h', 'w'], device.hardware@.map_values(|h: HardwareDef| h.id), id@),
{
    let mut taken: Vec<String> = Vec::new();
    let mut k: usize = 0;
    while k < device.hardware.len()
        invariant
            k <= device.hardware@.len(),
            taken@ == device.hardware@.take(k as int).map_values(|h: HardwareDef| h.id),
        decreases device.hardware@.len() - k,
    {
        taken.push(device.hardware[k].id.clone());
        k = k + 1;
        proof {
            assert(taken@ =~= device.hardware@.take(k as int).map_values(|h: HardwareDef| h.id));
        }
    }
    proof {
        assert(device.hardware@.take(k as int) =~= device.hardware@);
        reveal_strlit("hw");
        assert("hw"@ =~= seq!['h', 'w']);
    }
    next_free_id("hw", taken.as_slice())
}

/// A fresh input label for `hw`: `in0`, `in1`, … skipping those in use.
pub fn next_input_label(hw: &HardwareDef) -> (label: String)
    ensures
        is_next_free_id(seq!['i', 'n'], hw.inputs@.map_values(|i: crate::config::HardwareInput| i.label), label@),
{
    let mut taken: Vec<String> = Vec::new();
    let mut k: usize = 0;
    while k < hw.inputs.len()
        invariant
            k <= hw.inputs@.len(),
            taken@ == hw.inputs@.take(k as int).map_values(|i: crate::config::HardwareInput| i.label),
        decreases hw.inputs@.len() - k,
    {
        taken.push(hw.inputs[k].label.clone());
        k = k + 1;
        proof {
            assert(taken@ =~= hw.inputs@.take(k as int).map_values(|i: crate::config::HardwareInput| i.label));
        }
    }
    proof {
        assert(hw.inputs@.take(k as int) =~= hw.inputs@);
        reveal_strlit("in");
        assert("in"@ =~= seq!['i', 'n']);
    }
    next_free_id("in", taken.as_slice())
}

/// A fresh output label for `hw`: `out0`, `out1`, … skipping those in use.
pub fn next_output_label(hw: &HardwareDef) -> (label: String)
    ensures
        is_next_free_id(seq!['o', 'u', 't'], hw.outputs@.map_values(|o: crate::config::HardwareOutput| o.label), label@),
{
    let mut taken: Vec<String> = Vec::new();
    let mut k: usize = 0;
    while k < hw.outputs.len()
        invariant
            k <= hw.outputs@.len(),
            taken@ == hw.outputs@.take(k as int).map_values(|o: crate::config::HardwareOutput| o.label),
        decreases hw.outputs@.len() - k,
    {
        taken.push(hw.outputs[k].label.clone());
        k = k + 1;
        proof {
            assert(taken@ =~= hw.outputs@.take(k as int).map_values(|o: crate::config::HardwareOutput| o.label));
        }
    }
    proof {
        assert(hw.outputs@.take(k as int) =~= hw.outputs@);
        reveal_strlit("out");
        assert("out"@ =~= seq!['o', 'u', 't']);
    }
    next_free_id("out", taken.as_slice())
}

/// Whether some layer in `layers` is named `name`.
pub open spec fn layer_named(layers: Seq<LayerDef>, name: Seq<char>) -> bool {
    exists|j: int| 0 <= j < layers.len() && #[trigger] layers[j].name@ == name
}

/// Whether `s` holds only whitespace (or nothing).
pub open spec fn is_blank(s: Seq<char>) -> bool {
    forall|i: int| 0 <= i < s.len() ==> crate::text::is_whitespace(#[trigger] s[i])
}

/// Whether renaming the layer `old` to `new` is allowed: the new name is not
/// blank, and it is either unchanged or not taken by another layer.
pub fn valid_layer_rename(layers: &[LayerDef], old: &str, new: &str) -> (ok: bool)
    ensures
        ok == (!is_blank(new@) && (old@ == new@ || !layer_named(layers@, new@))),
{
    if crate::text::is_blank_str(new) {
        return false;
    }
    if str_eq(old, new) {
        return true;
    }
    let mut j: usize = 0;
    while j < layers.len()
        invariant
            j <= layers@.len(),
            old@ != new@,
            !is_blank(new@),
            forall|k: int| 0 <= k < j ==> #[trigger] layers@[k].name@ != new@,
        decreases layers@.len() - j,
    {
        if str_eq(layers[j].name.as_str(), new) {
            assert(layers@[j as int].name@ == new@);
            return false;
        }
        j = j + 1;
    }
    true
}

} // verus!
