use vstd::prelude::*;
use crate::config::{Config, DeviceConfig, HardwareDef, LayerDef};
use crate::device::{hardware_added_at, hardware_renamed, layer_added, layer_removed, layer_renamed, not_named, same_but_layers};
use crate::dispatch::{bank_changed, changed_bank, monitored, BankChange};
use crate::edit::{hardware_index, layer_index};
use crate::ids::{is_next_free_id, layer_named, names_contain};
use crate::midi::{is_client_port_suffix, last_index_of, spec_stable_port_key};
use crate::assoc::lemma_assoc_index;
use crate::config::distinct_names;
use crate::normalize::{arranged, identities, keyed, last_with_identity, name_views, sorted_by_port, take_ordered};
use crate::session::{Effect, Session, MONITOR_LINES};
use crate::software::{edited, is_edit, SoftwareEdit, SoftwareView};

verus! {

/// No two layers of `layers` share a name.
pub open spec fn distinct_layer_names(layers: Seq<LayerDef>) -> bool {
    forall|a: int, b: int| 0 <= a < layers.len() && 0 <= b < layers.len() && a != b ==> #[trigger] layers[a].name@
        != #[trigger] layers[b].name@
}

/// No two controls of `hws` share an id.
pub open spec fn distinct_ids(hws: Seq<HardwareDef>) -> bool {
    forall|a: int, b: int| 0 <= a < hws.len() && 0 <= b < hws.len() && a != b ==> #[trigger] hws[a].id@
        != #[trigger] hws[b].id@
}

/// Adding a layer never gives two layers the same name.
pub proof fn lemma_add_layer_keeps_names_distinct(o: DeviceConfig, name: Seq<char>, n: DeviceConfig)
    requires
        distinct_layer_names(o.layers@),
        layer_added(o, name, n),
    ensures
        distinct_layer_names(n.layers@),
{
    if !layer_named(o.layers@, name) {
        assert forall|a: int, b: int|
            0 <= a < n.layers@.len() && 0 <= b < n.layers@.len() && a != b implies #[trigger] n.layers@[a].name@
            != #[trigger] n.layers@[b].name@ by {
            let m = o.layers@.len() as int;
            if a < m {
                assert(n.layers@[a] == n.layers@.take(m)[a]);
            }
            if b < m {
                assert(n.layers@[b] == n.layers@.take(m)[b]);
            }
            if a == m {
                assert(b < m);
                assert(o.layers@[b].name@ != name);
            }
            if b == m {
                assert(a < m);
                assert(o.layers@[a].name@ != name);
            }
        }
    }
}

/// An allowed rename never gives two layers the same name.
pub proof fn lemma_rename_layer_keeps_names_distinct(o: DeviceConfig, old_name: Seq<char>, new_name: Seq<char>, n: DeviceConfig)
    requires
        distinct_layer_names(o.layers@),
        layer_renamed(o, old_name, new_name, n, true),
    ensures
        distinct_layer_names(n.layers@),
{
    assert forall|a: int, b: int|
        0 <= a < n.layers@.len() && 0 <= b < n.layers@.len() && a != b implies #[trigger] n.layers@[a].name@
        != #[trigger] n.layers@[b].name@ by {
        let oa = o.layers@[a];
        let ob = o.layers@[b];
        if oa.name@ == old_name && ob.name@ != old_name && old_name != new_name {
            assert(!layer_named(o.layers@, new_name));
            assert(o.layers@[b].name@ != new_name);
        }
        if ob.name@ == old_name && oa.name@ != old_name && old_name != new_name {
            assert(!layer_named(o.layers@, new_name));
            assert(o.layers@[a].name@ != new_name);
        }
    }
}

/// A control placed on the faceplate gets an id no other control has.
pub proof fn lemma_add_hardware_keeps_ids_distinct(o: DeviceConfig, col: u8, row: u8, n: DeviceConfig, idx: usize)
    requires
        distinct_ids(o.hardware@),
        hardware_added_at(o, col, row, n, idx),
    ensures
        distinct_ids(n.hardware@),
{
    let m = o.hardware@.len() as int;
    let taken = o.hardware@.map_values(|x: HardwareDef| x.id);
    assert forall|a: int, b: int|
        0 <= a < n.hardware@.len() && 0 <= b < n.hardware@.len() && a != b implies #[trigger] n.hardware@[a].id@
        != #[trigger] n.hardware@[b].id@ by {
        if a < m {
            assert(n.hardware@[a] == n.hardware@.take(m)[a]);
        }
        if b < m {
            assert(n.hardware@[b] == n.hardware@.take(m)[b]);
        }
        let new_id = n.hardware@[m].id@;
        assert(!names_contain(taken, new_id));
        if a == m && b < m {
            assert(taken[b] == o.hardware@[b].id);
        }
        if b == m && a < m {
            assert(taken[a] == o.hardware@[a].id);
        }
    }
}

/// Renaming a control to an id no control has keeps the ids distinct.
pub proof fn lemma_rename_hardware_keeps_ids_distinct(o: DeviceConfig, old_id: Seq<char>, new_id: Seq<char>, n: DeviceConfig, renamed: bool)
    requires
        distinct_ids(o.hardware@),
        hardware_index(o.hardware@, new_id) == o.hardware@.len(),
        hardware_renamed(o, old_id, new_id, n, renamed),
    ensures
        distinct_ids(n.hardware@),
{
    if renamed {
        let i = hardware_index(o.hardware@, old_id);
        crate::edit::lemma_hardware_index_bounds(o.hardware@, new_id);
        assert forall|a: int, b: int|
            0 <= a < n.hardware@.len() && 0 <= b < n.hardware@.len() && a != b implies #[trigger] n.hardware@[a].id@
            != #[trigger] n.hardware@[b].id@ by {
            if a == i {
                assert(n.hardware@[b] == o.hardware@[b]);
                assert(o.hardware@[b].id@ != new_id);
            } else if b == i {
                assert(n.hardware@[a] == o.hardware@[a]);
                assert(o.hardware@[a].id@ != new_id);
            } else {
                assert(n.hardware@[a] == o.hardware@[a]);
                assert(n.hardware@[b] == o.hardware@[b]);
            }
        }
    }
}

/// A port named again under another ALSA client and port number has the same
/// stable identity: the client number suffix is dropped.
pub proof fn lemma_stable_key_drops_client_suffix(base: Seq<char>, suffix: Seq<char>)
    requires
        is_client_port_suffix(suffix),
    ensures
        spec_stable_port_key(base + seq![' '] + suffix) == base,
{
    let s = base + seq![' '] + suffix;
    crate::midi::lemma_suffix_has_no_space(suffix);
    crate::midi::lemma_last_index_of_at(s, ' ', base.len() as int);
    assert(s.subrange(base.len() + 1int, s.len() as int) =~= suffix);
    assert(s.subrange(0, base.len() as int) =~= base);
}

/// The MIDI monitor never holds more lines than it keeps.
pub proof fn lemma_monitor_bounded(lines: Seq<String>, line: String)
    requires
        lines.len() <= MONITOR_LINES,
    ensures
        monitored(lines, line).len() <= MONITOR_LINES,
{
}

/// A normalized configuration holds each device under the identity of its
/// port, and no identity twice.
pub proof fn lemma_keyed_names_are_ports(c: Config, devs: Seq<DeviceConfig>)
    requires
        keyed(c, devs),
    ensures
        forall|j: int| 0 <= j < c.names().len() ==> #[trigger] c.names()[j]@ == c.devs()[j].port_name@,
        crate::config::distinct_names(c.names()),
{
    assert forall|j: int| 0 <= j < c.names().len() implies #[trigger] c.names()[j]@ == c.devs()[j].port_name@ by {
        assert(name_views(c.names())[j] == c.names()[j]@);
    }
}

/// Adding a signal entry and then removing it gives back the software as it was.
pub proof fn lemma_add_then_remove_signal_entry(v: SoftwareView)
    requires
        v.signals.len() < usize::MAX,
    ensures
        edited(edited(v, SoftwareEdit::AddSignalEntry).0, SoftwareEdit::RemoveSignalEntry(v.signals.len() as usize)).0
            == v,
{
    let w = edited(v, SoftwareEdit::AddSignalEntry).0;
    assert(w.signals.remove(v.signals.len() as int) =~= v.signals);
}

/// Adding a feedback entry and then removing it gives back the software as it was.
pub proof fn lemma_add_then_remove_feedback_entry(v: SoftwareView, w: SoftwareView, x: SoftwareView, c1: bool, c2: bool)
    requires
        v.feedback.len() < usize::MAX,
        is_edit(v, SoftwareEdit::AddFeedbackEntry, w, c1),
        is_edit(w, SoftwareEdit::RemoveFeedbackEntry(v.feedback.len() as usize), x, c2),
    ensures
        x == v,
        c1 && c2,
{
    assert(w.feedback.remove(v.feedback.len() as int) =~= v.feedback);
}


/// A configuration in the form it is stored in: every device is held under
/// its port name, and that name is already a stable port identity.
pub open spec fn canonical(c: Config) -> bool {
    &&& c.wf()
    &&& forall|i: int|
        0 <= i < c.devs().len() ==> {
            &&& #[trigger] c.devs()[i].port_name@ == c.names()[i]@
            &&& spec_stable_port_key(c.names()[i]@) == c.names()[i]@
        }
}

/// Whether some entry of `rem` holds device `d` under the name `name`.
pub open spec fn holds_entry(rem: Seq<(String, DeviceConfig)>, name: Seq<char>, d: DeviceConfig) -> bool {
    exists|k: int| 0 <= k < rem.len() && #[trigger] rem[k].0@ == name && rem[k].1 == d
}

/// Whether `e` is a device of `c` under its name.
pub open spec fn is_entry_of(c: Config, e: (String, DeviceConfig)) -> bool {
    exists|i: int| 0 <= i < c.devs().len() && #[trigger] c.names()[i]@ == e.0@ && c.devs()[i] == e.1
}

/// Whether the names of `rem` are pairwise different.
pub open spec fn distinct_keys(rem: Seq<(String, DeviceConfig)>) -> bool {
    forall|k1: int, k2: int|
        0 <= k1 < rem.len() && 0 <= k2 < rem.len() && k1 != k2 ==> #[trigger] rem[k1].0@ != #[trigger] rem[k2].0@
}

/// Whether `entries` is the table of `c` as stored: each device of `c` under
/// its name, nothing else, no name twice, in any order.
pub open spec fn stored_entries(c: Config, entries: Seq<(String, DeviceConfig)>) -> bool {
    &&& forall|i: int| 0 <= i < c.devs().len() ==> holds_entry(entries, c.names()[i]@, #[trigger] c.devs()[i])
    &&& forall|k: int| 0 <= k < entries.len() ==> is_entry_of(c, #[trigger] entries[k])
    &&& distinct_keys(entries)
}

/// Taking the devices named by `order` out of a table that holds exactly
/// those names, once each, gives them in order and leaves nothing.
proof fn lemma_take_all(rem: Seq<(String, DeviceConfig)>, order: Seq<String>, devs: Seq<DeviceConfig>)
    requires
        order.len() == devs.len(),
        distinct_names(order),
        forall|i: int| 0 <= i < order.len() ==> holds_entry(rem, #[trigger] order[i]@, devs[i]),
        forall|k: int| 0 <= k < rem.len() ==> names_contain(order, #[trigger] rem[k].0@),
        distinct_keys(rem),
    ensures
        take_ordered(rem, order) == (devs, Seq::<(String, DeviceConfig)>::empty()),
    decreases order.len(),
{
    if order.len() == 0 {
        if rem.len() > 0 {
            assert(names_contain(order, rem[0].0@));
        }
        assert(rem =~= Seq::<(String, DeviceConfig)>::empty());
        assert(devs =~= Seq::<DeviceConfig>::empty());
    } else {
        let n0 = order[0]@;
        assert(holds_entry(rem, order[0]@, devs[0]));
        let k0 = choose|k: int| 0 <= k < rem.len() && #[trigger] rem[k].0@ == n0 && rem[k].1 == devs[0];
        lemma_assoc_index(rem, n0);
        let k = assoc_index_of(rem, n0);
        assert(k == k0) by {
            if k < k0 {
                assert(rem[k].0@ == n0);
            } else if k > k0 {
                assert(rem[k0].0@ != n0);
            }
        }
        let rem2 = rem.remove(k);
        let order2 = order.drop_first();
        let devs2 = devs.drop_first();
        assert forall|i: int| 0 <= i < order2.len() implies holds_entry(rem2, #[trigger] order2[i]@, devs2[i]) by {
            assert(order2[i] == order[i + 1]);
            assert(devs2[i] == devs[i + 1]);
            assert(holds_entry(rem, order[i + 1]@, devs[i + 1]));
            let k1 = choose|k1: int| 0 <= k1 < rem.len() && #[trigger] rem[k1].0@ == order[i + 1]@ && rem[k1].1 == devs[i + 1];
            assert(order[i + 1]@ != order[0]@);
            let j = if k1 < k { k1 } else { k1 - 1 };
            assert(rem2[j] == rem[k1]);
            assert(rem2[j].0@ == order2[i]@ && rem2[j].1 == devs2[i]);
        }
        assert forall|j: int| 0 <= j < rem2.len() implies names_contain(order2, #[trigger] rem2[j].0@) by {
            let src = if j < k { j } else { j + 1 };
            assert(rem2[j] == rem[src]);
            assert(names_contain(order, rem[src].0@));
            let i = choose|i: int| 0 <= i < order.len() && #[trigger] order[i]@ == rem[src].0@;
            assert(src != k);
            assert(rem[src].0@ != rem[k].0@);
            assert(i != 0);
            assert(order2[i - 1] == order[i]);
        }
        assert forall|j1: int, j2: int|
            0 <= j1 < rem2.len() && 0 <= j2 < rem2.len() && j1 != j2 implies #[trigger] rem2[j1].0@
            != #[trigger] rem2[j2].0@ by {
            let s1 = if j1 < k { j1 } else { j1 + 1 };
            let s2 = if j2 < k { j2 } else { j2 + 1 };
            assert(rem2[j1] == rem[s1]);
            assert(rem2[j2] == rem[s2]);
        }
        assert forall|a: int, b: int|
            0 <= a < order2.len() && 0 <= b < order2.len() && a != b implies #[trigger] order2[a]@ != #[trigger] order2[b]@ by {
            assert(order2[a] == order[a + 1]);
            assert(order2[b] == order[b + 1]);
        }
        lemma_take_all(rem2, order2, devs2);
        assert(devs =~= seq![devs[0]] + devs2);
    }
}

/// `assoc_index` under a name of its own, so that it can be bound in a proof.
spec fn assoc_index_of(m: Seq<(String, DeviceConfig)>, k: Seq<char>) -> int {
    crate::assoc::assoc_index(m, k)
}

/// Devices whose port names are distinct stable identities keep one identity
/// each, their own port name, in order; each is the last with its identity.
proof fn lemma_identities_of_canonical(devs: Seq<DeviceConfig>)
    requires
        forall|i: int| 0 <= i < devs.len() ==> spec_stable_port_key(#[trigger] devs[i].port_name@) == devs[i].port_name@,
        forall|a: int, b: int|
            0 <= a < devs.len() && 0 <= b < devs.len() && a != b ==> #[trigger] devs[a].port_name@
                != #[trigger] devs[b].port_name@,
    ensures
        identities(devs) == devs.map_values(|d: DeviceConfig| d.port_name@),
        forall|j: int| 0 <= j < devs.len() ==> last_with_identity(devs, #[trigger] devs[j].port_name@) == j,
    decreases devs.len(),
{
    if devs.len() > 0 {
        let init = devs.drop_last();
        assert forall|i: int| 0 <= i < init.len() implies spec_stable_port_key(#[trigger] init[i].port_name@)
            == init[i].port_name@ by {
            assert(init[i] == devs[i]);
        }
        assert forall|a: int, b: int|
            0 <= a < init.len() && 0 <= b < init.len() && a != b implies #[trigger] init[a].port_name@
            != #[trigger] init[b].port_name@ by {
            assert(init[a] == devs[a]);
            assert(init[b] == devs[b]);
        }
        lemma_identities_of_canonical(init);
        let last = devs.last();
        let ports = init.map_values(|d: DeviceConfig| d.port_name@);
        assert(!ports.contains(last.port_name@)) by {
            if ports.contains(last.port_name@) {
                let j = choose|j: int| 0 <= j < ports.len() && ports[j] == last.port_name@;
                assert(init[j] == devs[j]);
            }
        }
        assert(devs.map_values(|d: DeviceConfig| d.port_name@) =~= ports.push(last.port_name@));
        assert forall|j: int| 0 <= j < devs.len() implies last_with_identity(devs, #[trigger] devs[j].port_name@) == j by {
            if j < devs.len() - 1 {
                assert(init[j] == devs[j]);
                assert(devs[j].port_name@ != last.port_name@);
            }
        }
    }
}

/// The table of a configuration, read back in `c`'s device order, arranges
/// into `c`'s devices.
proof fn lemma_arranged_stored(c: Config, entries: Seq<(String, DeviceConfig)>)
    requires
        c.wf(),
        stored_entries(c, entries),
    ensures
        arranged(entries, c.names()) == c.devs(),
{
    let names = c.names();
    let devs = c.devs();
    assert forall|i: int| 0 <= i < names.len() implies holds_entry(entries, #[trigger] names[i]@, devs[i]) by {
        assert(holds_entry(entries, c.names()[i]@, c.devs()[i]));
    }
    assert forall|k: int| 0 <= k < entries.len() implies names_contain(names, #[trigger] entries[k].0@) by {
        assert(is_entry_of(c, entries[k]));
        let i = choose|i: int| 0 <= i < c.devs().len() && #[trigger] c.names()[i]@ == entries[k].0@ && c.devs()[i] == entries[k].1;
        assert(names[i]@ == entries[k].0@);
    }
    lemma_take_all(entries, names, devs);
    assert(Seq::<(String, DeviceConfig)>::empty().map_values(|e: (String, DeviceConfig)| e.1)
        =~= Seq::<DeviceConfig>::empty());
    assert(arranged(entries, names) =~= devs);
}

/// Reading back a stored configuration gives the configuration that was
/// stored: the table written for a canonical configuration `c`, in whatever
/// order it is read, with `c`'s device order, is normalized into the same
/// names and devices in the same order.
pub proof fn lemma_reload_gives_back(c: Config, entries: Seq<(String, DeviceConfig)>, r: Config)
    requires
        canonical(c),
        stored_entries(c, entries),
        keyed(r, arranged(entries, c.names())),
    ensures
        name_views(r.names()) == name_views(c.names()),
        r.devs().len() == c.devs().len(),
        forall|j: int|
            0 <= j < c.devs().len() ==> #[trigger] r.devs()[j].port_name@ == c.devs()[j].port_name@ && r.devs()[j]
                == (DeviceConfig { port_name: r.devs()[j].port_name, ..c.devs()[j] }),
{
    let names = c.names();
    let devs = c.devs();
    lemma_arranged_stored(c, entries);
    assert forall|a: int, b: int|
        0 <= a < devs.len() && 0 <= b < devs.len() && a != b implies #[trigger] devs[a].port_name@
        != #[trigger] devs[b].port_name@ by {
        assert(devs[a].port_name@ == names[a]@);
        assert(devs[b].port_name@ == names[b]@);
    }
    assert forall|i: int| 0 <= i < devs.len() implies spec_stable_port_key(#[trigger] devs[i].port_name@)
        == devs[i].port_name@ by {
        assert(devs[i].port_name@ == names[i]@);
    }
    lemma_identities_of_canonical(devs);
    let ports = devs.map_values(|d: DeviceConfig| d.port_name@);
    assert(ports =~= name_views(names)) by {
        assert forall|j: int| 0 <= j < devs.len() implies #[trigger] ports[j] == name_views(names)[j] by {
            assert(devs[j].port_name@ == names[j]@);
        }
    }
    assert forall|j: int| 0 <= j < devs.len() implies #[trigger] r.devs()[j].port_name@ == devs[j].port_name@
        && r.devs()[j] == (DeviceConfig { port_name: r.devs()[j].port_name, ..devs[j] }) by {
        assert(identities(devs)[j] == ports[j]);
        assert(last_with_identity(devs, devs[j].port_name@) == j);
    }
}


/// Layers named alike position by position are searched alike.
proof fn lemma_layer_index_same_names(a: Seq<LayerDef>, b: Seq<LayerDef>, name: Seq<char>)
    requires
        a.len() == b.len(),
        forall|j: int| 0 <= j < a.len() ==> #[trigger] a[j].name@ == b[j].name@,
    ensures
        layer_index(a, name) == layer_index(b, name),
    decreases a.len(),
{
    if a.len() > 0 {
        assert(a[0].name@ == b[0].name@);
        assert forall|j: int| 0 <= j < a.drop_first().len() implies #[trigger] a.drop_first()[j].name@
            == b.drop_first()[j].name@ by {
            assert(a.drop_first()[j] == a[j + 1]);
            assert(b.drop_first()[j] == b[j + 1]);
        }
        lemma_layer_index_same_names(a.drop_first(), b.drop_first(), name);
    }
}

/// A layer position is never negative.
proof fn lemma_layer_index_nonneg(layers: Seq<LayerDef>, name: Seq<char>)
    ensures
        0 <= layer_index(layers, name) <= layers.len(),
    decreases layers.len(),
{
    if layers.len() > 0 {
        lemma_layer_index_nonneg(layers.drop_first(), name);
    }
}

/// Setting the bank offset of a device's active layer and reading the bank
/// of that device back gives the offset that was set.
pub proof fn lemma_set_bank_then_read(s0: Session, s1: Session, dev: Seq<char>, v: u8, fx0: Seq<Effect>, fx1: Seq<Effect>)
    requires
        s0.wf(),
        s0.explicit_active(dev) is Some,
        bank_changed(s0, s1, dev, BankChange::To(v), fx0, fx1),
    ensures
        s1.bank_of(dev) == v,
{
    crate::config::lemma_name_index(s0.config.names(), dev);
    let i = s0.config.index_of(dev);
    let l = s0.active_name(dev).unwrap();
    let li = layer_index(s0.config.devs()[i].layers@, l@);
    lemma_layer_index_nonneg(s0.config.devs()[i].layers@, l@);
    assert(s0.explicit_active(dev) == Some((i, li)));
    let od = s0.config.devs()[i];
    let nd = s1.config.devs()[i];
    assert(0 <= i < s0.config.devs().len());
    assert(s1.config.devs() == s0.config.devs().update(i, nd));
    assert(nd.layers@ == od.layers@.update(
        li,
        LayerDef { bank_offset: changed_bank(od.layers@[li].bank_offset, BankChange::To(v)), ..od.layers@[li] },
    ));
    assert(s1.config.lookup(dev) == Some(nd));
    assert(s1.active_name(dev) == s0.active_name(dev));
    assert forall|j: int| 0 <= j < od.layers@.len() implies #[trigger] od.layers@[j].name@ == nd.layers@[j].name@ by {
        if j == li {
        } else {
            assert(nd.layers@[j] == od.layers@[j]);
        }
    }
    lemma_layer_index_same_names(od.layers@, nd.layers@, l@);
    assert(layer_index(nd.layers@, l@) == li);
}

/// Moving a bank up and then down comes back to where it was, unless the
/// move up stopped at the top.
pub proof fn lemma_bank_up_then_down(bank: u8)
    requires
        bank <= 247,
    ensures
        changed_bank(changed_bank(bank, BankChange::Up), BankChange::Down) == bank,
{
}


/// Adding a device under a new name and removing it again gives back the
/// configuration as it was.
pub proof fn lemma_insert_then_remove_device(a: Config, b: Config, c: Config, name: String, device: DeviceConfig)
    requires
        a.wf(),
        a.lookup(name@) is None,
        Config::device_inserted(a, b, name, device),
        Config::device_removed(b, c, name@),
    ensures
        c.names() == a.names(),
        c.devs() == a.devs(),
{
    crate::config::lemma_name_index(a.names(), name@);
    let n = a.names().len() as int;
    assert forall|j: int| 0 <= j < n implies #[trigger] b.names()[j]@ != name@ by {
        assert(b.names()[j] == a.names()[j]);
    }
    crate::config::lemma_name_index_unique(b.names(), name@, n);
    assert(c.names() =~= a.names());
    assert(c.devs() =~= a.devs());
}


/// Filtering out a name that no layer carries keeps every layer.
proof fn lemma_filter_keeps_all(s: Seq<LayerDef>, name: Seq<char>)
    requires
        forall|j: int| 0 <= j < s.len() ==> #[trigger] s[j].name@ != name,
    ensures
        s.filter(not_named(name)) == s,
    decreases s.len(),
{
    if s.len() > 0 {
        let init = s.drop_last();
        assert forall|j: int| 0 <= j < init.len() implies #[trigger] init[j].name@ != name by {
            assert(init[j] == s[j]);
        }
        lemma_filter_keeps_all(init, name);
        init.lemma_filter_push(s.last(), not_named(name));
        assert(s =~= init.push(s.last()));
    }
}

/// Adding a layer under a new name and removing that name again gives back
/// the device as it was.
pub proof fn lemma_add_then_remove_layer(o: DeviceConfig, name: Seq<char>, m: DeviceConfig, n: DeviceConfig)
    requires
        !layer_named(o.layers@, name),
        layer_added(o, name, m),
        layer_removed(m, name, n),
    ensures
        same_but_layers(o, n),
        n.layers@ == o.layers@,
{
    let len = o.layers@.len() as int;
    assert(m.layers@ =~= o.layers@.push(m.layers@.last()));
    assert forall|j: int| 0 <= j < len implies #[trigger] o.layers@[j].name@ != name by {
        if o.layers@[j].name@ == name {
            assert(layer_named(o.layers@, name));
        }
    }
    lemma_filter_keeps_all(o.layers@, name);
    let keep = not_named(name);
    let e = m.layers@.last();
    o.layers@.lemma_filter_push(e, keep);
    assert(!keep(e));
    assert(m.layers@.filter(keep) == o.layers@.filter(keep));
    assert(n.layers@ == m.layers@.filter(keep));
}

} // verus!
