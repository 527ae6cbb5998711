use vstd::prelude::*;
use crate::assoc::{assoc_find, assoc_index, lemma_assoc_index};
use crate::config::{find_name, lemma_name_index, name_index, Config, DeviceConfig};
use crate::midi::{spec_stable_port_key, stable_port_key};

verus! {

/// The devices that `order` names, in that order, each taken out of `rem`
/// (the first entry stored under the name) so that a name repeated in
/// `order` is used once; and the entries left over.
pub open spec fn take_ordered(rem: Seq<(String, DeviceConfig)>, order: Seq<String>) -> (Seq<DeviceConfig>, Seq<(String, DeviceConfig)>)
    decreases order.len(),
{
    if order.len() == 0 {
        (Seq::empty(), rem)
    } else {
        let k = assoc_index(rem, order[0]@);
        if k < rem.len() {
            let rest = take_ordered(rem.remove(k), order.drop_first());
            (seq![rem[k].1] + rest.0, rest.1)
        } else {
            take_ordered(rem, order.drop_first())
        }
    }
}

/// Whether `a` comes before `b` in the order of `str`: character by
/// character, a proper prefix first.
pub open spec fn text_lt(a: Seq<char>, b: Seq<char>) -> bool
    decreases a.len(),
{
    if b.len() == 0 {
        false
    } else if a.len() == 0 {
        true
    } else if a[0] != b[0] {
        (a[0] as u32) < (b[0] as u32)
    } else {
        text_lt(a.drop_first(), b.drop_first())
    }
}

/// Where a device with port `port` goes in `sorted`: before the first device
/// whose port comes after it, so that equal ports keep their arrival order.
pub open spec fn insert_pos(sorted: Seq<DeviceConfig>, port: Seq<char>) -> int
    decreases sorted.len(),
{
    if sorted.len() == 0 || text_lt(port, sorted[0].port_name@) {
        0
    } else {
        1 + insert_pos(sorted.drop_first(), port)
    }
}

/// `devs` sorted by port name, keeping the order of equal ports (a stable sort).
pub open spec fn sorted_by_port(devs: Seq<DeviceConfig>) -> Seq<DeviceConfig>
    decreases devs.len(),
{
    if devs.len() == 0 {
        Seq::empty()
    } else {
        let s = sorted_by_port(devs.drop_last());
        s.insert(insert_pos(s, devs.last().port_name@), devs.last())
    }
}

/// The devices of the normalized configuration before they are keyed: those
/// named by `order` first, then the others sorted by port name.
pub open spec fn arranged(entries: Seq<(String, DeviceConfig)>, order: Seq<String>) -> Seq<DeviceConfig> {
    let t = take_ordered(entries, order);
    t.0 + sorted_by_port(t.1.map_values(|e: (String, DeviceConfig)| e.1))
}

/// The stable identities of `devs` (see `stable_port_key`), each once, in
/// order of first appearance.
pub open spec fn identities(devs: Seq<DeviceConfig>) -> Seq<Seq<char>>
    decreases devs.len(),
{
    if devs.len() == 0 {
        Seq::empty()
    } else {
        let ids = identities(devs.drop_last());
        let k = spec_stable_port_key(devs.last().port_name@);
        if ids.contains(k) {
            ids
        } else {
            ids.push(k)
        }
    }
}

/// Position of the last device of `devs` whose stable identity is `key`.
pub open spec fn last_with_identity(devs: Seq<DeviceConfig>, key: Seq<char>) -> int
    decreases devs.len(),
{
    if devs.len() == 0 {
        -1
    } else if spec_stable_port_key(devs.last().port_name@) == key {
        devs.len() - 1
    } else {
        last_with_identity(devs.drop_last(), key)
    }
}

/// The texts of `names`.
pub open spec fn name_views(names: Seq<String>) -> Seq<Seq<char>> {
    names.map_values(|x: String| x@)
}

/// Whether configuration `c` keeps each identity of `devs` once, in order of
/// first appearance, holding the last device with that identity under its
/// identity as port name.
pub open spec fn keyed(c: Config, devs: Seq<DeviceConfig>) -> bool {
    let ids = identities(devs);
    &&& c.wf()
    &&& name_views(c.names()) == ids
    &&& c.devs().len() == ids.len()
    &&& forall|j: int|
        0 <= j < ids.len() ==> {
            let d = #[trigger] c.devs()[j];
            &&& d.port_name@ == ids[j]
            &&& d == (DeviceConfig { port_name: d.port_name, ..devs[last_with_identity(devs, ids[j])] })
        }
}

/// Whether `a` comes before `b` as text.
pub fn text_less(a: &str, b: &str) -> (r: bool)
    ensures
        r == text_lt(a@, b@),
{
    let n = a.unicode_len();
    let m = b.unicode_len();
    let mut i: usize = 0;
    proof {
        assert(a@.skip(0) =~= a@);
        assert(b@.skip(0) =~= b@);
    }
    while i < n && i < m && a.get_char(i) == b.get_char(i)
        invariant
            n == a@.len(),
            m == b@.len(),
            i <= n,
            i <= m,
            a@.subrange(0, i as int) == b@.subrange(0, i as int),
            text_lt(a@, b@) == text_lt(a@.skip(i as int), b@.skip(i as int)),
        decreases n - i,
    {
        proof {
            assert(a@.skip(i as int).drop_first() =~= a@.skip(i + 1));
            assert(b@.skip(i as int).drop_first() =~= b@.skip(i + 1));
            assert(a@.subrange(0, i + 1) =~= a@.subrange(0, i as int).push(a@[i as int]));
            assert(b@.subrange(0, i + 1) =~= b@.subrange(0, i as int).push(b@[i as int]));
        }
        i = i + 1;
    }
    if i == m {
        proof {
            assert(b@.skip(i as int).len() == 0);
        }
        false
    } else if i == n {
        proof {
            assert(a@.skip(i as int).len() == 0);
        }
        true
    } else {
        proof {
            assert(a@.skip(i as int)[0] == a@[i as int]);
            assert(b@.skip(i as int)[0] == b@[i as int]);
        }
        (a.get_char(i) as u32) < (b.get_char(i) as u32)
    }
}

/// Takes the devices that `order` names out of `rem`, in that order.
fn take_in_order(rem: &mut Vec<(String, DeviceConfig)>, order: &Vec<String>) -> (out: Vec<DeviceConfig>)
    ensures
        (out@, final(rem)@) == take_ordered(old(rem)@, order@),
{
    let ghost rem0 = rem@;
    let mut out: Vec<DeviceConfig> = Vec::new();
    let mut i: usize = 0;
    proof {
        assert(order@.skip(0) =~= order@);
        assert(out@ + take_ordered(rem@, order@.skip(0)).0 =~= take_ordered(rem0, order@).0);
    }
    while i < order.len()
        invariant
            i <= order@.len(),
            out@ + take_ordered(rem@, order@.skip(i as int)).0 == take_ordered(rem0, order@).0,
            take_ordered(rem@, order@.skip(i as int)).1 == take_ordered(rem0, order@).1,
        decreases order@.len() - i,
    {
        let ghost r = rem@;
        let ghost o = order@.skip(i as int);
        proof {
            assert(o[0] == order@[i as int]);
            assert(o.drop_first() =~= order@.skip(i + 1));
            lemma_assoc_index(r, o[0]@);
        }
        match assoc_find(rem, order[i].as_str()) {
            Some(k) => {
                let e = rem.remove(k);
                out.push(e.1);
                proof {
                    assert(out@ + take_ordered(rem@, order@.skip(i + 1)).0 =~= take_ordered(rem0, order@).0);
                }
            },
            None => {},
        }
        i = i + 1;
    }
    proof {
        assert(order@.skip(i as int).len() == 0);
        assert(out@ =~= out@ + take_ordered(rem@, order@.skip(i as int)).0);
    }
    out
}

proof fn lemma_insert_pos(sorted: Seq<DeviceConfig>, port: Seq<char>, j: int)
    requires
        0 <= j <= sorted.len(),
        forall|k: int| 0 <= k < j ==> !text_lt(port, #[trigger] sorted[k].port_name@),
        j < sorted.len() ==> text_lt(port, sorted[j].port_name@),
    ensures
        insert_pos(sorted, port) == j,
    decreases sorted.len(),
{
    if j > 0 {
        assert(!text_lt(port, sorted[0].port_name@));
        assert forall|k: int| 0 <= k < j - 1 implies !text_lt(port, #[trigger] sorted.drop_first()[k].port_name@) by {
            assert(sorted.drop_first()[k] == sorted[k + 1]);
        }
        if j - 1 < sorted.len() - 1 {
            assert(sorted.drop_first()[j - 1] == sorted[j]);
        }
        lemma_insert_pos(sorted.drop_first(), port, j - 1);
    }
}

/// `devs` sorted by port name, equal ports keeping their order.
fn sort_by_port(devs: Vec<DeviceConfig>) -> (sorted: Vec<DeviceConfig>)
    ensures
        sorted@ == sorted_by_port(devs@),
{
    let ghost all = devs@;
    let mut rest = devs;
    let mut sorted: Vec<DeviceConfig> = Vec::new();
    let n = rest.len();
    let mut i: usize = 0;
    proof {
        assert(all.take(0) =~= Seq::<DeviceConfig>::empty());
    }
    while i < n
        invariant
            n == all.len(),
            i <= n,
            rest@ == all.subrange(i as int, n as int),
            sorted@ == sorted_by_port(all.take(i as int)),
        decreases n - i,
    {
        let d = rest.remove(0);
        proof {
            assert(d == all[i as int]);
            assert(rest@ =~= all.subrange(i + 1, n as int));
        }
        let mut j: usize = 0;
        while j < sorted.len() && !text_less(d.port_name.as_str(), sorted[j].port_name.as_str())
            invariant
                j <= sorted@.len(),
                forall|k: int| 0 <= k < j ==> !text_lt(d.port_name@, #[trigger] sorted@[k].port_name@),
            decreases sorted@.len() - j,
        {
            j = j + 1;
        }
        proof {
            lemma_insert_pos(sorted@, d.port_name@, j as int);
            let t = all.take(i + 1);
            assert(t.drop_last() =~= all.take(i as int));
            assert(t.last() == d);
        }
        sorted.insert(j, d);
        i = i + 1;
    }
    proof {
        assert(all.take(n as int) =~= all);
    }
    sorted
}

proof fn lemma_names_ids(names: Seq<String>, ids: Seq<Seq<char>>, k: Seq<char>)
    requires
        name_views(names) == ids,
    ensures
        (name_index(names, k) < names.len()) == ids.contains(k),
        name_index(names, k) < names.len() ==> ids[name_index(names, k)] == k,
{
    lemma_name_index(names, k);
    assert(ids.len() == names.len());
    if ids.contains(k) {
        let j = choose|j: int| 0 <= j < ids.len() && ids[j] == k;
        assert(names[j]@ == ids[j]);
        if name_index(names, k) >= names.len() {
            assert(names[j]@ != k);
        }
    }
    if name_index(names, k) < names.len() {
        let i = name_index(names, k);
        assert(ids[i] == names[i]@);
    }
}

proof fn lemma_identities(devs: Seq<DeviceConfig>, key: Seq<char>)
    ensures
        identities(devs).contains(key) ==> 0 <= last_with_identity(devs, key) < devs.len(),
        last_with_identity(devs, key) < devs.len(),
    decreases devs.len(),
{
    if devs.len() > 0 {
        lemma_identities(devs.drop_last(), key);
        if spec_stable_port_key(devs.last().port_name@) != key && identities(devs).contains(key) {
            let ids = identities(devs.drop_last());
            let j = choose|j: int| 0 <= j < identities(devs).len() && identities(devs)[j] == key;
            if !ids.contains(spec_stable_port_key(devs.last().port_name@)) {
                assert(j < ids.len());
            }
            assert(ids[j] == key);
        }
    }
}

/// Keys `devs` by stable identity: each identity once, in order of first
/// appearance, holding the last device with it, renamed to the identity.
fn key_devices(devs: Vec<DeviceConfig>) -> (c: Config)
    ensures
        keyed(c, devs@),
{
    let ghost all = devs@;
    let mut rest = devs;
    let mut c = Config::new();
    let n = rest.len();
    let mut i: usize = 0;
    proof {
        assert(all.take(0) =~= Seq::<DeviceConfig>::empty());
        assert(name_views(c.names()) =~= identities(all.take(0)));
    }
    while i < n
        invariant
            n == all.len(),
            i <= n,
            rest@ == all.subrange(i as int, n as int),
            keyed(c, all.take(i as int)),
        decreases n - i,
    {
        let mut d = rest.remove(0);
        proof {
            assert(d == all[i as int]);
            assert(rest@ =~= all.subrange(i + 1, n as int));
        }
        let ghost d0 = d;
        let key = stable_port_key(d.port_name.as_str()).to_owned();
        d.port_name = key.clone();
        let ghost c0 = c;
        let ghost k = key@;
        proof {
            lemma_names_ids(c.names(), identities(all.take(i as int)), k);
        }
        c.insert_device(key, d);
        proof {
            let t = all.take(i + 1);
            let p = all.take(i as int);
            assert(t.drop_last() =~= p);
            assert(t.last() == d0);
            let ids = identities(t);
            let pids = identities(p);
            assert forall|key2: Seq<char>| #[trigger] last_with_identity(t, key2) == if key2 == k {
                i as int
            } else {
                last_with_identity(p, key2)
            } by {}
            assert(name_views(c.names()) =~= ids);
            let xi = c0.index_of(k);
            lemma_name_index(c0.names(), k);
            assert(c0.wf());
            assert(c0.names().len() == c0.devs().len());
            assert(pids.len() == c0.names().len());
            assert forall|q: int| 0 <= q < c0.names().len() implies #[trigger] pids[q] == c0.names()[q]@ by {
                assert(name_views(c0.names())[q] == c0.names()[q]@);
            }
            assert forall|j: int| 0 <= j < ids.len() implies {
                let dj = #[trigger] c.devs()[j];
                &&& dj.port_name@ == ids[j]
                &&& dj == (DeviceConfig { port_name: dj.port_name, ..t[last_with_identity(t, ids[j])] })
            } by {
                if ids[j] == k {
                    assert(t[last_with_identity(t, ids[j])] == d0);
                    if xi < c0.devs().len() {
                        assert(pids[xi] == k);
                        assert(xi < c0.names().len());
                        if j != xi {
                            assert(j < pids.len());
                            assert(pids[j] == k);
                            assert(c0.names()[j]@ == pids[j]);
                            assert(c0.names()[xi]@ == pids[xi]);
                        }
                    }
                } else {
                    if xi < c0.devs().len() {
                        assert(pids[xi] == k);
                        assert(ids == pids);
                        assert(j != xi);
                    } else {
                        assert(ids == pids.push(k));
                    }
                    assert(j < pids.len());
                    assert(c.devs()[j] == c0.devs()[j]);
                    assert(ids[j] == pids[j]);
                    assert(pids.contains(ids[j]));
                    lemma_identities(p, ids[j]);
                    assert(t[last_with_identity(t, ids[j])] == p[last_with_identity(p, ids[j])]);
                }
            }
        }
        i = i + 1;
    }
    proof {
        assert(all.take(n as int) =~= all);
    }
    c
}

impl Config {
    /// The configuration read back from storage, put in canonical form: the
    /// devices named by `order` first, in that order, then the other stored
    /// devices sorted by port name; every device keyed by the stable identity
    /// of its port (so that a device plugged in again under another client
    /// number finds its entry), the last one winning when two share an
    /// identity.
    pub fn from_parts(entries: Vec<(String, DeviceConfig)>, order: Vec<String>) -> (c: Config)
        ensures
            keyed(c, arranged(entries@, order@)),
    {
        let mut rem = entries;
        let ordered = take_in_order(&mut rem, &order);
        let ghost left = rem@;
        let mut missing: Vec<DeviceConfig> = Vec::new();
        let n = rem.len();
        let mut i: usize = 0;
        while i < n
            invariant
                n == left.len(),
                i <= n,
                rem@ == left.subrange(i as int, n as int),
                missing@ == left.take(i as int).map_values(|e: (String, DeviceConfig)| e.1),
            decreases n - i,
        {
            let e = rem.remove(0);
            proof {
                assert(e == left[i as int]);
                assert(rem@ =~= left.subrange(i + 1, n as int));
            }
            missing.push(e.1);
            i = i + 1;
            proof {
                assert(missing@ =~= left.take(i as int).map_values(|e: (String, DeviceConfig)| e.1));
            }
        }
        proof {
            assert(left.take(n as int) =~= left);
        }
        let sorted = sort_by_port(missing);
        let mut all = ordered;
        let ghost first = all@;
        let m = sorted.len();
        let mut rest = sorted;
        let ghost srt = rest@;
        let mut j: usize = 0;
        while j < m
            invariant
                m == srt.len(),
                j <= m,
                rest@ == srt.subrange(j as int, m as int),
                all@ == first + srt.take(j as int),
            decreases m - j,
        {
            let d = rest.remove(0);
            proof {
                assert(d == srt[j as int]);
                assert(rest@ =~= srt.subrange(j + 1, m as int));
            }
            all.push(d);
            j = j + 1;
            proof {
                assert(all@ =~= first + srt.take(j as int));
            }
        }
        proof {
            assert(srt.take(m as int) =~= srt);
        }
        key_devices(all)
    }
}

} // verus!
