use vstd::prelude::*;
use crate::text::str_eq;

verus! {

/// An event read from a MIDI input port.
#[derive(Debug)]
#[allow(inconsistent_fields)]
pub enum MidiEvent {
    Connected { port_name: String },
    Cc { port_name: String, channel: u8, controller: u8, value: u8 },
    NoteOn { port_name: String, channel: u8, note: u8, velocity: u8 },
    PitchBend { port_name: String, channel: u8, value: u16 },
    SysEx { port_name: String, data: Vec<u8> },
}

/// Whether the raw message `m` yields an event: a SysEx start, or a complete
/// Control Change, Note On with a non-zero velocity, or Pitch Bend message.
/// Note Off, Note On with velocity zero, running-status data bytes and every
/// other status are ignored.
pub open spec fn yields_event(m: Seq<u8>) -> bool {
    m.len() > 0 && (m[0] == 0xF0 || (m[0] >= 0x80 && m.len() >= 3 && (m[0] / 16 == 0xB || (m[0]
        / 16 == 0x9 && m[2] > 0) || m[0] / 16 == 0xE)))
}

/// Whether `ev` is the event that the raw message `m` from port `port` yields.
pub open spec fn is_event_of(ev: MidiEvent, m: Seq<u8>, port: Seq<char>) -> bool {
    match ev {
        MidiEvent::SysEx { port_name, data } => m.len() > 0 && m[0] == 0xF0 && port_name@ == port
            && data@ == m,
        MidiEvent::Cc { port_name, channel, controller, value } => m.len() >= 3 && m[0] != 0xF0
            && m[0] / 16 == 0xB && channel == m[0] % 16 && controller == m[1] && value == m[2]
            && port_name@ == port,
        MidiEvent::NoteOn { port_name, channel, note, velocity } => m.len() >= 3 && m[0] / 16
            == 0x9 && m[2] > 0 && channel == m[0] % 16 && note == m[1] && velocity == m[2]
            && port_name@ == port,
        MidiEvent::PitchBend { port_name, channel, value } => m.len() >= 3 && m[0] / 16 == 0xE
            && channel == m[0] % 16 && value == ((m[1] as u16) | ((m[2] as u16) << 7u16))
            && port_name@ == port,
        MidiEvent::Connected { .. } => false,
    }
}

/// Decodes one raw MIDI message received on `port_name`.
pub fn handle_midi_message(message: &[u8], port_name: &str) -> (ev: Option<MidiEvent>)
    ensures
        ev is Some == yields_event(message@),
        ev matches Some(e) ==> is_event_of(e, message@, port_name@),
{
    if message.len() == 0 {
        return None;
    }
    let status = message[0];
    if status == 0xF0 {
        let mut data: Vec<u8> = Vec::new();
        let mut i: usize = 0;
        while i < message.len()
            invariant
                i <= message@.len(),
                data@ == message@.subrange(0, i as int),
            decreases message@.len() - i,
        {
            data.push(message[i]);
            i = i + 1;
            proof {
                assert(data@ =~= message@.subrange(0, i as int));
            }
        }
        proof {
            assert(data@ =~= message@);
        }
        return Some(MidiEvent::SysEx { port_name: port_name.to_owned(), data });
    }
    if status < 0x80 {
        return None;
    }
    let channel = status & 0x0F;
    let msg_type = status & 0xF0;
    assert(status & 0x0F == status % 16) by (bit_vector);
    assert(status & 0xF0 == (status / 16) * 16) by (bit_vector);
    if msg_type == 0xB0 && message.len() >= 3 {
        Some(
            MidiEvent::Cc {
                port_name: port_name.to_owned(),
                channel,
                controller: message[1],
                value: message[2],
            },
        )
    } else if msg_type == 0x90 && message.len() >= 3 && message[2] > 0 {
        Some(
            MidiEvent::NoteOn {
                port_name: port_name.to_owned(),
                channel,
                note: message[1],
                velocity: message[2],
            },
        )
    } else if msg_type == 0xE0 && message.len() >= 3 {
        let lsb = message[1] as u16;
        let msb = message[2] as u16;
        let value = lsb | (msb << 7);
        Some(MidiEvent::PitchBend { port_name: port_name.to_owned(), channel, value })
    } else {
        None
    }
}

/// Index of the last occurrence of `c` in `s`, or -1 when there is none.
pub open spec fn last_index_of(s: Seq<char>, c: char) -> int
    decreases s.len(),
{
    if s.len() == 0 {
        -1
    } else if s.last() == c {
        s.len() - 1
    } else {
        last_index_of(s.drop_last(), c)
    }
}

pub open spec fn is_ascii_digit(c: char) -> bool {
    '0' <= c && c <= '9'
}

pub open spec fn all_ascii_digits(s: Seq<char>) -> bool {
    forall|i: int| 0 <= i < s.len() ==> is_ascii_digit(#[trigger] s[i])
}

/// Whether `t` has the shape `client_id:port_id`: two non-empty runs of
/// ASCII digits joined by a single colon.
pub open spec fn is_client_port_suffix(t: Seq<char>) -> bool {
    exists|c: int|
        0 < c < t.len() - 1 && #[trigger] t[c] == ':' && all_ascii_digits(t.subrange(0, c))
            && all_ascii_digits(t.subrange(c + 1, t.len() as int))
}

/// The stable `client_name:port_name` portion of an ALSA port name: the name
/// without a trailing ` client_id:port_id` suffix.
pub open spec fn spec_stable_port_key(s: Seq<char>) -> Seq<char> {
    let i = last_index_of(s, ' ');
    if i >= 0 && is_client_port_suffix(s.subrange(i + 1, s.len() as int)) {
        s.subrange(0, i)
    } else {
        s
    }
}

proof fn lemma_last_index_of(s: Seq<char>, c: char)
    ensures
        -1 <= last_index_of(s, c) < s.len(),
        last_index_of(s, c) >= 0 ==> s[last_index_of(s, c)] == c,
        forall|j: int| last_index_of(s, c) < j < s.len() ==> s[j] != c,
    decreases s.len(),
{
    if s.len() > 0 && s.last() != c {
        lemma_last_index_of(s.drop_last(), c);
        assert forall|j: int| last_index_of(s, c) < j < s.len() implies s[j] != c by {
            if j < s.len() - 1 {
                assert(s[j] == s.drop_last()[j]);
            }
        }
    }
}

/// A `client_id:port_id` suffix holds no space.
pub proof fn lemma_suffix_has_no_space(t: Seq<char>)
    requires
        is_client_port_suffix(t),
    ensures
        forall|j: int| 0 <= j < t.len() ==> t[j] != ' ',
{
    let c = choose|c: int|
        0 < c < t.len() - 1 && #[trigger] t[c] == ':' && all_ascii_digits(t.subrange(0, c)) && all_ascii_digits(
            t.subrange(c + 1, t.len() as int),
        );
    assert forall|j: int| 0 <= j < t.len() implies t[j] != ' ' by {
        if j < c {
            assert(is_ascii_digit(t.subrange(0, c)[j]));
        } else if j > c {
            assert(is_ascii_digit(t.subrange(c + 1, t.len() as int)[j - c - 1]));
        }
    }
}

/// The last occurrence of `c` is at `i` when no later character is `c`.
pub proof fn lemma_last_index_of_at(s: Seq<char>, c: char, i: int)
    requires
        0 <= i < s.len(),
        s[i] == c,
        forall|j: int| i < j < s.len() ==> s[j] != c,
    ensures
        last_index_of(s, c) == i,
{
    lemma_last_index_unique(s, c, i);
}

proof fn lemma_last_index_unique(s: Seq<char>, c: char, i: int)
    requires
        -1 <= i < s.len(),
        i >= 0 ==> s[i] == c,
        forall|j: int| i < j < s.len() ==> s[j] != c,
    ensures
        last_index_of(s, c) == i,
    decreases s.len(),
{
    if s.len() > 0 && s.last() != c {
        assert forall|j: int| i < j < s.drop_last().len() implies s.drop_last()[j] != c by {
            assert(s.drop_last()[j] == s[j]);
        }
        if i >= 0 {
            assert(s.drop_last()[i] == s[i]);
        }
        lemma_last_index_unique(s.drop_last(), c, i);
    }
}

/// Whether `s` consists of ASCII digits only.
fn all_digits(s: &str) -> (r: bool)
    ensures
        r == all_ascii_digits(s@),
{
    let n = s.unicode_len();
    let mut i: usize = 0;
    while i < n
        invariant
            n == s@.len(),
            i <= n,
            forall|j: int| 0 <= j < i ==> is_ascii_digit(#[trigger] s@[j]),
        decreases n - i,
    {
        let c = s.get_char(i);
        if !('0' <= c && c <= '9') {
            return false;
        }
        i = i + 1;
    }
    true
}

/// Whether `t` has the shape `client_id:port_id`.
fn is_client_port(t: &str) -> (r: bool)
    ensures
        r == is_client_port_suffix(t@),
{
    let n = t.unicode_len();
    let mut c: usize = 0;
    while c < n && t.get_char(c) != ':'
        invariant
            n == t@.len(),
            c <= n,
            forall|j: int| 0 <= j < c ==> t@[j] != ':',
        decreases n - c,
    {
        c = c + 1;
    }
    if c == n || c == 0 || c + 1 == n {
        proof {
            assert forall|k: int|
                0 < k < t@.len() - 1 && #[trigger] t@[k] == ':' implies !(all_ascii_digits(
                t@.subrange(0, k),
            ) && all_ascii_digits(t@.subrange(k + 1, t@.len() as int))) by {
                if c < n && c < k {
                    assert(t@.subrange(0, k)[c as int] == ':');
                }
            }
        }
        return false;
    }
    let client = t.substring_char(0, c);
    let port = t.substring_char(c + 1, n);
    let r = all_digits(client) && all_digits(port);
    proof {
        if !r {
            assert forall|k: int|
                0 < k < t@.len() - 1 && #[trigger] t@[k] == ':' implies !(all_ascii_digits(
                t@.subrange(0, k),
            ) && all_ascii_digits(t@.subrange(k + 1, t@.len() as int))) by {
                if k > c {
                    assert(t@.subrange(0, k)[c as int] == ':');
                } else {
                    assert(k == c);
                }
            }
        }
    }
    r
}

/// Returns the stable `client_name:port_name` portion of an ALSA port name.
///
/// `midir` appends a volatile numeric `client_id:port_id` suffix.
pub fn stable_port_key(port_name: &str) -> (key: &str)
    ensures
        key@ == spec_stable_port_key(port_name@),
{
    let n = port_name.unicode_len();
    let mut i: usize = n;
    while i > 0 && port_name.get_char(i - 1) != ' '
        invariant
            n == port_name@.len(),
            i <= n,
            forall|j: int| i <= j < n ==> port_name@[j] != ' ',
        decreases i,
    {
        i = i - 1;
    }
    if i == 0 {
        proof {
            lemma_last_index_unique(port_name@, ' ', -1);
        }
        return port_name;
    }
    let sp = i - 1;
    proof {
        lemma_last_index_unique(port_name@, ' ', sp as int);
    }
    let tail = port_name.substring_char(i, n);
    if is_client_port(tail) {
        port_name.substring_char(0, sp)
    } else {
        port_name
    }
}

/// A MIDI input port offered for adding a device, named by its stable key.
#[derive(Debug)]
pub struct PortInfo {
    pub name: String,
}

impl Clone for PortInfo {
    fn clone(&self) -> (r: Self)
        ensures
            r == *self,
    {
        PortInfo { name: self.name.clone() }
    }
}

/// Index of the first occurrence of `c` in `s`, or `s.len()` when there is none.
pub open spec fn first_index_of(s: Seq<char>, c: char) -> int
    decreases s.len(),
{
    if s.len() == 0 {
        0
    } else if s[0] == c {
        0
    } else {
        1 + first_index_of(s.drop_first(), c)
    }
}

/// The client-name part of a port name: everything before its first colon.
pub open spec fn client_part(s: Seq<char>) -> Seq<char> {
    s.subrange(0, first_index_of(s, ':'))
}

/// The client name this application registers its own MIDI ports under.
pub open spec fn own_client_name() -> Seq<char> {
    seq!['m', 'i', 'd', 'i', '-', 'd', 'o', 'e', 's']
}

/// Stable keys of the ports in `names` that do not belong to this
/// application's own client, in order.
pub open spec fn offered_port_keys(names: Seq<Seq<char>>) -> Seq<Seq<char>>
    decreases names.len(),
{
    if names.len() == 0 {
        Seq::empty()
    } else {
        let rest = offered_port_keys(names.drop_last());
        if client_part(names.last()) == own_client_name() {
            rest
        } else {
            rest.push(spec_stable_port_key(names.last()))
        }
    }
}

proof fn lemma_first_index_of(s: Seq<char>, c: char)
    ensures
        0 <= first_index_of(s, c) <= s.len(),
        first_index_of(s, c) < s.len() ==> s[first_index_of(s, c)] == c,
        forall|j: int| 0 <= j < first_index_of(s, c) ==> s[j] != c,
    decreases s.len(),
{
    if s.len() > 0 && s[0] != c {
        lemma_first_index_of(s.drop_first(), c);
        assert forall|j: int| 0 <= j < first_index_of(s, c) implies s[j] != c by {
            if j > 0 {
                assert(s[j] == s.drop_first()[j - 1]);
            }
        }
    }
}

proof fn lemma_first_index_unique(s: Seq<char>, c: char, i: int)
    requires
        0 <= i <= s.len(),
        i < s.len() ==> s[i] == c,
        forall|j: int| 0 <= j < i ==> s[j] != c,
    ensures
        first_index_of(s, c) == i,
    decreases s.len(),
{
    if s.len() > 0 && s[0] != c {
        assert forall|j: int| 0 <= j < i - 1 implies s.drop_first()[j] != c by {
            assert(s.drop_first()[j] == s[j + 1]);
        }
        if i < s.len() {
            assert(s.drop_first()[i - 1] == s[i]);
        }
        lemma_first_index_unique(s.drop_first(), c, i - 1);
    }
}

/// Whether the port name `name` is one of this application's own: the name
/// is the client name alone, or the client name followed by a colon.
pub open spec fn names_own_client(name: Seq<char>) -> bool {
    ||| name == own_client_name()
    ||| (name.len() > 9 && name.take(9) == own_client_name() && name[9] == ':')
}

proof fn lemma_own_client_name_has_no_colon(j: int)
    requires
        0 <= j < 9,
    ensures
        own_client_name()[j] != ':',
{
    let o = own_client_name();
    assert(o[0] == 'm' && o[1] == 'i' && o[2] == 'd' && o[3] == 'i' && o[4] == '-');
    assert(o[5] == 'd' && o[6] == 'o' && o[7] == 'e' && o[8] == 's');
}

proof fn lemma_client_part_is_own(name: Seq<char>)
    ensures
        (client_part(name) == own_client_name()) == names_own_client(name),
{
    let o = own_client_name();
    lemma_first_index_of(name, ':');
    let f = first_index_of(name, ':');
    if names_own_client(name) {
        assert forall|j: int| 0 <= j < 9 implies name[j] != ':' by {
            lemma_own_client_name_has_no_colon(j);
            if name == o {
                assert(name[j] == o[j]);
            } else {
                assert(name[j] == name.take(9)[j]);
            }
        }
        lemma_first_index_unique(name, ':', 9);
        if name == o {
            assert(client_part(name) =~= o);
        } else {
            assert(client_part(name) =~= name.take(9));
        }
    }
    if client_part(name) == o {
        assert(client_part(name).len() == 9);
        assert(f == 9);
        if name.len() == 9 {
            assert(name =~= client_part(name));
        } else {
            assert(name.take(9) =~= client_part(name));
        }
    }
}

/// Listing the ports after one more port name: a name of this application's
/// own client adds nothing, and any other name adds its stable key at the end.
pub proof fn lemma_offered_after_one_more(names: Seq<Seq<char>>, name: Seq<char>)
    ensures
        offered_port_keys(names.push(name)) == if names_own_client(name) {
            offered_port_keys(names)
        } else {
            offered_port_keys(names).push(spec_stable_port_key(name))
        },
{
    lemma_client_part_is_own(name);
    assert(names.push(name).drop_last() =~= names);
}

/// Every offered key is the stable key of a listed name that is not one of
/// this application's own, and no such name is left out.
pub proof fn lemma_offered_are_foreign(names: Seq<Seq<char>>)
    ensures
        forall|k: int|
            0 <= k < offered_port_keys(names).len() ==> exists|i: int|
                #![trigger names[i]]
                0 <= i < names.len() && !names_own_client(names[i]) && #[trigger] offered_port_keys(names)[k]
                    == spec_stable_port_key(names[i]),
        forall|i: int|
            0 <= i < names.len() && !names_own_client(#[trigger] names[i]) ==> offered_port_keys(names).contains(
                spec_stable_port_key(names[i]),
            ),
    decreases names.len(),
{
    if names.len() > 0 {
        let init = names.drop_last();
        let last = names.last();
        lemma_offered_are_foreign(init);
        lemma_offered_after_one_more(init, last);
        assert(init.push(last) =~= names);
        let o = offered_port_keys(names);
        let oi = offered_port_keys(init);
        assert forall|k: int| 0 <= k < o.len() implies exists|i: int|
            #![trigger names[i]]
            0 <= i < names.len() && !names_own_client(names[i]) && #[trigger] o[k] == spec_stable_port_key(names[i]) by {
            if k < oi.len() {
                assert(o[k] == oi[k]);
                let i = choose|i: int|
                    #![trigger init[i]]
                    0 <= i < init.len() && !names_own_client(init[i]) && #[trigger] oi[k] == spec_stable_port_key(init[i]);
                assert(names[i] == init[i]);
            } else {
                assert(!names_own_client(last));
                assert(o[k] == spec_stable_port_key(names[names.len() - 1]));
            }
        }
        assert forall|i: int| 0 <= i < names.len() && !names_own_client(#[trigger] names[i]) implies o.contains(
            spec_stable_port_key(names[i]),
        ) by {
            if i < init.len() {
                assert(names[i] == init[i]);
                let k = choose|k: int| 0 <= k < oi.len() && oi[k] == spec_stable_port_key(init[i]);
                assert(o[k] == oi[k]);
            } else {
                assert(o[o.len() - 1] == spec_stable_port_key(names[i]));
            }
        }
    }
}

/// Whether the port named `name` belongs to this application's own client.
fn is_own_port(name: &str) -> (r: bool)
    ensures
        r == (client_part(name@) == own_client_name()),
{
    let n = name.unicode_len();
    let mut c: usize = 0;
    while c < n && name.get_char(c) != ':'
        invariant
            n == name@.len(),
            c <= n,
            forall|j: int| 0 <= j < c ==> name@[j] != ':',
        decreases n - c,
    {
        c = c + 1;
    }
    proof {
        lemma_first_index_unique(name@, ':', c as int);
        reveal_strlit("midi-does");
        assert("midi-does"@ =~= own_client_name());
    }
    str_eq(name.substring_char(0, c), "midi-does")
}

/// The ports offered for adding a device: every port name except this
/// application's own, reduced to its stable key, in order.
pub fn available_port_infos(names: &[String]) -> (ports: Vec<PortInfo>)
    ensures
        ports@.map_values(|p: PortInfo| p.name@) == offered_port_keys(
            names@.map_values(|s: String| s@),
        ),
{
    let mut ports: Vec<PortInfo> = Vec::new();
    let mut i: usize = 0;
    while i < names.len()
        invariant
            i <= names@.len(),
            ports@.map_values(|p: PortInfo| p.name@) == offered_port_keys(
                names@.map_values(|s: String| s@).take(i as int),
            ),
        decreases names@.len() - i,
    {
        let ghost all = names@.map_values(|s: String| s@);
        proof {
            assert(all.take(i + 1).drop_last() =~= all.take(i as int));
            assert(all.take(i + 1).last() == names@[i as int]@);
        }
        let name = names[i].as_str();
        if !is_own_port(name) {
            let key = stable_port_key(name);
            ports.push(PortInfo { name: key.to_owned() });
            proof {
                assert(ports@.map_values(|p: PortInfo| p.name@) =~= offered_port_keys(
                    all.take(i as int),
                ).push(spec_stable_port_key(names@[i as int]@)));
            }
        }
        i = i + 1;
    }
    proof {
        assert(names@.map_values(|s: String| s@).take(i as int) =~= names@.map_values(
            |s: String| s@,
        ));
    }
    ports
}

/// Index of the first port whose stable key is `port_name`.
pub fn find_port(names: &[String], port_name: &str) -> (idx: Option<usize>)
    ensures
        match idx {
            Some(i) => i < names@.len() && spec_stable_port_key(names@[i as int]@) == port_name@
                && forall|j: int| 0 <= j < i ==> spec_stable_port_key(#[trigger] names@[j]@)
                    != port_name@,
            None => forall|j: int| 0 <= j < names@.len() ==> spec_stable_port_key(
                #[trigger] names@[j]@,
            ) != port_name@,
        },
{
    let mut i: usize = 0;
    while i < names.len()
        invariant
            i <= names@.len(),
            forall|j: int| 0 <= j < i ==> spec_stable_port_key(#[trigger] names@[j]@) != port_name@,
        decreases names@.len() - i,
    {
        if str_eq(stable_port_key(names[i].as_str()), port_name) {
            return Some(i);
        }
        i = i + 1;
    }
    None
}

/// The three bytes of a Note On message; the channel keeps its low nibble
/// and the data bytes are capped at 127.
pub fn note_on_bytes(channel: u8, note: u8, velocity: u8) -> (m: [u8; 3])
    ensures
        m@ == seq![(0x90 | (channel & 0x0F)) as u8, if note < 127 { note } else { 127 }, if velocity < 127 {
            velocity
        } else {
            127
        }],
{
    let n = if note < 127 { note } else { 127 };
    let v = if velocity < 127 { velocity } else { 127 };
    let m = [0x90 | (channel & 0x0F), n, v];
    proof {
        assert(m@ =~= seq![(0x90 | (channel & 0x0F)) as u8, n, v]);
    }
    m
}

/// The three bytes of a Control Change message; the channel keeps its low
/// nibble and the data bytes are capped at 127.
pub fn cc_bytes(channel: u8, controller: u8, value: u8) -> (m: [u8; 3])
    ensures
        m@ == seq![(0xB0 | (channel & 0x0F)) as u8, if controller < 127 { controller } else { 127 }, if value
            < 127 {
            value
        } else {
            127
        }],
{
    let c = if controller < 127 { controller } else { 127 };
    let v = if value < 127 { value } else { 127 };
    let m = [0xB0 | (channel & 0x0F), c, v];
    proof {
        assert(m@ =~= seq![(0xB0 | (channel & 0x0F)) as u8, c, v]);
    }
    m
}

} // verus!
