use vstd::prelude::*;
use crate::actions::Action;
use crate::assoc::assoc_lookup;
use crate::config::{DeviceConfig, HardwareDef, HardwareInput, InputKind, LayerDef, SoftwareDef};
use crate::software::SignalView;
use crate::text::str_eq;
use crate::edit::{find_layer, layer_index};
use crate::pipewire::{edge_links, find_index, route_is_active_with_edges, spec_resolve_node_name, PwCommand, PwObject};
use crate::session::{add_name, forget_inputs, input_key_matches, save_if, Effect, LearnTarget, Session, MONITOR_LINES};
use crate::midi::MidiEvent;
use crate::pipewire::PwEvent;
use crate::session::remove_name;
use crate::config::Config;
use crate::device::{input_learned, learn_input};
use crate::edit::{find_hardware, hardware_index};
use crate::text::{hex_line, push_decimal, push_hex_line};
use crate::assoc::assoc_insert;
use crate::ids::layer_named;
use crate::config::ControlRef;
use crate::text::{decimal, norm_text, norm_value_text, replace_all, replaced, to_decimal};

verus! {

/// How a bank action changes the bank offset of the active layer.
#[derive(Debug, Clone, Copy, PartialEq, Eq, Structural)]
pub enum BankChange {
    To(u8),
    Up,
    Down,
}

/// The bank offset after `c`: banks move by eight, stopping at 0 and 255.
pub open spec fn changed_bank(bank: u8, c: BankChange) -> u8 {
    match c {
        BankChange::To(v) => v,
        BankChange::Up => if bank > 247 { 255 } else { (bank + 8) as u8 },
        BankChange::Down => if bank < 8 { 0 } else { (bank - 8) as u8 },
    }
}

/// Whether the first PipeWire object that `target` names is muted (false when none is).
pub open spec fn target_muted(objects: Seq<PwObject>, target: Seq<char>) -> bool {
    match find_index(objects, target) {
        Some(k) => objects[k].muted,
        None => false,
    }
}

/// Whether the PipeWire graph links the stream `stream` into the sink `sink`.
pub open spec fn route_active(edges: Seq<(String, String)>, objects: Seq<PwObject>, stream: Seq<char>, sink: Seq<char>) -> bool {
    exists|k: int|
        0 <= k < edges.len() && #[trigger] edge_links(
            edges[k],
            spec_resolve_node_name(objects, stream),
            spec_resolve_node_name(objects, sink),
        )
}

/// A command line with its placeholders filled in: `$RAW_VALUE` by the raw
/// value, `$NORM_VALUE` by the value over 127 with four decimals, and
/// `$BANK_OFFSET` by the bank offset.
pub open spec fn expanded_command(command: Seq<char>, raw: u8, bank: u8) -> Seq<char> {
    replaced(
        replaced(replaced(command, "$RAW_VALUE"@, decimal(raw as nat)), "$NORM_VALUE"@, norm_text(raw)),
        "$BANK_OFFSET"@,
        decimal(bank as nat),
    )
}

/// Fills in the placeholders of `command`.
pub fn expand_command(command: &str, raw: u8, bank: u8) -> (r: String)
    ensures
        r@ == expanded_command(command@, raw, bank),
{
    let p1 = "$RAW_VALUE";
    let p2 = "$NORM_VALUE";
    let p3 = "$BANK_OFFSET";
    proof {
        reveal_strlit("$RAW_VALUE");
        reveal_strlit("$NORM_VALUE");
        reveal_strlit("$BANK_OFFSET");
    }
    let a = replace_all(command, p1, to_decimal(raw as u64).as_str());
    let b = replace_all(a.as_str(), p2, norm_value_text(raw).as_str());
    replace_all(b.as_str(), p3, to_decimal(bank as u64).as_str())
}

impl Session {
    /// The device named `dev` and the layer recorded as its active layer,
    /// when both exist (no fallback to the first layer).
    pub open spec fn explicit_active(self, dev: Seq<char>) -> Option<(int, int)> {
        let i = self.config.index_of(dev);
        if i < self.config.devs().len() {
            match self.active_name(dev) {
                Some(l) => {
                    let li = layer_index(self.config.devs()[i].layers@, l@);
                    if li < self.config.devs()[i].layers@.len() {
                        Some((i, li))
                    } else {
                        None
                    }
                },
                None => None,
            }
        } else {
            None
        }
    }

    /// The bank offset of the active layer of device `dev` (with the first
    /// layer standing in), or 0.
    pub open spec fn bank_of(self, dev: Seq<char>) -> u8 {
        match self.config.lookup(dev) {
            Some(d) => match self.active_layer_index(d, dev) {
                Some(li) => d.layers@[li].bank_offset,
                None => 0,
            },
            None => 0,
        }
    }

    /// Changes the bank offset of the recorded active layer of device `dev`.
    pub fn change_bank(&mut self, dev: &str, c: BankChange, fx: &mut Vec<Effect>)
        requires
            old(self).wf(),
        ensures
            final(self).wf(),
            match old(self).explicit_active(dev@) {
                Some((i, li)) => {
                    let od = old(self).config.devs()[i];
                    let nd = final(self).config.devs()[i];
                    let ol = od.layers@[li];
                    &&& final(self).config.names() == old(self).config.names()
                    &&& final(self).config.devs() == old(self).config.devs().update(i, nd)
                    &&& nd == (DeviceConfig { layers: nd.layers, ..od })
                    &&& nd.layers@ == od.layers@.update(li, LayerDef { bank_offset: changed_bank(ol.bank_offset, c), ..ol })
                    &&& *final(self) == (Session { config: final(self).config, dirty: true, ..*old(self) })
                    &&& final(fx)@ == old(fx)@.push(Effect::MarkDirty)
                },
                None => *final(self) == *old(self) && final(fx)@ == old(fx)@,
            },
    {
        let i = match self.config.index_of_device(dev) {
            Some(i) => i,
            None => return,
        };
        let li = match assoc_lookup(&self.active_layers, dev) {
            Some(l) => find_layer(&self.config.device(i).unwrap().layers, l.as_str()),
            None => return,
        };
        if li >= self.config.device(i).unwrap().layers.len() {
            return;
        }
        let mut d = DeviceConfig::blank();
        self.config.swap_device(i, &mut d);
        let mut layer = d.layers.remove(li);
        let bank = layer.bank_offset;
        layer.bank_offset = match c {
            BankChange::To(v) => v,
            BankChange::Up => bank.saturating_add(8),
            BankChange::Down => bank.saturating_sub(8),
        };
        d.layers.insert(li, layer);
        proof {
            assert(d.layers@ =~= old(self).config.devs()[i as int].layers@.update(
                li as int,
                LayerDef {
                    bank_offset: changed_bank(old(self).config.devs()[i as int].layers@[li as int].bank_offset, c),
                    ..old(self).config.devs()[i as int].layers@[li as int]
                },
            ));
        }
        self.config.swap_device(i, &mut d);
        proof {
            assert(self.config.devs() =~= old(self).config.devs().update(i as int, self.config.devs()[i as int]));
        }
        self.mark_dirty(fx);
    }

    /// The bank offset of the active layer of device `dev` (with the first
    /// layer standing in), or 0.
    pub fn current_bank(&self, dev: &str) -> (b: u8)
        requires
            self.wf(),
        ensures
            b == self.bank_of(dev@),
    {
        match self.config.device_by_name(dev) {
            Some(d) => match self.find_active_layer(d, dev) {
                Some(li) => d.layers[li].bank_offset,
                None => 0,
            },
            None => 0,
        }
    }
}

/// Whether `new` and the effects `fx1` follow from `old` and `fx0` when
/// `a` runs for the raw value `raw` received from device `dev`.
pub open spec fn action_done(old: Session, new: Session, a: Action, raw: u8, dev: Seq<char>, fx0: Seq<Effect>, fx1: Seq<Effect>) -> bool {
    match a {
        Action::NoOp | Action::SelectLayer { .. } => new == old && fx1 == fx0,
        Action::SetVolume { target, min, max, mode, encoder, step, .. } => new == old && fx1 == fx0.push(
            Effect::SetVolume { target, min, max, mode, encoder, step, raw },
        ),
        Action::ToggleMute { target } => new == old && fx1 == fx0.push(
            Effect::Pw(PwCommand::Mute { target, muted: !target_muted(old.pw_objects@, target@) }),
        ),
        Action::RouteStream { stream_id, sink_id } => new == old && fx1 == fx0.push(
            Effect::Pw(
                PwCommand::Route {
                    stream: stream_id,
                    sink: sink_id,
                    connect: !route_active(old.pw_edges@, old.pw_objects@, stream_id@, sink_id@),
                },
            ),
        ),
        Action::RunCommand { command } => {
            &&& new == old
            &&& fx1.len() == fx0.len() + 1
            &&& fx1.take(fx0.len() as int) == fx0
            &&& fx1.last() matches Effect::RunShell(c) && c@ == expanded_command(command@, raw, old.bank_of(dev))
        },
        Action::MidiSendNote { channel, note, velocity } => {
            &&& new == old
            &&& fx1.len() == fx0.len() + 1
            &&& fx1.take(fx0.len() as int) == fx0
            &&& fx1.last() matches Effect::SendNote { device, channel: c, note: n, velocity: v } && device@ == dev
                && c == channel && n == note && v == velocity
        },
        Action::MidiSendCc { channel, controller, value } => {
            &&& new == old
            &&& fx1.len() == fx0.len() + 1
            &&& fx1.take(fx0.len() as int) == fx0
            &&& fx1.last() matches Effect::SendCc { device, channel: c, controller: n, value: v } && device@ == dev
                && c == channel && n == controller && v == value
        },
        Action::SetBankOffset { offset } => bank_changed(old, new, dev, BankChange::To(offset), fx0, fx1),
        Action::BankIncrement => bank_changed(old, new, dev, BankChange::Up, fx0, fx1),
        Action::BankDecrement => bank_changed(old, new, dev, BankChange::Down, fx0, fx1),
    }
}

/// Whether `new` is `old` with the bank offset of the active layer of `dev`
/// changed by `c` (nothing when `dev` has no recorded active layer).
pub open spec fn bank_changed(old: Session, new: Session, dev: Seq<char>, c: BankChange, fx0: Seq<Effect>, fx1: Seq<Effect>) -> bool {
    match old.explicit_active(dev) {
        Some((i, li)) => {
            let od = old.config.devs()[i];
            let nd = new.config.devs()[i];
            let ol = od.layers@[li];
            &&& new.config.names() == old.config.names()
            &&& new.config.devs() == old.config.devs().update(i, nd)
            &&& nd == (DeviceConfig { layers: nd.layers, ..od })
            &&& nd.layers@ == od.layers@.update(li, LayerDef { bank_offset: changed_bank(ol.bank_offset, c), ..ol })
            &&& new == (Session { config: new.config, dirty: true, ..old })
            &&& fx1 == fx0.push(Effect::MarkDirty)
        },
        None => new == old && fx1 == fx0,
    }
}

impl Session {
    /// Runs action `a` for the raw value `raw` received from device `dev`.
    pub fn execute_action(&mut self, a: &Action, raw: u8, dev: &str, fx: &mut Vec<Effect>)
        requires
            old(self).wf(),
        ensures
            final(self).wf(),
            action_done(*old(self), *final(self), *a, raw, dev@, old(fx)@, final(fx)@),
    {
        match a {
            Action::NoOp | Action::SelectLayer { .. } => {},
            Action::SetVolume { target, min, max, mode, encoder, step, .. } => {
                fx.push(
                    Effect::SetVolume {
                        target: target.clone(),
                        min: *min,
                        max: *max,
                        mode: *mode,
                        encoder: *encoder,
                        step: *step,
                        raw,
                    },
                );
            },
            Action::ToggleMute { target } => {
                let muted = match PwObject::find(self.pw_objects.as_slice(), target.as_str()) {
                    Some(o) => o.muted,
                    None => false,
                };
                fx.push(Effect::Pw(PwCommand::Mute { target: target.clone(), muted: !muted }));
            },
            Action::RouteStream { stream_id, sink_id } => {
                let active = route_is_active_with_edges(
                    self.pw_edges.as_slice(),
                    self.pw_objects.as_slice(),
                    stream_id.as_str(),
                    sink_id.as_str(),
                );
                fx.push(Effect::Pw(PwCommand::Route { stream: stream_id.clone(), sink: sink_id.clone(), connect: !active }));
            },
            Action::RunCommand { command } => {
                let bank = self.current_bank(dev);
                let cmd = expand_command(command.as_str(), raw, bank);
                fx.push(Effect::RunShell(cmd));
                proof {
                    assert(fx@.take(old(fx)@.len() as int) =~= old(fx)@);
                }
            },
            Action::MidiSendNote { channel, note, velocity } => {
                fx.push(Effect::SendNote { device: dev.to_owned(), channel: *channel, note: *note, velocity: *velocity });
                proof {
                    assert(fx@.take(old(fx)@.len() as int) =~= old(fx)@);
                }
            },
            Action::MidiSendCc { channel, controller, value } => {
                fx.push(Effect::SendCc { device: dev.to_owned(), channel: *channel, controller: *controller, value: *value });
                proof {
                    assert(fx@.take(old(fx)@.len() as int) =~= old(fx)@);
                }
            },
            Action::SetBankOffset { offset } => self.change_bank(dev, BankChange::To(*offset), fx),
            Action::BankIncrement => self.change_bank(dev, BankChange::Up, fx),
            Action::BankDecrement => self.change_bank(dev, BankChange::Down, fx),
        }
    }
}

/// Toggling mute sends, for the target, the opposite of the muted flag of
/// the object that `PwObject::find` selects for it (so an unmuted target is
/// muted), and asks to mute when no object matches; nothing else changes.
pub proof fn lemma_toggle_mute_flips_found_object(
    s0: Session,
    s1: Session,
    target: String,
    raw: u8,
    dev: Seq<char>,
    fx0: Seq<Effect>,
    fx1: Seq<Effect>,
)
    requires
        action_done(s0, s1, Action::ToggleMute { target }, raw, dev, fx0, fx1),
    ensures
        s1 == s0,
        fx1.len() == fx0.len() + 1,
        fx1.take(fx0.len() as int) == fx0,
        fx1.last() matches Effect::Pw(PwCommand::Mute { target: t, muted }) && t == target && muted == match find_index(
            s0.pw_objects@,
            target@,
        ) {
            Some(k) => !s0.pw_objects@[k].muted,
            None => true,
        },
{
    assert(fx1.take(fx0.len() as int) =~= fx0);
}

/// Whether `input` listens to messages of `kind` on `channel` with `number`
/// (any number, for pitch bend).
pub open spec fn input_listens(input: HardwareInput, kind: InputKind, channel: u8, number: u8) -> bool {
    &&& input.kind == kind
    &&& input.channel == channel
    &&& (kind == InputKind::PitchBend || input.number == number)
}

/// Position of the first input of `inputs` that listens, or `inputs.len()`.
pub open spec fn listening_input(inputs: Seq<HardwareInput>, kind: InputKind, channel: u8, number: u8) -> int
    decreases inputs.len(),
{
    if inputs.len() == 0 || input_listens(inputs[0], kind, channel, number) {
        0
    } else {
        1 + listening_input(inputs.drop_first(), kind, channel, number)
    }
}

/// Position of the first control with an input that listens, or `hws.len()`.
pub open spec fn listening_control(hws: Seq<HardwareDef>, kind: InputKind, channel: u8, number: u8) -> int
    decreases hws.len(),
{
    if hws.len() == 0 || listening_input(hws[0].inputs@, kind, channel, number) < hws[0].inputs@.len() {
        0
    } else {
        1 + listening_control(hws.drop_first(), kind, channel, number)
    }
}

proof fn lemma_listening_input(inputs: Seq<HardwareInput>, kind: InputKind, channel: u8, number: u8, i: int)
    requires
        0 <= i <= inputs.len(),
        i < inputs.len() ==> input_listens(inputs[i], kind, channel, number),
        forall|j: int| 0 <= j < i ==> !input_listens(#[trigger] inputs[j], kind, channel, number),
    ensures
        listening_input(inputs, kind, channel, number) == i,
    decreases inputs.len(),
{
    if inputs.len() > 0 && !input_listens(inputs[0], kind, channel, number) {
        assert forall|j: int| 0 <= j < i - 1 implies !input_listens(#[trigger] inputs.drop_first()[j], kind, channel, number) by {
            assert(inputs.drop_first()[j] == inputs[j + 1]);
        }
        lemma_listening_input(inputs.drop_first(), kind, channel, number, i - 1);
    }
}

proof fn lemma_listening_control(hws: Seq<HardwareDef>, kind: InputKind, channel: u8, number: u8, h: int)
    requires
        0 <= h <= hws.len(),
        h < hws.len() ==> listening_input(hws[h].inputs@, kind, channel, number) < hws[h].inputs@.len(),
        forall|j: int|
            0 <= j < h ==> listening_input(#[trigger] hws[j].inputs@, kind, channel, number) >= hws[j].inputs@.len(),
    ensures
        listening_control(hws, kind, channel, number) == h,
    decreases hws.len(),
{
    if hws.len() > 0 && listening_input(hws[0].inputs@, kind, channel, number) >= hws[0].inputs@.len() {
        assert forall|j: int| 0 <= j < h - 1 implies listening_input(
            #[trigger] hws.drop_first()[j].inputs@,
            kind,
            channel,
            number,
        ) >= hws.drop_first()[j].inputs@.len() by {
            assert(hws.drop_first()[j] == hws[j + 1]);
        }
        lemma_listening_control(hws.drop_first(), kind, channel, number, h - 1);
    }
}

/// Position of the first input of `inputs` that listens, or `inputs.len()`.
fn find_listening_input(inputs: &Vec<HardwareInput>, kind: InputKind, channel: u8, number: u8) -> (k: usize)
    ensures
        k == listening_input(inputs@, kind, channel, number),
        k <= inputs@.len(),
{
    let mut k: usize = 0;
    while k < inputs.len()
        invariant
            k <= inputs@.len(),
            forall|j: int| 0 <= j < k ==> !input_listens(#[trigger] inputs@[j], kind, channel, number),
        decreases inputs@.len() - k,
    {
        let input = &inputs[k];
        if input.kind == kind && input.channel == channel && (kind == InputKind::PitchBend || input.number == number) {
            proof {
                lemma_listening_input(inputs@, kind, channel, number, k as int);
            }
            return k;
        }
        k = k + 1;
    }
    proof {
        lemma_listening_input(inputs@, kind, channel, number, k as int);
    }
    k
}

/// The control and input of `d` that a message of `kind` on `channel` with
/// `number` is meant for: the first control with an input that listens, and
/// its first such input.
pub fn find_listener(d: &DeviceConfig, kind: InputKind, channel: u8, number: u8) -> (r: Option<(usize, usize)>)
    ensures
        match r {
            Some((h, k)) => {
                &&& h == listening_control(d.hardware@, kind, channel, number)
                &&& h < d.hardware@.len()
                &&& k == listening_input(d.hardware@[h as int].inputs@, kind, channel, number)
                &&& k < d.hardware@[h as int].inputs@.len()
                &&& d.hardware@[h as int].inputs@[k as int].kind == kind
                &&& d.hardware@[h as int].inputs@[k as int].channel == channel
                &&& (kind == InputKind::PitchBend || d.hardware@[h as int].inputs@[k as int].number == number)
            },
            None => listening_control(d.hardware@, kind, channel, number) == d.hardware@.len(),
        },
{
    let mut h: usize = 0;
    while h < d.hardware.len()
        invariant
            h <= d.hardware@.len(),
            forall|j: int|
                0 <= j < h ==> listening_input(#[trigger] d.hardware@[j].inputs@, kind, channel, number)
                    >= d.hardware@[j].inputs@.len(),
        decreases d.hardware@.len() - h,
    {
        let k = find_listening_input(&d.hardware[h].inputs, kind, channel, number);
        if k < d.hardware[h].inputs.len() {
            proof {
                lemma_listening_control(d.hardware@, kind, channel, number, h as int);
                lemma_listener_matches_message(d.hardware@, kind, channel, number);
            }
            return Some((h, k));
        }
        h = h + 1;
    }
    proof {
        lemma_listening_control(d.hardware@, kind, channel, number, h as int);
    }
    None
}

proof fn lemma_listening_input_found(inputs: Seq<HardwareInput>, kind: InputKind, channel: u8, number: u8)
    ensures
        0 <= listening_input(inputs, kind, channel, number) <= inputs.len(),
        listening_input(inputs, kind, channel, number) < inputs.len() ==> input_listens(
            inputs[listening_input(inputs, kind, channel, number)],
            kind,
            channel,
            number,
        ),
        forall|j: int|
            0 <= j < listening_input(inputs, kind, channel, number) ==> !input_listens(
                #[trigger] inputs[j],
                kind,
                channel,
                number,
            ),
    decreases inputs.len(),
{
    if inputs.len() > 0 && !input_listens(inputs[0], kind, channel, number) {
        let rest = inputs.drop_first();
        lemma_listening_input_found(rest, kind, channel, number);
        assert forall|j: int| 0 <= j < listening_input(inputs, kind, channel, number) implies !input_listens(
            #[trigger] inputs[j],
            kind,
            channel,
            number,
        ) by {
            if j > 0 {
                assert(inputs[j] == rest[j - 1]);
            }
        }
        if listening_input(inputs, kind, channel, number) < inputs.len() {
            assert(inputs[listening_input(inputs, kind, channel, number)] == rest[listening_input(rest, kind, channel, number)]);
        }
    }
}

proof fn lemma_listening_control_found(hws: Seq<HardwareDef>, kind: InputKind, channel: u8, number: u8)
    ensures
        0 <= listening_control(hws, kind, channel, number) <= hws.len(),
        listening_control(hws, kind, channel, number) < hws.len() ==> listening_input(
            hws[listening_control(hws, kind, channel, number)].inputs@,
            kind,
            channel,
            number,
        ) < hws[listening_control(hws, kind, channel, number)].inputs@.len(),
        forall|j: int|
            0 <= j < listening_control(hws, kind, channel, number) ==> listening_input(
                #[trigger] hws[j].inputs@,
                kind,
                channel,
                number,
            ) >= hws[j].inputs@.len(),
    decreases hws.len(),
{
    if hws.len() > 0 && listening_input(hws[0].inputs@, kind, channel, number) >= hws[0].inputs@.len() {
        let rest = hws.drop_first();
        lemma_listening_control_found(rest, kind, channel, number);
        assert forall|j: int| 0 <= j < listening_control(hws, kind, channel, number) implies listening_input(
            #[trigger] hws[j].inputs@,
            kind,
            channel,
            number,
        ) >= hws[j].inputs@.len() by {
            if j > 0 {
                assert(hws[j] == rest[j - 1]);
            }
        }
        if listening_control(hws, kind, channel, number) < hws.len() {
            assert(hws[listening_control(hws, kind, channel, number)] == rest[listening_control(rest, kind, channel, number)]);
        }
    }
}

/// A message of `kind` on `channel` with `number` reaches an input only when
/// that input has the message's kind and channel and, unless the message is a
/// pitch bend, its number too; and it reaches none exactly when no input of
/// any control matches it so.
pub proof fn lemma_listener_matches_message(hws: Seq<HardwareDef>, kind: InputKind, channel: u8, number: u8)
    ensures
        listening_control(hws, kind, channel, number) < hws.len() ==> {
            let h = listening_control(hws, kind, channel, number);
            let inputs = hws[h].inputs@;
            let k = listening_input(inputs, kind, channel, number);
            &&& 0 <= h
            &&& 0 <= k < inputs.len()
            &&& inputs[k].kind == kind
            &&& inputs[k].channel == channel
            &&& (kind == InputKind::PitchBend || inputs[k].number == number)
        },
        listening_control(hws, kind, channel, number) == hws.len() <==> forall|a: int, b: int|
            0 <= a < hws.len() && 0 <= b < hws[a].inputs@.len() ==> !{
                let candidate = #[trigger] hws[a].inputs@[b];
                &&& candidate.kind == kind
                &&& candidate.channel == channel
                &&& (kind == InputKind::PitchBend || candidate.number == number)
            },
{
    lemma_listening_control_found(hws, kind, channel, number);
    let h = listening_control(hws, kind, channel, number);
    if h < hws.len() {
        lemma_listening_input_found(hws[h].inputs@, kind, channel, number);
        let k = listening_input(hws[h].inputs@, kind, channel, number);
        assert(input_listens(hws[h].inputs@[k], kind, channel, number));
    } else {
        assert forall|a: int, b: int| 0 <= a < hws.len() && 0 <= b < hws[a].inputs@.len() implies !{
            let candidate = #[trigger] hws[a].inputs@[b];
            &&& candidate.kind == kind
            &&& candidate.channel == channel
            &&& (kind == InputKind::PitchBend || candidate.number == number)
        } by {
            assert(listening_input(hws[a].inputs@, kind, channel, number) >= hws[a].inputs@.len());
            lemma_listening_input_found(hws[a].inputs@, kind, channel, number);
            assert(!input_listens(hws[a].inputs@[b], kind, channel, number));
        }
    }
}

/// The actions of the signal entries of `signals` that listen to input
/// `label`, in order.
pub open spec fn triggered(signals: Seq<SignalView>, label: Seq<char>) -> Seq<Action>
    decreases signals.len(),
{
    if signals.len() == 0 {
        Seq::empty()
    } else {
        triggered(signals.drop_last(), label) + if signals.last().input == label {
            signals.last().actions
        } else {
            Seq::empty()
        }
    }
}

/// The actions that input `label` triggers in `sw`, in order.
pub fn triggered_actions(sw: &SoftwareDef, label: &str) -> (acts: Vec<Action>)
    ensures
        acts@ == triggered(sw@.signals, label@),
{
    let mut acts: Vec<Action> = Vec::new();
    let mut i: usize = 0;
    while i < sw.signal_entries.len()
        invariant
            i <= sw.signal_entries@.len(),
            acts@ == triggered(sw@.signals.take(i as int), label@),
        decreases sw.signal_entries@.len() - i,
    {
        let ghost before = acts@;
        let se = &sw.signal_entries[i];
        if str_eq(se.input.as_str(), label) {
            let mut k: usize = 0;
            while k < se.actions.len()
                invariant
                    k <= se.actions@.len(),
                    acts@ == before + se.actions@.take(k as int),
                decreases se.actions@.len() - k,
            {
                acts.push(se.actions[k].clone());
                k = k + 1;
                proof {
                    assert(acts@ =~= before + se.actions@.take(k as int));
                }
            }
            proof {
                assert(se.actions@.take(k as int) =~= se.actions@);
            }
        }
        proof {
            let t = sw@.signals.take(i + 1);
            assert(t.drop_last() =~= sw@.signals.take(i as int));
            assert(t.last() == se@);
            if se.input@ == label@ {
                assert(acts@ =~= triggered(t, label@));
            } else {
                assert(acts@ =~= triggered(t, label@));
            }
        }
        i = i + 1;
    }
    proof {
        assert(sw@.signals.take(i as int) =~= sw@.signals);
    }
    acts
}

/// The layer that the first layer-selecting action of `acts` selects.
pub open spec fn layer_switch(acts: Seq<Action>) -> Option<String>
    decreases acts.len(),
{
    if acts.len() == 0 {
        None
    } else {
        match acts[0] {
            Action::SelectLayer { layer } => Some(layer),
            _ => layer_switch(acts.drop_first()),
        }
    }
}

/// The layer that the first layer-selecting action of `acts` selects.
pub fn first_layer_switch(acts: &Vec<Action>) -> (r: Option<String>)
    ensures
        r == layer_switch(acts@),
{
    let mut i: usize = 0;
    proof {
        assert(acts@.skip(0) =~= acts@);
    }
    while i < acts.len()
        invariant
            i <= acts@.len(),
            layer_switch(acts@) == layer_switch(acts@.skip(i as int)),
        decreases acts@.len() - i,
    {
        proof {
            assert(acts@.skip(i as int).drop_first() =~= acts@.skip(i + 1));
        }
        match &acts[i] {
            Action::SelectLayer { layer } => {
                return Some(layer.clone());
            },
            _ => {},
        }
        i = i + 1;
    }
    None
}

/// Whether `states` and `effects` are the sessions and effect lists before
/// and after each of the actions `acts`, run one after the other.
pub open spec fn run_trace(states: Seq<Session>, effects: Seq<Seq<Effect>>, acts: Seq<Action>, raw: u8, dev: Seq<char>) -> bool {
    &&& states.len() == acts.len() + 1
    &&& effects.len() == acts.len() + 1
    &&& forall|i: int|
        0 <= i < acts.len() ==> action_done(
            #[trigger] states[i],
            states[i + 1],
            acts[i],
            raw,
            dev,
            effects[i],
            effects[i + 1],
        )
}

/// Whether `new` and `fx1` follow from `old` and `fx0` when the actions
/// `acts` run one after the other.
pub open spec fn actions_run(old: Session, acts: Seq<Action>, raw: u8, dev: Seq<char>, fx0: Seq<Effect>, new: Session, fx1: Seq<Effect>) -> bool {
    exists|states: Seq<Session>, effects: Seq<Seq<Effect>>|
        #[trigger] run_trace(states, effects, acts, raw, dev) && states[0] == old && effects[0] == fx0
            && states.last() == new && effects.last() == fx1
}

/// Whether `new` and `fx1` follow from `old` and `fx0` when a triggered
/// action selects layer `target` of device `dev`: when the device has such a
/// layer it becomes the active one (and the shown one, if the device is the
/// selected one), and editing stops.
pub open spec fn switched(old: Session, new: Session, dev: Seq<char>, target: Option<String>, fx0: Seq<Effect>, fx1: Seq<Effect>) -> bool {
    match target {
        Some(nl) => if old.config.lookup(dev) matches Some(d) && layer_named(d.layers@, nl@) {
            &&& forall|q: Seq<char>| #[trigger] new.active_name(q) == (if q == dev {
                Some(nl)
            } else {
                old.active_name(q)
            })
            &&& new.selected_layer == (if old.selected_device_name matches Some(s) && s@ == dev {
                Some(nl)
            } else {
                old.selected_layer
            })
            &&& new == (Session {
                active_layers: new.active_layers,
                selected_layer: new.selected_layer,
                editing_icon_idx: None,
                learn_target: None,
                ..old
            })
            &&& fx1 == fx0 + save_if(old.editing_icon_idx is Some)
        } else {
            new == old && fx1 == fx0
        },
        None => new == old && fx1 == fx0,
    }
}

impl Session {
    /// Makes `target` the active layer of device `dev` when it has such a layer.
    pub fn switch_layer(&mut self, dev: &str, target: Option<String>, fx: &mut Vec<Effect>)
        requires
            old(self).wf(),
        ensures
            final(self).wf(),
            switched(*old(self), *final(self), dev@, target, old(fx)@, final(fx)@),
    {
        let nl = match target {
            Some(nl) => nl,
            None => return,
        };
        let exists = match self.config.device_by_name(dev) {
            Some(d) => {
                let li = find_layer(&d.layers, nl.as_str());
                proof {
                    if layer_named(d.layers@, nl@) {
                        let j = choose|j: int| 0 <= j < d.layers@.len() && #[trigger] d.layers@[j].name@ == nl@;
                        assert(d.layers@[j].name@ == nl@);
                    }
                }
                li < d.layers.len()
            },
            None => false,
        };
        if !exists {
            return;
        }
        assoc_insert(&mut self.active_layers, dev.to_owned(), nl.clone());
        let is_selected = match &self.selected_device_name {
            Some(s) => str_eq(s.as_str(), dev),
            None => false,
        };
        if is_selected {
            self.selected_layer = Some(nl);
        }
        self.clear_editing(fx);
    }

    /// Handles a message of `kind` on `channel` with `number` and raw value
    /// `raw` from device `port`: finds the control input it is meant for,
    /// runs the actions that input triggers in the device's active layer
    /// (after switching layer when one of them selects a layer), records the
    /// raw value, and asks for feedback and visuals.
    pub fn dispatch_hardware_event(&mut self, port: &str, kind: InputKind, channel: u8, number: u8, raw: u8, fx: &mut Vec<Effect>)
        requires
            old(self).wf(),
        ensures
            final(self).wf(),
            final(self).midi_monitor == old(self).midi_monitor,
            event_dispatched(*old(self), *final(self), port@, kind, channel, number, raw, old(fx)@, final(fx)@),
    {
        let di = match self.config.index_of_device(port) {
            Some(i) => i,
            None => return,
        };
        let d = self.config.device(di).unwrap();
        proof {
            crate::config::lemma_name_index(self.config.names(), port@);
        }
        let (h, k) = match find_listener(d, kind, channel, number) {
            Some(p) => p,
            None => return,
        };
        let li = match self.find_active_layer(d, port) {
            Some(li) => li,
            None => return,
        };
        let hw_id = d.hardware[h].id.clone();
        let label = d.hardware[h].inputs[k].label.clone();
        let acts = match d.layers[li].software(hw_id.as_str()) {
            Some(sw) => triggered_actions(sw, label.as_str()),
            None => return,
        };
        let ghost s0 = *self;
        let ghost fx0 = fx@;
        let target = first_layer_switch(&acts);
        self.switch_layer(port, target, fx);
        let ghost s1 = *self;
        let ghost fx1 = fx@;
        let ghost mut states: Seq<Session> = seq![s1];
        let ghost mut effects: Seq<Seq<Effect>> = seq![fx1];
        let mut i: usize = 0;
        while i < acts.len()
            invariant
                self.wf(),
                self.midi_monitor == s1.midi_monitor,
                i <= acts@.len(),
                run_trace(states, effects, acts@.take(i as int), raw, port@),
                states[0] == s1,
                effects[0] == fx1,
                states.last() == *self,
                effects.last() == fx@,
            decreases acts@.len() - i,
        {
            self.execute_action(&acts[i], raw, port, fx);
            proof {
                let t = acts@.take(i + 1);
                let ns = states.push(*self);
                let ne = effects.push(fx@);
                assert forall|j: int| 0 <= j < t.len() implies action_done(
                    #[trigger] ns[j],
                    ns[j + 1],
                    t[j],
                    raw,
                    port@,
                    ne[j],
                    ne[j + 1],
                ) by {
                    if j < i {
                        assert(ns[j] == states[j]);
                        assert(ns[j + 1] == states[j + 1]);
                        assert(t[j] == acts@.take(i as int)[j]);
                        assert(action_done(states[j], states[j + 1], acts@.take(i as int)[j], raw, port@, effects[j], effects[j + 1]));
                    }
                }
                states = ns;
                effects = ne;
            }
            i = i + 1;
        }
        proof {
            assert(acts@.take(i as int) =~= acts@);
            assert(run_trace(states, effects, acts@, raw, port@));
        }
        let ghost s2 = *self;
        let ghost fx2 = fx@;
        forget_inputs(&mut self.last_input_value, port, hw_id.as_str(), Some(label.as_str()));
        self.last_input_value.push((ControlRef::new(port, hw_id.as_str(), label.as_str()), raw));
        fx.push(Effect::EvaluateFeedback);
        fx.push(Effect::EvaluateVisuals);
        proof {
            assert(fx@ =~= fx2 + seq![Effect::EvaluateFeedback, Effect::EvaluateVisuals]);
            assert(switched(s0, s1, port@, layer_switch(acts@), fx0, fx1));
            assert(actions_run(s1, acts@, raw, port@, fx1, s2, fx2));
            let dd = s0.config.lookup(port@)->0;
            assert(dd == s0.config.devs()[di as int]);
            assert(h == listening_control(dd.hardware@, kind, channel, number));
            assert(s0.active_layer_index(dd, port@) == Some(li as int));
            let hw = dd.hardware@[h as int];
            assert(label@ == hw.inputs@[listening_input(hw.inputs@, kind, channel, number)].label@);
            let sw = dd.layers@[li as int].spec_software(hw.id@)->0;
            assert(acts@ == triggered(sw@.signals, label@));
            assert(*self == (Session { last_input_value: self.last_input_value, ..s2 }));
            let flt = s2.last_input_value@.filter(|e: (ControlRef, u8)| !input_key_matches(e, port@, hw.id@, Some(label@)));
            assert(self.last_input_value@.drop_last() == flt);
            assert(input_key_matches(self.last_input_value@.last(), port@, hw.id@, Some(label@)));
        }
    }
}

/// Whether `new` and `fx1` follow from `old` and `fx0` when device `dev`
/// sends a message of `kind` on `channel` with `number` and raw value `raw`.
pub open spec fn event_dispatched(
    old: Session,
    new: Session,
    dev: Seq<char>,
    kind: InputKind,
    channel: u8,
    number: u8,
    raw: u8,
    fx0: Seq<Effect>,
    fx1: Seq<Effect>,
) -> bool {
    match old.config.lookup(dev) {
        None => new == old && fx1 == fx0,
        Some(d) => {
            let h = listening_control(d.hardware@, kind, channel, number);
            if h >= d.hardware@.len() {
                new == old && fx1 == fx0
            } else {
                let hw = d.hardware@[h];
                let label = hw.inputs@[listening_input(hw.inputs@, kind, channel, number)].label@;
                match old.active_layer_index(d, dev) {
                    None => new == old && fx1 == fx0,
                    Some(li) => match d.layers@[li].spec_software(hw.id@) {
                        None => new == old && fx1 == fx0,
                        Some(sw) => {
                            let acts = triggered(sw@.signals, label);
                            exists|s1: Session, f1: Seq<Effect>, s2: Session, f2: Seq<Effect>|
                                #![trigger switched(old, s1, dev, layer_switch(acts), fx0, f1), actions_run(s1, acts, raw, dev, f1, s2, f2)]
                                {
                                    &&& switched(old, s1, dev, layer_switch(acts), fx0, f1)
                                    &&& actions_run(s1, acts, raw, dev, f1, s2, f2)
                                    &&& new == (Session { last_input_value: new.last_input_value, ..s2 })
                                    &&& new.last_input_value@.len() == s2.last_input_value@.filter(
                                        |e: (ControlRef, u8)| !input_key_matches(e, dev, hw.id@, Some(label)),
                                    ).len() + 1
                                    &&& new.last_input_value@.drop_last() == s2.last_input_value@.filter(
                                        |e: (ControlRef, u8)| !input_key_matches(e, dev, hw.id@, Some(label)),
                                    )
                                    &&& input_key_matches(new.last_input_value@.last(), dev, hw.id@, Some(label))
                                    &&& new.last_input_value@.last().1 == raw
                                    &&& fx1 == f2 + seq![Effect::EvaluateFeedback, Effect::EvaluateVisuals]
                                }
                        },
                    },
                }
            }
        },
    }
}

/// The monitor lines after `line` was added: the oldest line goes once
/// there are more than the monitor keeps.
pub open spec fn monitored(lines: Seq<String>, line: String) -> Seq<String> {
    if lines.len() + 1 > MONITOR_LINES {
        lines.push(line).drop_first()
    } else {
        lines.push(line)
    }
}

/// Whether `new` and `fx1` follow from `old` and `fx0` when MIDI learn,
/// aimed at `t`, captures a message of `kind` on `channel` with `number`.
pub open spec fn learned(old: Session, new: Session, t: LearnTarget, kind: InputKind, channel: u8, number: u8, fx0: Seq<Effect>, fx1: Seq<Effect>) -> bool {
    let i = old.config.index_of(t.device@);
    let ok = i < old.config.devs().len() && ({
        let d = old.config.devs()[i];
        let h = hardware_index(d.hardware@, t.hardware@);
        h < d.hardware@.len() && t.input < d.hardware@[h].inputs@.len()
    });
    &&& new.learn_target is None
    &&& Session::same_runtime(old, new)
    &&& new.selected_device_name == old.selected_device_name
    &&& new.selected_layer == old.selected_layer
    &&& new.active_layers == old.active_layers
    &&& new.editing_icon_idx == old.editing_icon_idx
    &&& new.show_add_dialog == old.show_add_dialog
    &&& new.add_dialog_state == old.add_dialog_state
    &&& new.new_layer_name == old.new_layer_name
    &&& new.midi_monitor == old.midi_monitor
    &&& new.config.names() == old.config.names()
    &&& if ok {
        &&& new.config.devs() == old.config.devs().update(i, new.config.devs()[i])
        &&& input_learned(old.config.devs()[i], t.hardware@, t.input, kind, channel, number, new.config.devs()[i], true)
        &&& new.dirty
        &&& new.status_message@ == "MIDI Learn: captured "@ + t.hardware@ + " ch"@ + decimal(channel as nat) + " #"@ + decimal(number as nat)
        &&& fx1 == fx0.push(Effect::MarkDirty)
    } else {
        &&& new.config.devs() == old.config.devs()
        &&& new.dirty == old.dirty
        &&& new.status_message == old.status_message
        &&& fx1 == fx0
    }
}

impl Session {
    /// Adds `line` to the MIDI monitor, dropping the oldest line when full.
    pub fn push_monitor(&mut self, line: String)
        ensures
            *final(self) == (Session { midi_monitor: final(self).midi_monitor, ..*old(self) }),
            final(self).midi_monitor@ == monitored(old(self).midi_monitor@, line),
    {
        self.midi_monitor.push(line);
        if self.midi_monitor.len() > MONITOR_LINES {
            self.midi_monitor.remove(0);
            proof {
                assert(self.midi_monitor@ =~= old(self).midi_monitor@.push(line).drop_first());
            }
        }
    }

    /// Binds the input that MIDI learn aims at to the message just received,
    /// and stops learning.
    pub fn apply_learn(&mut self, t: LearnTarget, kind: InputKind, channel: u8, number: u8, fx: &mut Vec<Effect>)
        requires
            old(self).wf(),
        ensures
            final(self).wf(),
            learned(*old(self), *final(self), t, kind, channel, number, old(fx)@, final(fx)@),
    {
        if let Some(i) = self.config.index_of_device(t.device.as_str()) {
            let d = self.config.device(i).unwrap();
            let h = find_hardware(&d.hardware, t.hardware.as_str());
            if h < d.hardware.len() && t.input < d.hardware[h].inputs.len() {
                let mut dv = DeviceConfig::blank();
                self.config.swap_device(i, &mut dv);
                learn_input(&mut dv, t.hardware.as_str(), t.input, kind, channel, number);
                self.config.swap_device(i, &mut dv);
                proof {
                    assert(self.config.devs() =~= old(self).config.devs().update(i as int, self.config.devs()[i as int]));
                }
                self.mark_dirty(fx);
                let mut msg = String::new();
                msg.append("MIDI Learn: captured ");
                msg.append(t.hardware.as_str());
                msg.append(" ch");
                push_decimal(&mut msg, channel as u64);
                msg.append(" #");
                push_decimal(&mut msg, number as u64);
                self.status_message = msg;
            }
        }
        self.learn_target = None;
    }

    /// Handles a control message of `kind` on `channel` with `number` and raw
    /// value `raw` from device `port`: MIDI learn captures it when on, else it
    /// is dispatched.
    pub fn control_message(&mut self, port: &str, kind: InputKind, channel: u8, number: u8, raw: u8, fx: &mut Vec<Effect>)
        requires
            old(self).wf(),
        ensures
            final(self).wf(),
            final(self).midi_monitor == old(self).midi_monitor,
            match old(self).learn_target {
                Some(t) => learned(*old(self), *final(self), t, kind, channel, number, old(fx)@, final(fx)@),
                None => event_dispatched(*old(self), *final(self), port@, kind, channel, number, raw, old(fx)@, final(fx)@),
            },
    {
        let target = match &self.learn_target {
            Some(t) => Some(t.clone_target()),
            None => None,
        };
        match target {
            Some(t) => self.apply_learn(t, kind, channel, number, fx),
            None => self.dispatch_hardware_event(port, kind, channel, number, raw, fx),
        }
    }

    /// Handles one MIDI event. Every event but SysEx is first written to the
    /// monitor as `line`; SysEx data is written there in hexadecimal. While
    /// MIDI learn is on, a control message is captured instead of dispatched.
    #[verifier::rlimit(40)]
    pub fn handle_midi_event(&mut self, event: MidiEvent, line: String, fx: &mut Vec<Effect>)
        requires
            old(self).wf(),
        ensures
            final(self).wf(),
            midi_event_handled(*old(self), *final(self), event, line, old(fx)@, final(fx)@),
    {
        let is_sysex = match &event {
            MidiEvent::SysEx { .. } => true,
            _ => false,
        };
        if !is_sysex {
            self.push_monitor(line);
        }
        match event {
            MidiEvent::Connected { port_name } => {
                let mut msg = String::new();
                msg.append("Connected: ");
                msg.append(port_name.as_str());
                proof {
                    assert(msg@ =~= "Connected: "@ + port_name@);
                }
                add_name(&mut self.connected_devices, port_name);
                self.status_message = msg;
            },
            MidiEvent::Cc { port_name, channel, controller, value } => {
                self.control_message(port_name.as_str(), InputKind::Cc, channel, controller, value, fx);
            },
            MidiEvent::NoteOn { port_name, channel, note, velocity } => {
                self.control_message(port_name.as_str(), InputKind::Note, channel, note, velocity, fx);
            },
            MidiEvent::PitchBend { port_name, channel, value } => {
                let scaled = (value >> 7) as u8;
                proof {
                    assert(value >> 7 == value / 128) by (bit_vector);
                }
                self.control_message(port_name.as_str(), InputKind::PitchBend, channel, 0, scaled, fx);
            },
            MidiEvent::SysEx { port_name, data } => {
                let mut msg = String::new();
                msg.append("SX: ");
                msg.append(port_name.as_str());
                msg.append("  ");
                push_hex_line(&mut msg, data.as_slice());
                self.push_monitor(msg);
            },
        }
    }
}

impl LearnTarget {
    /// A copy of the target.
    pub fn clone_target(&self) -> (t: LearnTarget)
        ensures
            t == *self,
    {
        LearnTarget { device: self.device.clone(), hardware: self.hardware.clone(), input: self.input }
    }
}

/// Whether `new` and `fx1` follow from `old` and `fx0` when MIDI event `ev`
/// arrives, described in the monitor as `line`.
pub open spec fn midi_event_handled(old: Session, new: Session, ev: MidiEvent, line: String, fx0: Seq<Effect>, fx1: Seq<Effect>) -> bool {
    let s1 = Session { midi_monitor: new.midi_monitor, ..old };
    match ev {
        MidiEvent::SysEx { port_name, data } => {
            &&& new == (Session { midi_monitor: new.midi_monitor, ..old })
            &&& new.midi_monitor@ == monitored(old.midi_monitor@, new.midi_monitor@.last())
            &&& new.midi_monitor@.last()@ == "SX: "@ + port_name@ + "  "@ + hex_line(data@)
            &&& fx1 == fx0
        },
        MidiEvent::Connected { port_name } => {
            &&& new.midi_monitor@ == monitored(old.midi_monitor@, line)
            &&& new == (Session {
                midi_monitor: new.midi_monitor,
                connected_devices: new.connected_devices,
                status_message: new.status_message,
                ..old
            })
            &&& new.connected_devices@ == if crate::ids::names_contain(old.connected_devices@, port_name@) {
                old.connected_devices@
            } else {
                old.connected_devices@.push(port_name)
            }
            &&& new.status_message@ == "Connected: "@ + port_name@
            &&& fx1 == fx0
        },
        MidiEvent::Cc { port_name, channel, controller, value } => {
            &&& new.midi_monitor@ == monitored(old.midi_monitor@, line)
            &&& match old.learn_target {
                Some(t) => learned(Session { midi_monitor: new.midi_monitor, ..old }, new, t, InputKind::Cc, channel, controller, fx0, fx1),
                None => event_dispatched(Session { midi_monitor: new.midi_monitor, ..old }, new, port_name@, InputKind::Cc, channel, controller, value, fx0, fx1),
            }
        },
        MidiEvent::NoteOn { port_name, channel, note, velocity } => {
            &&& new.midi_monitor@ == monitored(old.midi_monitor@, line)
            &&& match old.learn_target {
                Some(t) => learned(Session { midi_monitor: new.midi_monitor, ..old }, new, t, InputKind::Note, channel, note, fx0, fx1),
                None => event_dispatched(Session { midi_monitor: new.midi_monitor, ..old }, new, port_name@, InputKind::Note, channel, note, velocity, fx0, fx1),
            }
        },
        MidiEvent::PitchBend { port_name, channel, value } => {
            &&& new.midi_monitor@ == monitored(old.midi_monitor@, line)
            &&& match old.learn_target {
                Some(t) => learned(Session { midi_monitor: new.midi_monitor, ..old }, new, t, InputKind::PitchBend, channel, 0, fx0, fx1),
                None => event_dispatched(
                    Session { midi_monitor: new.midi_monitor, ..old },
                    new,
                    port_name@,
                    InputKind::PitchBend,
                    channel,
                    0,
                    (value / 128) as u8,
                    fx0,
                    fx1,
                ),
            }
        },
    }
}

impl Session {
    /// Takes in an event of the PipeWire thread: a new graph is kept and
    /// asks for feedback and visuals; connection changes are recorded.
    pub fn handle_pw_event(&mut self, event: PwEvent, fx: &mut Vec<Effect>)
        ensures
            match event {
                PwEvent::ObjectsUpdated { objects, edges } => {
                    &&& *final(self) == (Session { pw_objects: objects, pw_edges: edges, pw_connected: true, ..*old(self) })
                    &&& final(fx)@ == old(fx)@ + seq![Effect::EvaluateFeedback, Effect::EvaluateVisuals]
                },
                PwEvent::Connected => *final(self) == (Session { pw_connected: true, ..*old(self) }) && final(fx)@ == old(fx)@,
                PwEvent::Disconnected => *final(self) == (Session { pw_connected: false, ..*old(self) }) && final(fx)@
                    == old(fx)@,
            },
    {
        match event {
            PwEvent::ObjectsUpdated { objects, edges } => {
                self.pw_objects = objects;
                self.pw_edges = edges;
                self.pw_connected = true;
                fx.push(Effect::EvaluateFeedback);
                fx.push(Effect::EvaluateVisuals);
                proof {
                    assert(fx@ =~= old(fx)@ + seq![Effect::EvaluateFeedback, Effect::EvaluateVisuals]);
                }
            },
            PwEvent::Connected => self.pw_connected = true,
            PwEvent::Disconnected => self.pw_connected = false,
        }
    }

    /// Records that the input of port `port` is connected.
    pub fn port_connected(&mut self, port: String)
        ensures
            *final(self) == (Session { connected_devices: final(self).connected_devices, ..*old(self) }),
            final(self).connected_devices@ == if crate::ids::names_contain(old(self).connected_devices@, port@) {
                old(self).connected_devices@
            } else {
                old(self).connected_devices@.push(port)
            },
    {
        add_name(&mut self.connected_devices, port);
    }

    /// Forgets the connection of every device whose port is not among
    /// `available`, and gives the names of those devices, in order.
    pub fn forget_unavailable(&mut self, available: &[String]) -> (gone: Vec<String>)
        requires
            old(self).wf(),
        ensures
            final(self).wf(),
            *final(self) == (Session { connected_devices: final(self).connected_devices, ..*old(self) }),
            gone@.map_values(|g: String| g@) == unavailable_upto(old(self).config, available@, old(self).config.devs().len() as int),
            forall|p: Seq<char>|
                #[trigger] crate::ids::names_contain(final(self).connected_devices@, p) == (crate::ids::names_contain(
                    old(self).connected_devices@,
                    p,
                ) && !port_gone_upto(old(self).config, available@, p, old(self).config.devs().len() as int)),
    {
        let mut gone: Vec<String> = Vec::new();
        let n = self.config.device_count();
        let mut i: usize = 0;
        while i < n
            invariant
                self.wf(),
                self.config == old(self).config,
                *self == (Session { connected_devices: self.connected_devices, ..*old(self) }),
                n == self.config.devs().len(),
                i <= n,
                gone@.map_values(|g: String| g@) == unavailable_upto(old(self).config, available@, i as int),
                forall|p: Seq<char>|
                    #[trigger] crate::ids::names_contain(self.connected_devices@, p) == (crate::ids::names_contain(
                        old(self).connected_devices@,
                        p,
                    ) && !port_gone_upto(old(self).config, available@, p, i as int)),
            decreases n - i,
        {
            let d = self.config.device(i).unwrap();
            let port = d.port_name.clone();
            let ghost before = self.connected_devices@;
            let ghost gone0 = gone@;
            if !crate::ids::contains_name(available, port.as_str()) {
                let ps = port.as_str();
                remove_name(&mut self.connected_devices, ps);
                gone.push(self.config.device_name(i).unwrap().to_owned());
                proof {

                    assert(gone@.map_values(|g: String| g@) =~= gone0.map_values(|g: String| g@).push(
                        old(self).config.names()[i as int]@,
                    ));
                }
            }
            proof {
                assert forall|p: Seq<char>|
                    #[trigger] crate::ids::names_contain(self.connected_devices@, p) == (crate::ids::names_contain(
                        old(self).connected_devices@,
                        p,
                    ) && !port_gone_upto(old(self).config, available@, p, i + 1)) by {
                    if port_gone_upto(old(self).config, available@, p, i + 1) && !port_gone_upto(
                        old(self).config,
                        available@,
                        p,
                        i as int,
                    ) {
                        let j = choose|j: int|
                            0 <= j < i + 1 && #[trigger] old(self).config.devs()[j].port_name@ == p
                                && !crate::ids::names_contain(available@, p);
                        assert(j == i);
                    }
                    if !port_gone_upto(old(self).config, available@, p, i + 1) && port_gone_upto(
                        old(self).config,
                        available@,
                        p,
                        i as int,
                    ) {
                        let j = choose|j: int|
                            0 <= j < i && #[trigger] old(self).config.devs()[j].port_name@ == p
                                && !crate::ids::names_contain(available@, p);
                        assert(0 <= j < i + 1);
                    }
                }
            }
            i = i + 1;
        }
        gone
    }

    /// The devices whose input port is not connected, as (name, port) pairs in order.
    pub fn devices_to_connect(&self) -> (r: Vec<(String, String)>)
        requires
            self.wf(),
        ensures
            r@.map_values(|e: (String, String)| (e.0@, e.1@)) == unconnected_upto(
                self.config,
                self.connected_devices@,
                self.config.devs().len() as int,
            ),
    {
        let mut r: Vec<(String, String)> = Vec::new();
        let n = self.config.device_count();
        let mut i: usize = 0;
        while i < n
            invariant
                self.wf(),
                n == self.config.devs().len(),
                i <= n,
                r@.map_values(|e: (String, String)| (e.0@, e.1@)) == unconnected_upto(
                    self.config,
                    self.connected_devices@,
                    i as int,
                ),
            decreases n - i,
        {
            let d = self.config.device(i).unwrap();
            let ghost r0 = r@;
            if !crate::ids::contains_name(self.connected_devices.as_slice(), d.port_name.as_str()) {
                r.push((self.config.device_name(i).unwrap().to_owned(), d.port_name.clone()));
                proof {
                    assert(r@.map_values(|e: (String, String)| (e.0@, e.1@)) =~= r0.map_values(
                        |e: (String, String)| (e.0@, e.1@),
                    ).push((self.config.names()[i as int]@, self.config.devs()[i as int].port_name@)));
                }
            }
            i = i + 1;
        }
        r
    }
}

/// Whether `p` is the port of one of the first `k` devices of `c` and is not
/// among `available`.
pub open spec fn port_gone_upto(c: Config, available: Seq<String>, p: Seq<char>, k: int) -> bool {
    exists|j: int|
        0 <= j < k && #[trigger] c.devs()[j].port_name@ == p && !crate::ids::names_contain(available, p)
}

/// The names of the first `k` devices of `c` whose port is not among `available`.
pub open spec fn unavailable_upto(c: Config, available: Seq<String>, k: int) -> Seq<Seq<char>>
    decreases k,
{
    if k <= 0 {
        Seq::empty()
    } else if !crate::ids::names_contain(available, c.devs()[k - 1].port_name@) {
        unavailable_upto(c, available, k - 1).push(c.names()[k - 1]@)
    } else {
        unavailable_upto(c, available, k - 1)
    }
}

/// The (name, port) pairs of the first `k` devices of `c` whose port is not
/// among `connected`.
pub open spec fn unconnected_upto(c: Config, connected: Seq<String>, k: int) -> Seq<(Seq<char>, Seq<char>)>
    decreases k,
{
    if k <= 0 {
        Seq::empty()
    } else if !crate::ids::names_contain(connected, c.devs()[k - 1].port_name@) {
        unconnected_upto(c, connected, k - 1).push((c.names()[k - 1]@, c.devs()[k - 1].port_name@))
    } else {
        unconnected_upto(c, connected, k - 1)
    }
}

} // verus!
