use vstd::prelude::*;

verus! {

/// A real-valued setting (a volume bound or step), held by the bit pattern of
/// its IEEE-754 binary64 encoding. The library only stores, compares and
/// copies such values; arithmetic on them is done by the application.
#[derive(Debug, Clone, Copy, PartialEq, Eq, Structural)]
pub struct Real {
    pub bits: u64,
}

/// The bit pattern of 0.0.
pub const REAL_ZERO_BITS: u64 = 0;

/// The bit pattern of 1.0.
pub const REAL_ONE_BITS: u64 = 0x3FF0_0000_0000_0000;

/// The bit pattern of 0.01.
pub const REAL_HUNDREDTH_BITS: u64 = 0x3F84_7AE1_47AE_147B;

/// Default lower volume bound (0.0).
pub fn default_min() -> (r: Real)
    ensures
        r.bits == REAL_ZERO_BITS,
{
    Real { bits: REAL_ZERO_BITS }
}

/// Default upper volume bound (1.0).
pub fn default_max() -> (r: Real)
    ensures
        r.bits == REAL_ONE_BITS,
{
    Real { bits: REAL_ONE_BITS }
}

/// Default relative step (0.01, one percent of full volume).
pub fn default_step() -> (r: Real)
    ensures
        r.bits == REAL_HUNDREDTH_BITS,
{
    Real { bits: REAL_HUNDREDTH_BITS }
}

/// Identifies the PipeWire object types offered by a `SetVolume` picker.
#[derive(Debug, Clone, Copy, PartialEq, Eq, Structural)]
pub enum VolumeTarget {
    /// Targets an audio endpoint.
    Endpoint,
    /// Targets a playback or capture stream.
    Stream,
}

#[derive(Debug, Clone, Copy, PartialEq, Eq, Structural)]
pub enum VolumeMode {
    Absolute,
    Relative,
}

/// How a relative encoder encodes its signed step in a 7-bit value.
#[derive(Debug, Clone, Copy, PartialEq, Eq, Structural)]
pub enum EncoderMode {
    SignMagnitude,
    TwosComplement,
    BinaryOffset,
}

impl Default for VolumeTarget {
    fn default() -> (r: Self)
        ensures
            r == VolumeTarget::Endpoint,
    {
        VolumeTarget::Endpoint
    }
}

impl Default for VolumeMode {
    fn default() -> (r: Self)
        ensures
            r == VolumeMode::Absolute,
    {
        VolumeMode::Absolute
    }
}

impl Default for EncoderMode {
    fn default() -> (r: Self)
        ensures
            r == EncoderMode::SignMagnitude,
    {
        EncoderMode::SignMagnitude
    }
}

impl VolumeTarget {
    pub open spec fn spec_label(self) -> &'static str {
        match self {
            VolumeTarget::Endpoint => "Sink / Source",
            VolumeTarget::Stream => "Stream",
        }
    }

    /// Text shown for this target kind in pickers.
    pub fn label(&self) -> (s: &'static str)
        ensures
            s == self.spec_label(),
    {
        match self {
            VolumeTarget::Endpoint => "Sink / Source",
            VolumeTarget::Stream => "Stream",
        }
    }
}

impl VolumeMode {
    pub open spec fn spec_label(self) -> &'static str {
        match self {
            VolumeMode::Absolute => "Absolute",
            VolumeMode::Relative => "Relative",
        }
    }

    /// Text shown for this mode in pickers.
    pub fn label(&self) -> (s: &'static str)
        ensures
            s == self.spec_label(),
    {
        match self {
            VolumeMode::Absolute => "Absolute",
            VolumeMode::Relative => "Relative",
        }
    }
}

impl EncoderMode {
    pub open spec fn spec_label(self) -> &'static str {
        match self {
            EncoderMode::SignMagnitude => "Sign-Mag",
            EncoderMode::TwosComplement => "Two's C",
            EncoderMode::BinaryOffset => "BinOff",
        }
    }

    /// Text shown for this encoding in pickers.
    pub fn label(&self) -> (s: &'static str)
        ensures
            s == self.spec_label(),
    {
        match self {
            EncoderMode::SignMagnitude => "Sign-Mag",
            EncoderMode::TwosComplement => "Two's C",
            EncoderMode::BinaryOffset => "BinOff",
        }
    }
}

/// Signed step a relative encoder reports for the raw value `raw`.
pub open spec fn spec_encoder_delta(raw: u8, mode: EncoderMode) -> int {
    match mode {
        EncoderMode::SignMagnitude => {
            let mag = (raw % 64) as int;
            if (raw / 64) % 2 == 1 {
                -mag
            } else {
                mag
            }
        },
        EncoderMode::TwosComplement => if raw < 64 {
            raw as int
        } else {
            raw as int - 128
        },
        EncoderMode::BinaryOffset => if raw < 128 {
            raw as int - 64
        } else {
            raw as int - 256 - 64
        },
    }
}

/// Whether `encoder_delta` decodes `raw` under `mode` without overflow. Every
/// 7-bit MIDI data value qualifies; of the larger ones, two's complement
/// accepts only 128 and binary offset only 192 and above.
pub open spec fn encoder_delta_defined(raw: u8, mode: EncoderMode) -> bool {
    match mode {
        EncoderMode::SignMagnitude => true,
        EncoderMode::TwosComplement => raw <= 128,
        EncoderMode::BinaryOffset => raw < 128 || raw >= 192,
    }
}

/// Decodes the signed step of a relative encoder message.
pub fn encoder_delta(raw: u8, mode: EncoderMode) -> (d: i8)
    requires
        encoder_delta_defined(raw, mode),
    ensures
        d as int == spec_encoder_delta(raw, mode),
{
    match mode {
        EncoderMode::SignMagnitude => {
            let sign = (raw & 0x40) != 0;
            let mag = (raw & 0x3F) as i8;
            assert((raw & 0x40 != 0) == ((raw / 64) % 2 == 1)) by (bit_vector);
            assert((raw & 0x3F) == raw % 64) by (bit_vector);
            if sign {
                -mag
            } else {
                mag
            }
        },
        EncoderMode::TwosComplement => {
            if raw < 64 {
                raw as i8
            } else {
                -((128 - raw) as i8)
            }
        },
        EncoderMode::BinaryOffset => {
            assert(raw >= 128 ==> (raw as i8) as int == raw as int - 256) by (bit_vector);
            assert(raw < 128 ==> (raw as i8) as int == raw as int) by (bit_vector);
            (raw as i8) - 64
        },
    }
}

/// What a control input does when it fires.
#[derive(Debug)]
pub enum Action {
    /// Does nothing.
    NoOp,
    SetVolume {
        target: String,
        target_kind: VolumeTarget,
        min: Real,
        max: Real,
        mode: VolumeMode,
        encoder: EncoderMode,
        step: Real,
    },
    ToggleMute { target: String },
    RouteStream { stream_id: String, sink_id: String },
    SetBankOffset { offset: u8 },
    BankIncrement,
    BankDecrement,
    SelectLayer { layer: String },
    RunCommand { command: String },
    MidiSendNote { channel: u8, note: u8, velocity: u8 },
    MidiSendCc { channel: u8, controller: u8, value: u8 },
}

impl Clone for Action {
    fn clone(&self) -> (r: Self)
        ensures
            r == *self,
    {
        match self {
            Action::NoOp => Action::NoOp,
            Action::SetVolume { target, target_kind, min, max, mode, encoder, step } => {
                Action::SetVolume {
                    target: target.clone(),
                    target_kind: *target_kind,
                    min: *min,
                    max: *max,
                    mode: *mode,
                    encoder: *encoder,
                    step: *step,
                }
            },
            Action::ToggleMute { target } => Action::ToggleMute { target: target.clone() },
            Action::RouteStream { stream_id, sink_id } => Action::RouteStream {
                stream_id: stream_id.clone(),
                sink_id: sink_id.clone(),
            },
            Action::SetBankOffset { offset } => Action::SetBankOffset { offset: *offset },
            Action::BankIncrement => Action::BankIncrement,
            Action::BankDecrement => Action::BankDecrement,
            Action::SelectLayer { layer } => Action::SelectLayer { layer: layer.clone() },
            Action::RunCommand { command } => Action::RunCommand { command: command.clone() },
            Action::MidiSendNote { channel, note, velocity } => Action::MidiSendNote {
                channel: *channel,
                note: *note,
                velocity: *velocity,
            },
            Action::MidiSendCc { channel, controller, value } => Action::MidiSendCc {
                channel: *channel,
                controller: *controller,
                value: *value,
            },
        }
    }
}

impl Action {
    pub open spec fn spec_display_name(self) -> &'static str {
        match self {
            Action::NoOp => "None",
            Action::SetVolume { .. } => "Set Volume",
            Action::ToggleMute { .. } => "Toggle Mute",
            Action::RouteStream { .. } => "Route Stream",
            Action::SetBankOffset { .. } => "Set Bank",
            Action::BankIncrement => "Bank +8",
            Action::BankDecrement => "Bank -8",
            Action::SelectLayer { .. } => "Select Layer",
            Action::RunCommand { .. } => "Run Command",
            Action::MidiSendNote { .. } => "MIDI Send Note",
            Action::MidiSendCc { .. } => "MIDI Send CC",
        }
    }

    /// Name of the action's variant, as shown in pickers.
    pub fn display_name(&self) -> (s: &'static str)
        ensures
            s == self.spec_display_name(),
    {
        match self {
            Action::NoOp => "None",
            Action::SetVolume { .. } => "Set Volume",
            Action::ToggleMute { .. } => "Toggle Mute",
            Action::RouteStream { .. } => "Route Stream",
            Action::SetBankOffset { .. } => "Set Bank",
            Action::BankIncrement => "Bank +8",
            Action::BankDecrement => "Bank -8",
            Action::SelectLayer { .. } => "Select Layer",
            Action::RunCommand { .. } => "Run Command",
            Action::MidiSendNote { .. } => "MIDI Send Note",
            Action::MidiSendCc { .. } => "MIDI Send CC",
        }
    }

    /// Whether `a` is the default value that `all` lists at position `i`, in UI order.
    pub open spec fn is_default_at(a: Action, i: int) -> bool {
        if i == 0 {
            a is NoOp
        } else if i == 1 {
            a matches Action::SetVolume { target, target_kind, min, max, mode, encoder, step }
                && target@ == Seq::<char>::empty() && target_kind == VolumeTarget::Endpoint
                && min.bits == REAL_ZERO_BITS && max.bits == REAL_ONE_BITS
                && mode == VolumeMode::Absolute && encoder == EncoderMode::SignMagnitude
                && step.bits == REAL_HUNDREDTH_BITS
        } else if i == 2 {
            a matches Action::ToggleMute { target } && target@ == Seq::<char>::empty()
        } else if i == 3 {
            a matches Action::RouteStream { stream_id, sink_id } && stream_id@ == Seq::<char>::empty()
                && sink_id@ == Seq::<char>::empty()
        } else if i == 4 {
            a == Action::SetBankOffset { offset: 0 }
        } else if i == 5 {
            a is BankIncrement
        } else if i == 6 {
            a is BankDecrement
        } else if i == 7 {
            a matches Action::SelectLayer { layer } && layer@ == Seq::<char>::empty()
        } else if i == 8 {
            a matches Action::RunCommand { command } && command@ == Seq::<char>::empty()
        } else if i == 9 {
            a == Action::MidiSendNote { channel: 0, note: 0, velocity: 0 }
        } else if i == 10 {
            a == Action::MidiSendCc { channel: 0, controller: 0, value: 0 }
        } else {
            false
        }
    }

    /// Each action variant with its default values, paired with its display
    /// name, in UI order.
    pub fn all() -> (v: Vec<(&'static str, Action)>)
        ensures
            v.len() == 11,
            forall|i: int| 0 <= i < 11 ==> Self::is_default_at(#[trigger] v[i].1, i) && v[i].0
                == v[i].1.spec_display_name(),
    {
        let mut v: Vec<(&'static str, Action)> = Vec::new();
        let samples = vec![
            Action::NoOp,
            Action::SetVolume {
                target: String::new(),
                target_kind: VolumeTarget::Endpoint,
                min: default_min(),
                max: default_max(),
                mode: VolumeMode::Absolute,
                encoder: EncoderMode::SignMagnitude,
                step: default_step(),
            },
            Action::ToggleMute { target: String::new() },
            Action::RouteStream { stream_id: String::new(), sink_id: String::new() },
            Action::SetBankOffset { offset: 0 },
            Action::BankIncrement,
            Action::BankDecrement,
            Action::SelectLayer { layer: String::new() },
            Action::RunCommand { command: String::new() },
            Action::MidiSendNote { channel: 0, note: 0, velocity: 0 },
            Action::MidiSendCc { channel: 0, controller: 0, value: 0 },
        ];
        assert(forall|i: int| 0 <= i < 11 ==> Self::is_default_at(#[trigger] samples@[i], i));
        let mut i: usize = 0;
        while i < samples.len()
            invariant
                samples.len() == 11,
                forall|k: int| 0 <= k < 11 ==> Self::is_default_at(#[trigger] samples@[k], k),
                i <= 11,
                v.len() == i,
                forall|k: int| 0 <= k < i ==> v[k].1 == samples@[k] && v[k].0
                    == v[k].1.spec_display_name(),
            decreases 11 - i,
        {
            let a = samples[i].clone();
            let name = a.display_name();
            v.push((name, a));
            i = i + 1;
        }
        v
    }
}

} // verus!
