use vstd::prelude::*;
use crate::config::{ControlRef, HardwareDef, HardwareInput, HardwareOutput, LayerDef, SoftwareDef};
use crate::session::{input_key_matches, Session};
use crate::source::Source;
use crate::text::str_eq;

verus! {

/// What a feedback or visual evaluation knows of one control: its device,
/// its id, the device's active layer and bank offset, and the last raw value
/// received on each of its inputs (by input label, in input order).
#[derive(Debug)]
pub struct JobBase {
    pub device: String,
    pub hardware_id: String,
    pub layer_name: String,
    pub bank_offset: u8,
    pub raw_midi_values: Vec<(String, u8)>,
}

/// One feedback entry to evaluate and send to its output.
#[derive(Debug)]
pub struct FeedbackJob {
    pub base: JobBase,
    pub output_label: String,
    pub output: HardwareOutput,
    pub source: Source,
    pub line2_source: Option<Source>,
}

/// One faceplate visual to evaluate.
#[derive(Debug)]
pub struct VisualJob {
    pub base: JobBase,
    pub source: Source,
}

/// The value last recorded for input `label` of control `hw` of device `dev`.
pub open spec fn recorded_value(m: Seq<(ControlRef, u8)>, dev: Seq<char>, hw: Seq<char>, label: Seq<char>) -> Option<u8>
    decreases m.len(),
{
    if m.len() == 0 {
        None
    } else if input_key_matches(m[0], dev, hw, Some(label)) {
        Some(m[0].1)
    } else {
        recorded_value(m.drop_first(), dev, hw, label)
    }
}

/// The (label, value) pairs of the first `k` inputs of `hw` that have a
/// recorded value, in input order.
pub open spec fn raw_values(m: Seq<(ControlRef, u8)>, dev: Seq<char>, hw: HardwareDef, k: int) -> Seq<(Seq<char>, u8)>
    decreases k,
{
    if k <= 0 {
        Seq::empty()
    } else {
        let rest = raw_values(m, dev, hw, k - 1);
        match recorded_value(m, dev, hw.id@, hw.inputs@[k - 1].label@) {
            Some(v) => rest.push((hw.inputs@[k - 1].label@, v)),
            None => rest,
        }
    }
}

/// Position of the first output of `outputs` labelled `label`, or `outputs.len()`.
pub open spec fn output_index(outputs: Seq<HardwareOutput>, label: Seq<char>) -> int
    decreases outputs.len(),
{
    if outputs.len() == 0 || outputs[0].label@ == label {
        0
    } else {
        1 + output_index(outputs.drop_first(), label)
    }
}

impl Session {
    /// The active layer of device `i`, when it has layers.
    pub open spec fn job_layer(self, i: int) -> Option<LayerDef> {
        let d = self.config.devs()[i];
        match self.active_layer_index(d, self.config.names()[i]@) {
            Some(li) => Some(d.layers@[li]),
            None => None,
        }
    }

    /// The software of control `h` of device `i` in the device's active layer.
    pub open spec fn job_software(self, i: int, h: int) -> Option<SoftwareDef> {
        match self.job_layer(i) {
            Some(l) => l.spec_software(self.config.devs()[i].hardware@[h].id@),
            None => None,
        }
    }

    /// Whether `b` describes control `h` of device `i`.
    pub open spec fn base_for(self, i: int, h: int, b: JobBase) -> bool {
        let hw = self.config.devs()[i].hardware@[h];
        let l = self.job_layer(i)->0;
        &&& b.device@ == self.config.names()[i]@
        &&& b.hardware_id@ == hw.id@
        &&& b.layer_name@ == l.name@
        &&& b.bank_offset == l.bank_offset
        &&& b.raw_midi_values@.map_values(|e: (String, u8)| (e.0@, e.1)) == raw_values(
            self.last_input_value@,
            self.config.names()[i]@,
            hw,
            hw.inputs@.len() as int,
        )
    }

    /// Whether device `i` takes part: every device, or only the one named `only`.
    pub open spec fn job_device(self, only: Option<Seq<char>>, i: int) -> bool {
        match only {
            Some(o) => self.config.names()[i]@ == o,
            None => true,
        }
    }

    /// Keys (device, control, entry) of the feedback entries `0..e` of control
    /// `h` of device `i` whose output exists.
    pub open spec fn entry_keys(self, i: int, h: int, e: int) -> Seq<(int, int, int)>
        decreases e,
    {
        if e <= 0 {
            Seq::empty()
        } else {
            let sw = self.job_software(i, h)->0;
            let hw = self.config.devs()[i].hardware@[h];
            let rest = self.entry_keys(i, h, e - 1);
            if output_index(hw.outputs@, sw.feedback_entries@[e - 1].output@) < hw.outputs@.len() {
                rest.push((i, h, e - 1))
            } else {
                rest
            }
        }
    }

    /// Keys of the feedback jobs of controls `0..h` of device `i`.
    pub open spec fn control_keys(self, i: int, h: int) -> Seq<(int, int, int)>
        decreases h,
    {
        if h <= 0 {
            Seq::empty()
        } else {
            self.control_keys(i, h - 1) + match self.job_software(i, h - 1) {
                Some(sw) => self.entry_keys(i, h - 1, sw.feedback_entries@.len() as int),
                None => Seq::empty(),
            }
        }
    }

    /// Keys of the feedback jobs of devices `0..i` (those that take part).
    pub open spec fn device_keys(self, only: Option<Seq<char>>, i: int) -> Seq<(int, int, int)>
        decreases i,
    {
        if i <= 0 {
            Seq::empty()
        } else {
            self.device_keys(only, i - 1) + if self.job_device(only, i - 1) {
                self.control_keys(i - 1, self.config.devs()[i - 1].hardware@.len() as int)
            } else {
                Seq::empty()
            }
        }
    }

    /// Whether `job` is the feedback job of key `k`.
    pub open spec fn feedback_job_for(self, k: (int, int, int), job: FeedbackJob) -> bool {
        let (i, h, e) = k;
        let hw = self.config.devs()[i].hardware@[h];
        let fe = self.job_software(i, h)->0.feedback_entries@[e];
        &&& self.base_for(i, h, job.base)
        &&& job.output_label@ == fe.output@
        &&& job.output == hw.outputs@[output_index(hw.outputs@, fe.output@)]
        &&& job.source == fe.source
        &&& job.line2_source == fe.line2_source
    }

    /// Controls (device, control) with software in their device's active layer, for devices `0..i`.
    pub open spec fn control_slots(self, i: int, h: int) -> Seq<(int, int)>
        decreases h,
    {
        if h <= 0 {
            Seq::empty()
        } else {
            self.control_slots(i, h - 1) + match self.job_software(i, h - 1) {
                Some(sw) => if sw.visual_source is Some {
                    seq![(i, h - 1)]
                } else {
                    Seq::empty()
                },
                None => Seq::empty(),
            }
        }
    }

    /// (device, control) keys of the visual jobs of devices `0..i`.
    pub open spec fn visual_keys(self, i: int) -> Seq<(int, int)>
        decreases i,
    {
        if i <= 0 {
            Seq::empty()
        } else {
            self.visual_keys(i - 1) + self.control_slots(i - 1, self.config.devs()[i - 1].hardware@.len() as int)
        }
    }

    /// Whether `job` is the visual job of control `k`.
    pub open spec fn visual_job_for(self, k: (int, int), job: VisualJob) -> bool {
        &&& self.base_for(k.0, k.1, job.base)
        &&& Some(job.source) == self.job_software(k.0, k.1)->0.visual_source
    }
}

impl Session {
    /// The bank offset a job carries for device `i` is the one `bank_of`
    /// reports for the device's name.
    proof fn lemma_job_layer_bank(self, i: int)
        requires
            self.wf(),
            0 <= i < self.config.devs().len(),
            self.job_layer(i) is Some,
        ensures
            self.job_layer(i)->0.bank_offset == self.bank_of(self.config.names()[i]@),
    {
        self.config.lemma_index_of_name(i);
    }

    proof fn lemma_entry_keys(self, i: int, h: int, e: int)
        ensures
            forall|k: int| 0 <= k < self.entry_keys(i, h, e).len() ==> (#[trigger] self.entry_keys(i, h, e)[k]).0 == i
                && self.entry_keys(i, h, e)[k].1 == h,
        decreases e,
    {
        if e > 0 {
            self.lemma_entry_keys(i, h, e - 1);
            let rest = self.entry_keys(i, h, e - 1);
            assert forall|k: int| 0 <= k < self.entry_keys(i, h, e).len() implies (#[trigger] self.entry_keys(i, h, e)[k]).0
                == i && self.entry_keys(i, h, e)[k].1 == h by {
                if k < rest.len() {
                    assert(self.entry_keys(i, h, e)[k] == rest[k]);
                }
            }
        }
    }

    proof fn lemma_control_keys(self, i: int, h: int)
        ensures
            forall|k: int| 0 <= k < self.control_keys(i, h).len() ==> {
                let key = #[trigger] self.control_keys(i, h)[k];
                key.0 == i && self.job_software(i, key.1) is Some
            },
        decreases h,
    {
        if h > 0 {
            self.lemma_control_keys(i, h - 1);
            let rest = self.control_keys(i, h - 1);
            match self.job_software(i, h - 1) {
                Some(sw) => {
                    let ek = self.entry_keys(i, h - 1, sw.feedback_entries@.len() as int);
                    self.lemma_entry_keys(i, h - 1, sw.feedback_entries@.len() as int);
                    assert forall|k: int| 0 <= k < self.control_keys(i, h).len() implies {
                        let key = #[trigger] self.control_keys(i, h)[k];
                        key.0 == i && self.job_software(i, key.1) is Some
                    } by {
                        if k < rest.len() {
                            assert(self.control_keys(i, h)[k] == rest[k]);
                        } else {
                            assert(self.control_keys(i, h)[k] == ek[k - rest.len()]);
                        }
                    }
                },
                None => {
                    assert(self.control_keys(i, h) =~= rest);
                },
            }
        }
    }

    proof fn lemma_device_keys(self, only: Option<Seq<char>>, i: int)
        ensures
            forall|k: int| 0 <= k < self.device_keys(only, i).len() ==> {
                let key = #[trigger] self.device_keys(only, i)[k];
                0 <= key.0 < i && self.job_software(key.0, key.1) is Some
            },
        decreases i,
    {
        if i > 0 {
            self.lemma_device_keys(only, i - 1);
            let rest = self.device_keys(only, i - 1);
            if self.job_device(only, i - 1) {
                let ck = self.control_keys(i - 1, self.config.devs()[i - 1].hardware@.len() as int);
                self.lemma_control_keys(i - 1, self.config.devs()[i - 1].hardware@.len() as int);
                assert forall|k: int| 0 <= k < self.device_keys(only, i).len() implies {
                    let key = #[trigger] self.device_keys(only, i)[k];
                    0 <= key.0 < i && self.job_software(key.0, key.1) is Some
                } by {
                    if k < rest.len() {
                        assert(self.device_keys(only, i)[k] == rest[k]);
                    } else {
                        assert(self.device_keys(only, i)[k] == ck[k - rest.len()]);
                    }
                }
            } else {
                assert(self.device_keys(only, i) =~= rest);
            }
        }
    }

    proof fn lemma_control_slots(self, i: int, h: int)
        ensures
            forall|k: int| 0 <= k < self.control_slots(i, h).len() ==> {
                let key = #[trigger] self.control_slots(i, h)[k];
                key.0 == i && self.job_software(i, key.1) is Some
            },
        decreases h,
    {
        if h > 0 {
            self.lemma_control_slots(i, h - 1);
            let rest = self.control_slots(i, h - 1);
            assert forall|k: int| 0 <= k < self.control_slots(i, h).len() implies {
                let key = #[trigger] self.control_slots(i, h)[k];
                key.0 == i && self.job_software(i, key.1) is Some
            } by {
                if k < rest.len() {
                    assert(self.control_slots(i, h)[k] == rest[k]);
                } else {
                    assert(self.control_slots(i, h)[k] == (i, h - 1));
                }
            }
        }
    }

    proof fn lemma_visual_keys(self, i: int)
        ensures
            forall|k: int| 0 <= k < self.visual_keys(i).len() ==> {
                let key = #[trigger] self.visual_keys(i)[k];
                0 <= key.0 < i && self.job_software(key.0, key.1) is Some
            },
        decreases i,
    {
        if i > 0 {
            self.lemma_visual_keys(i - 1);
            let rest = self.visual_keys(i - 1);
            let cs = self.control_slots(i - 1, self.config.devs()[i - 1].hardware@.len() as int);
            self.lemma_control_slots(i - 1, self.config.devs()[i - 1].hardware@.len() as int);
            assert forall|k: int| 0 <= k < self.visual_keys(i).len() implies {
                let key = #[trigger] self.visual_keys(i)[k];
                0 <= key.0 < i && self.job_software(key.0, key.1) is Some
            } by {
                if k < rest.len() {
                    assert(self.visual_keys(i)[k] == rest[k]);
                } else {
                    assert(self.visual_keys(i)[k] == cs[k - rest.len()]);
                }
            }
        }
    }
}

/// The value last recorded for input `label` of control `hw` of device `dev`.
pub fn find_recorded(m: &Vec<(ControlRef, u8)>, dev: &str, hw: &str, label: &str) -> (r: Option<u8>)
    ensures
        r == recorded_value(m@, dev@, hw@, label@),
{
    let mut i: usize = 0;
    proof {
        assert(m@.skip(0) =~= m@);
    }
    while i < m.len()
        invariant
            i <= m@.len(),
            recorded_value(m@, dev@, hw@, label@) == recorded_value(m@.skip(i as int), dev@, hw@, label@),
        decreases m@.len() - i,
    {
        proof {
            assert(m@.skip(i as int).drop_first() =~= m@.skip(i + 1));
            assert(m@.skip(i as int)[0] == m@[i as int]);
        }
        let e = &m[i];
        if str_eq(e.0.device.as_str(), dev) && str_eq(e.0.hardware.as_str(), hw) && str_eq(e.0.label.as_str(), label) {
            return Some(e.1);
        }
        i = i + 1;
    }
    None
}

fn clone_source_opt(s: &Option<Source>) -> (r: Option<Source>)
    ensures
        r == *s,
{
    match s {
        Some(x) => Some(x.clone()),
        None => None,
    }
}

proof fn lemma_output_index(outputs: Seq<HardwareOutput>, label: Seq<char>, i: int)
    requires
        0 <= i <= outputs.len(),
        i < outputs.len() ==> outputs[i].label@ == label,
        forall|j: int| 0 <= j < i ==> #[trigger] outputs[j].label@ != label,
    ensures
        output_index(outputs, label) == i,
    decreases outputs.len(),
{
    if outputs.len() > 0 && outputs[0].label@ != label {
        assert forall|j: int| 0 <= j < i - 1 implies #[trigger] outputs.drop_first()[j].label@ != label by {
            assert(outputs.drop_first()[j] == outputs[j + 1]);
        }
        lemma_output_index(outputs.drop_first(), label, i - 1);
    }
}

/// Position of the first output labelled `label`, or `outputs.len()`.
pub fn find_output(outputs: &Vec<HardwareOutput>, label: &str) -> (i: usize)
    ensures
        i == output_index(outputs@, label@),
        i <= outputs@.len(),
{
    let mut i: usize = 0;
    while i < outputs.len() && !str_eq(outputs[i].label.as_str(), label)
        invariant
            i <= outputs@.len(),
            forall|j: int| 0 <= j < i ==> #[trigger] outputs@[j].label@ != label@,
        decreases outputs@.len() - i,
    {
        i = i + 1;
    }
    proof {
        lemma_output_index(outputs@, label@, i as int);
    }
    i
}

impl Session {
    /// What an evaluation knows of control `h` of device `i`.
    fn job_base(&self, i: usize, h: usize, layer: &LayerDef) -> (b: JobBase)
        requires
            self.wf(),
            i < self.config.devs().len(),
            h < self.config.devs()[i as int].hardware@.len(),
            self.job_layer(i as int) == Some(*layer),
        ensures
            self.base_for(i as int, h as int, b),
    {
        let name = self.config.device_name(i).unwrap();
        let d = self.config.device(i).unwrap();
        let hw = &d.hardware[h];
        let mut raw: Vec<(String, u8)> = Vec::new();
        let mut k: usize = 0;
        while k < hw.inputs.len()
            invariant
                k <= hw.inputs@.len(),
                raw@.map_values(|e: (String, u8)| (e.0@, e.1)) == raw_values(self.last_input_value@, name@, *hw, k as int),
            decreases hw.inputs@.len() - k,
        {
            let ghost before = raw@;
            let label = &hw.inputs[k].label;
            match find_recorded(&self.last_input_value, name, hw.id.as_str(), label.as_str()) {
                Some(v) => {
                    raw.push((label.clone(), v));
                    proof {
                        assert(raw@.map_values(|e: (String, u8)| (e.0@, e.1)) =~= before.map_values(
                            |e: (String, u8)| (e.0@, e.1),
                        ).push((label@, v)));
                    }
                },
                None => {},
            }
            k = k + 1;
        }
        JobBase {
            device: name.to_owned(),
            hardware_id: hw.id.clone(),
            layer_name: layer.name.clone(),
            bank_offset: layer.bank_offset,
            raw_midi_values: raw,
        }
    }

    /// The feedback entries to evaluate, for every device or only the one
    /// named `only`: in device order, for each control with software in its
    /// device's active layer, each feedback entry whose output exists.
    pub fn feedback_jobs(&self, only: Option<&str>) -> (jobs: Vec<FeedbackJob>)
        requires
            self.wf(),
        ensures
            jobs@.len() == self.device_keys(crate::session::opt_view(only), self.config.devs().len() as int).len(),
            forall|k: int|
                0 <= k < jobs@.len() ==> self.feedback_job_for(
                    self.device_keys(crate::session::opt_view(only), self.config.devs().len() as int)[k],
                    #[trigger] jobs@[k],
                ),
            forall|k: int|
                0 <= k < jobs@.len() ==> (#[trigger] jobs@[k]).base.bank_offset == self.bank_of(jobs@[k].base.device@),
    {
        let ghost ov = crate::session::opt_view(only);
        let mut jobs: Vec<FeedbackJob> = Vec::new();
        let n = self.config.device_count();
        let mut i: usize = 0;
        while i < n
            invariant
                self.wf(),
                n == self.config.devs().len(),
                i <= n,
                ov == crate::session::opt_view(only),
                jobs@.len() == self.device_keys(ov, i as int).len(),
                forall|k: int|
                    0 <= k < jobs@.len() ==> self.feedback_job_for(self.device_keys(ov, i as int)[k], #[trigger] jobs@[k]),
            decreases n - i,
        {
            let name = self.config.device_name(i).unwrap();
            let included = match only {
                Some(o) => str_eq(name, o),
                None => true,
            };
            if included {
                let d = self.config.device(i).unwrap();
                let layer = self.find_active_layer(d, name);
                let ghost base_keys = self.device_keys(ov, i as int);
                let mut h: usize = 0;
                while h < d.hardware.len()
                    invariant
                        self.wf(),
                        i < n,
                        n == self.config.devs().len(),
                        *d == self.config.devs()[i as int],
                        name@ == self.config.names()[i as int]@,
                        h <= d.hardware@.len(),
                        match layer {
                            Some(li) => self.job_layer(i as int) == Some(d.layers@[li as int]) && li < d.layers@.len(),
                            None => self.job_layer(i as int) is None,
                        },
                        jobs@.len() == (base_keys + self.control_keys(i as int, h as int)).len(),
                        forall|k: int|
                            0 <= k < jobs@.len() ==> self.feedback_job_for(
                                (base_keys + self.control_keys(i as int, h as int))[k],
                                #[trigger] jobs@[k],
                            ),
                    decreases d.hardware@.len() - h,
                {
                    let hw = &d.hardware[h];
                    let sw = match layer {
                        Some(li) => d.layers[li].software(hw.id.as_str()),
                        None => None,
                    };
                    let ghost ck = base_keys + self.control_keys(i as int, h as int);
                    match sw {
                        Some(sw) => {
                            let l = &d.layers[layer.unwrap()];
                            let mut e: usize = 0;
                            while e < sw.feedback_entries.len()
                                invariant
                                    self.wf(),
                                    i < n,
                                    n == self.config.devs().len(),
                                    *d == self.config.devs()[i as int],
                                    h < d.hardware@.len(),
                                    *hw == d.hardware@[h as int],
                                    self.job_layer(i as int) == Some(*l),
                                    self.job_software(i as int, h as int) == Some(*sw),
                                    e <= sw.feedback_entries@.len(),
                                    jobs@.len() == (ck + self.entry_keys(i as int, h as int, e as int)).len(),
                                    forall|k: int|
                                        0 <= k < jobs@.len() ==> self.feedback_job_for(
                                            (ck + self.entry_keys(i as int, h as int, e as int))[k],
                                            #[trigger] jobs@[k],
                                        ),
                                decreases sw.feedback_entries@.len() - e,
                            {
                                let fe = &sw.feedback_entries[e];
                                let o = find_output(&hw.outputs, fe.output.as_str());
                                let ghost before = jobs@;
                                if o < hw.outputs.len() {
                                    let base = self.job_base(i, h, l);
                                    jobs.push(
                                        FeedbackJob {
                                            base,
                                            output_label: fe.output.clone(),
                                            output: hw.outputs[o].clone(),
                                            source: fe.source.clone(),
                                            line2_source: clone_source_opt(&fe.line2_source),
                                        },
                                    );
                                    proof {
                                        let nk = ck + self.entry_keys(i as int, h as int, e + 1);
                                        assert(nk =~= (ck + self.entry_keys(i as int, h as int, e as int)).push(
                                            (i as int, h as int, e as int),
                                        ));
                                        assert forall|k: int| 0 <= k < jobs@.len() implies self.feedback_job_for(
                                            nk[k],
                                            #[trigger] jobs@[k],
                                        ) by {
                                            if k < before.len() {
                                                assert(jobs@[k] == before[k]);
                                            }
                                        }
                                    }
                                } else {
                                    proof {
                                        let nk = ck + self.entry_keys(i as int, h as int, e + 1);
                                        assert(nk =~= ck + self.entry_keys(i as int, h as int, e as int));
                                    }
                                }
                                e = e + 1;
                            }
                            proof {
                                assert(base_keys + self.control_keys(i as int, h + 1) =~= ck + self.entry_keys(
                                    i as int,
                                    h as int,
                                    e as int,
                                ));
                            }
                        },
                        None => {
                            proof {
                                assert(self.job_software(i as int, h as int) is None);
                                assert(base_keys + self.control_keys(i as int, h + 1) =~= ck);
                            }
                        },
                    }
                    h = h + 1;
                }
                proof {
                    assert(self.device_keys(ov, i + 1) =~= base_keys + self.control_keys(i as int, h as int));
                }
            } else {
                proof {
                    assert(self.device_keys(ov, i + 1) =~= self.device_keys(ov, i as int));
                }
            }
            i = i + 1;
        }
        proof {
            let keys = self.device_keys(ov, n as int);
            self.lemma_device_keys(ov, n as int);
            assert forall|k: int| 0 <= k < jobs@.len() implies (#[trigger] jobs@[k]).base.bank_offset == self.bank_of(
                jobs@[k].base.device@,
            ) by {
                assert(self.feedback_job_for(keys[k], jobs@[k]));
                self.lemma_job_layer_bank(keys[k].0);
            }
        }
        jobs
    }

    /// The faceplate visuals to evaluate: in device order, each control with
    /// software in its device's active layer that has a visual source.
    pub fn visual_jobs(&self) -> (jobs: Vec<VisualJob>)
        requires
            self.wf(),
        ensures
            jobs@.len() == self.visual_keys(self.config.devs().len() as int).len(),
            forall|k: int|
                0 <= k < jobs@.len() ==> self.visual_job_for(
                    self.visual_keys(self.config.devs().len() as int)[k],
                    #[trigger] jobs@[k],
                ),
            forall|k: int|
                0 <= k < jobs@.len() ==> (#[trigger] jobs@[k]).base.bank_offset == self.bank_of(jobs@[k].base.device@),
    {
        let mut jobs: Vec<VisualJob> = Vec::new();
        let n = self.config.device_count();
        let mut i: usize = 0;
        while i < n
            invariant
                self.wf(),
                n == self.config.devs().len(),
                i <= n,
                jobs@.len() == self.visual_keys(i as int).len(),
                forall|k: int| 0 <= k < jobs@.len() ==> self.visual_job_for(self.visual_keys(i as int)[k], #[trigger] jobs@[k]),
            decreases n - i,
        {
            let name = self.config.device_name(i).unwrap();
            let d = self.config.device(i).unwrap();
            let layer = self.find_active_layer(d, name);
            let ghost base_keys = self.visual_keys(i as int);
            let mut h: usize = 0;
            while h < d.hardware.len()
                invariant
                    self.wf(),
                    i < n,
                    n == self.config.devs().len(),
                    *d == self.config.devs()[i as int],
                    name@ == self.config.names()[i as int]@,
                    h <= d.hardware@.len(),
                    match layer {
                        Some(li) => self.job_layer(i as int) == Some(d.layers@[li as int]) && li < d.layers@.len(),
                        None => self.job_layer(i as int) is None,
                    },
                    jobs@.len() == (base_keys + self.control_slots(i as int, h as int)).len(),
                    forall|k: int|
                        0 <= k < jobs@.len() ==> self.visual_job_for(
                            (base_keys + self.control_slots(i as int, h as int))[k],
                            #[trigger] jobs@[k],
                        ),
                decreases d.hardware@.len() - h,
            {
                let hw = &d.hardware[h];
                let sw = match layer {
                    Some(li) => d.layers[li].software(hw.id.as_str()),
                    None => None,
                };
                let ghost ck = base_keys + self.control_slots(i as int, h as int);
                let ghost before = jobs@;
                match sw {
                    Some(sw) => {
                        match &sw.visual_source {
                            Some(src) => {
                                let l = &d.layers[layer.unwrap()];
                                let base = self.job_base(i, h, l);
                                jobs.push(VisualJob { base, source: src.clone() });
                                proof {
                                    let nk = base_keys + self.control_slots(i as int, h + 1);
                                    assert(nk =~= ck.push((i as int, h as int)));
                                    assert forall|k: int| 0 <= k < jobs@.len() implies self.visual_job_for(
                                        nk[k],
                                        #[trigger] jobs@[k],
                                    ) by {
                                        if k < before.len() {
                                            assert(jobs@[k] == before[k]);
                                        }
                                    }
                                }
                            },
                            None => {
                                proof {
                                    assert(base_keys + self.control_slots(i as int, h + 1) =~= ck);
                                }
                            },
                        }
                    },
                    None => {
                        proof {
                            assert(base_keys + self.control_slots(i as int, h + 1) =~= ck);
                        }
                    },
                }
                h = h + 1;
            }
            proof {
                assert(self.visual_keys(i + 1) =~= base_keys + self.control_slots(i as int, h as int));
            }
            i = i + 1;
        }
        proof {
            let keys = self.visual_keys(n as int);
            self.lemma_visual_keys(n as int);
            assert forall|k: int| 0 <= k < jobs@.len() implies (#[trigger] jobs@[k]).base.bank_offset == self.bank_of(
                jobs@[k].base.device@,
            ) by {
                assert(self.visual_job_for(keys[k], jobs@[k]));
                self.lemma_job_layer_bank(keys[k].0);
            }
        }
        jobs
    }
}

} // verus!
