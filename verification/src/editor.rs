use vstd::prelude::*;
use crate::config::{DeviceConfig, IconType};
use crate::device::{
    add_hardware_at, add_input, add_output, at_least_one, hardware_added_at, input_added, input_updated,
    output_added, output_updated, set_hardware_span, set_hardware_type, span_set, type_set, update_input,
    update_output, InputField, OutputField,
};
use crate::device::{
    hardware_removed, hardware_renamed, input_removed, input_renamed, output_removed, output_renamed, remove_hardware,
    remove_input, remove_output, rename_hardware, rename_input, rename_output,
};
use crate::edit::{find_hardware, hardware_index};
use crate::device::{edit_layer_software, layer_software_changed};
use crate::software::SoftwareEdit;
use crate::session::{forget_inputs, input_key_matches, Effect, LearnTarget, Session};
use crate::config::ControlRef;
use crate::text::str_eq;

verus! {

/// A dirty mark, when `changed` says the configuration was edited.
pub open spec fn dirty_if(changed: bool) -> Seq<Effect> {
    if changed {
        seq![Effect::MarkDirty]
    } else {
        Seq::empty()
    }
}

/// `new` is `old` after an edit of the selected device alone (none when no
/// device is selected), with `changed` telling whether it changed, recorded
/// as a dirty mark.
pub open spec fn device_edit(old: Session, new: Session, changed: bool, fx0: Seq<Effect>, fx1: Seq<Effect>) -> bool {
    &&& new.wf()
    &&& Session::same_nav(old, new)
    &&& Session::same_view(old, new)
    &&& Session::same_runtime(old, new)
    &&& new.config.names() == old.config.names()
    &&& match old.selected_index() {
        Some(i) => new.config.devs() == old.config.devs().update(i, new.config.devs()[i]),
        None => new.config.devs() == old.config.devs() && !changed,
    }
    &&& new.dirty == (old.dirty || changed)
    &&& fx1 == fx0 + dirty_if(changed)
}

impl Session {
    /// Marks the configuration dirty when `changed`.
    pub fn note_change(&mut self, changed: bool, fx: &mut Vec<Effect>)
        ensures
            *final(self) == (Session { dirty: old(self).dirty || changed, ..*old(self) }),
            final(fx)@ == old(fx)@ + dirty_if(changed),
    {
        if changed {
            self.mark_dirty(fx);
            proof {
                assert(fx@ =~= old(fx)@ + dirty_if(changed));
            }
        } else {
            proof {
                assert(fx@ =~= old(fx)@ + dirty_if(changed));
            }
        }
    }

    /// Sets the type of control `id` of the selected device.
    pub fn update_hardware_type(&mut self, id: &str, t: IconType, fx: &mut Vec<Effect>) -> (changed: bool)
        requires
            old(self).wf(),
        ensures
            device_edit(*old(self), *final(self), changed, old(fx)@, final(fx)@),
            old(self).selected_index() matches Some(i) ==> type_set(
                old(self).config.devs()[i],
                id@,
                t,
                final(self).config.devs()[i],
                changed,
            ),
    {
        let mut changed = false;
        if let Some(i) = self.selected_device_index() {
            let mut d = DeviceConfig::blank();
            self.config.swap_device(i, &mut d);
            changed = set_hardware_type(&mut d, id, t);
            self.config.swap_device(i, &mut d);
            proof {
                assert(self.config.devs() =~= old(self).config.devs().update(i as int, self.config.devs()[i as int]));
            }
        }
        self.note_change(changed, fx);
        changed
    }

    /// Sets the span of control `id` of the selected device, each at least one cell.
    pub fn update_hardware_span(&mut self, id: &str, cols: u8, rows: u8, fx: &mut Vec<Effect>) -> (changed: bool)
        requires
            old(self).wf(),
        ensures
            device_edit(*old(self), *final(self), changed, old(fx)@, final(fx)@),
            old(self).selected_index() matches Some(i) ==> span_set(
                old(self).config.devs()[i],
                id@,
                cols,
                rows,
                final(self).config.devs()[i],
                changed,
            ),
    {
        let mut changed = false;
        if let Some(i) = self.selected_device_index() {
            let mut d = DeviceConfig::blank();
            self.config.swap_device(i, &mut d);
            changed = set_hardware_span(&mut d, id, cols, rows);
            self.config.swap_device(i, &mut d);
            proof {
                assert(self.config.devs() =~= old(self).config.devs().update(i as int, self.config.devs()[i as int]));
            }
        }
        self.note_change(changed, fx);
        changed
    }

    /// Adds an input with a fresh label to control `id` of the selected device.
    pub fn add_hardware_input(&mut self, id: &str, fx: &mut Vec<Effect>) -> (changed: bool)
        requires
            old(self).wf(),
        ensures
            device_edit(*old(self), *final(self), changed, old(fx)@, final(fx)@),
            old(self).selected_index() matches Some(i) ==> input_added(
                old(self).config.devs()[i],
                id@,
                final(self).config.devs()[i],
                changed,
            ),
    {
        let mut changed = false;
        if let Some(i) = self.selected_device_index() {
            let mut d = DeviceConfig::blank();
            self.config.swap_device(i, &mut d);
            changed = add_input(&mut d, id);
            self.config.swap_device(i, &mut d);
            proof {
                assert(self.config.devs() =~= old(self).config.devs().update(i as int, self.config.devs()[i as int]));
            }
        }
        self.note_change(changed, fx);
        changed
    }

    /// Adds an output with a fresh label to control `id` of the selected device.
    pub fn add_hardware_output(&mut self, id: &str, fx: &mut Vec<Effect>) -> (changed: bool)
        requires
            old(self).wf(),
        ensures
            device_edit(*old(self), *final(self), changed, old(fx)@, final(fx)@),
            old(self).selected_index() matches Some(i) ==> output_added(
                old(self).config.devs()[i],
                id@,
                final(self).config.devs()[i],
                changed,
            ),
    {
        let mut changed = false;
        if let Some(i) = self.selected_device_index() {
            let mut d = DeviceConfig::blank();
            self.config.swap_device(i, &mut d);
            changed = add_output(&mut d, id);
            self.config.swap_device(i, &mut d);
            proof {
                assert(self.config.devs() =~= old(self).config.devs().update(i as int, self.config.devs()[i as int]));
            }
        }
        self.note_change(changed, fx);
        changed
    }

    /// Sets one field of input `idx` of control `id` of the selected device.
    pub fn update_hardware_input(&mut self, id: &str, idx: usize, field: InputField, fx: &mut Vec<Effect>) -> (changed: bool)
        requires
            old(self).wf(),
        ensures
            device_edit(*old(self), *final(self), changed, old(fx)@, final(fx)@),
            old(self).selected_index() matches Some(i) ==> input_updated(
                old(self).config.devs()[i],
                id@,
                idx,
                field,
                final(self).config.devs()[i],
                changed,
            ),
    {
        let mut changed = false;
        if let Some(i) = self.selected_device_index() {
            let mut d = DeviceConfig::blank();
            self.config.swap_device(i, &mut d);
            changed = update_input(&mut d, id, idx, field);
            self.config.swap_device(i, &mut d);
            proof {
                assert(self.config.devs() =~= old(self).config.devs().update(i as int, self.config.devs()[i as int]));
            }
        }
        self.note_change(changed, fx);
        changed
    }

    /// Sets one field of output `idx` of control `id` of the selected device.
    pub fn update_hardware_output(&mut self, id: &str, idx: usize, field: OutputField, fx: &mut Vec<Effect>) -> (changed: bool)
        requires
            old(self).wf(),
        ensures
            device_edit(*old(self), *final(self), changed, old(fx)@, final(fx)@),
            old(self).selected_index() matches Some(i) ==> output_updated(
                old(self).config.devs()[i],
                id@,
                idx,
                field,
                final(self).config.devs()[i],
                changed,
            ),
    {
        let mut changed = false;
        if let Some(i) = self.selected_device_index() {
            let mut d = DeviceConfig::blank();
            self.config.swap_device(i, &mut d);
            changed = update_output(&mut d, id, idx, field);
            self.config.swap_device(i, &mut d);
            proof {
                assert(self.config.devs() =~= old(self).config.devs().update(i as int, self.config.devs()[i as int]));
            }
        }
        self.note_change(changed, fx);
        changed
    }

    /// Sets the number of grid columns of the selected device, at least one.
    pub fn update_grid_cols(&mut self, cols: u8, fx: &mut Vec<Effect>) -> (changed: bool)
        requires
            old(self).wf(),
        ensures
            device_edit(*old(self), *final(self), changed, old(fx)@, final(fx)@),
            changed == old(self).selected_index() is Some,
            old(self).selected_index() matches Some(i) ==> final(self).config.devs()[i] == (DeviceConfig {
                grid_columns: at_least_one(cols),
                ..old(self).config.devs()[i]
            }),
    {
        let mut changed = false;
        if let Some(i) = self.selected_device_index() {
            let mut d = DeviceConfig::blank();
            self.config.swap_device(i, &mut d);
            d.grid_columns = if cols == 0 { 1 } else { cols };
            self.config.swap_device(i, &mut d);
            changed = true;
            proof {
                assert(self.config.devs() =~= old(self).config.devs().update(i as int, self.config.devs()[i as int]));
            }
        }
        self.note_change(changed, fx);
        changed
    }

    /// Sets the number of grid rows of the selected device, at least one.
    pub fn update_grid_rows(&mut self, rows: u8, fx: &mut Vec<Effect>) -> (changed: bool)
        requires
            old(self).wf(),
        ensures
            device_edit(*old(self), *final(self), changed, old(fx)@, final(fx)@),
            changed == old(self).selected_index() is Some,
            old(self).selected_index() matches Some(i) ==> final(self).config.devs()[i] == (DeviceConfig {
                grid_rows: at_least_one(rows),
                ..old(self).config.devs()[i]
            }),
    {
        let mut changed = false;
        if let Some(i) = self.selected_device_index() {
            let mut d = DeviceConfig::blank();
            self.config.swap_device(i, &mut d);
            d.grid_rows = if rows == 0 { 1 } else { rows };
            self.config.swap_device(i, &mut d);
            changed = true;
            proof {
                assert(self.config.devs() =~= old(self).config.devs().update(i as int, self.config.devs()[i as int]));
            }
        }
        self.note_change(changed, fx);
        changed
    }
}

/// Whether `e` drops what was cached for control `hw` of device `dev`.
pub open spec fn forgets_control(e: Effect, dev: Seq<char>, hw: Seq<char>) -> bool {
    e matches Effect::ForgetControl { device, hardware } && device@ == dev && hardware@ == hw
}

/// Whether `e` drops the last feedback sent to output `label` of control `hw` of device `dev`.
pub open spec fn forgets_feedback(e: Effect, dev: Seq<char>, hw: Seq<char>, label: Seq<char>) -> bool {
    e matches Effect::ForgetFeedback(r) && r.device@ == dev && r.hardware@ == hw && r.label@ == label
}

/// `new` keeps the recorded input values of `old` but those of control `hw`
/// of device `dev` (only those of input `label`, when one is given).
pub open spec fn inputs_forgotten(old: Seq<(ControlRef, u8)>, new: Seq<(ControlRef, u8)>, dev: Seq<char>, hw: Seq<char>, label: Option<Seq<char>>) -> bool {
    new == old.filter(|e: (ControlRef, u8)| !input_key_matches(e, dev, hw, label))
}

impl Session {
    /// Removes control `id` of the selected device and its icons in every layer,
    /// and forgets what was recorded for it; closes the icon editor without
    /// saving and stops a MIDI learn aimed at the control.
    pub fn remove_hardware(&mut self, id: &str, fx: &mut Vec<Effect>)
        requires
            old(self).wf(),
        ensures
            final(self).wf(),
            final(self).config.names() == old(self).config.names(),
            match old(self).selected_index() {
                Some(i) => final(self).config.devs() == old(self).config.devs().update(i, final(self).config.devs()[i])
                    && hardware_removed(old(self).config.devs()[i], id@, final(self).config.devs()[i]),
                None => final(self).config.devs() == old(self).config.devs(),
            },
            final(self).dirty == (old(self).dirty || old(self).selected_index() is Some),
            final(self).selected_device_name == old(self).selected_device_name,
            final(self).selected_layer == old(self).selected_layer,
            final(self).active_layers == old(self).active_layers,
            final(self).editing_icon_idx is None,
            final(self).learn_target == (if old(self).learn_target matches Some(t) && t.hardware@ == id@ {
                None
            } else {
                old(self).learn_target
            }),
            Session::same_view(*old(self), *final(self)),
            final(self).connected_devices == old(self).connected_devices,
            final(self).pw_objects == old(self).pw_objects,
            final(self).pw_edges == old(self).pw_edges,
            final(self).pw_connected == old(self).pw_connected,
            match old(self).selected_device_name {
                Some(n) => {
                    &&& inputs_forgotten(old(self).last_input_value@, final(self).last_input_value@, n@, id@, None)
                    &&& final(fx)@.len() == old(fx)@.len() + dirty_if(old(self).selected_index() is Some).len() + 1
                    &&& final(fx)@.take(final(fx)@.len() - 1) == old(fx)@ + dirty_if(old(self).selected_index() is Some)
                    &&& forgets_control(final(fx)@.last(), n@, id@)
                },
                None => {
                    &&& final(self).last_input_value == old(self).last_input_value
                    &&& final(fx)@ == old(fx)@
                },
            },
    {
        let mut changed = false;
        if let Some(i) = self.selected_device_index() {
            let mut d = DeviceConfig::blank();
            self.config.swap_device(i, &mut d);
            remove_hardware(&mut d, id);
            self.config.swap_device(i, &mut d);
            changed = true;
            proof {
                assert(self.config.devs() =~= old(self).config.devs().update(i as int, self.config.devs()[i as int]));
            }
        }
        self.note_change(changed, fx);
        let ghost fx1 = fx@;
        if let Some(n) = &self.selected_device_name {
            forget_inputs(&mut self.last_input_value, n.as_str(), id, None);
            fx.push(Effect::ForgetControl { device: n.clone(), hardware: id.to_owned() });
            proof {
                assert(fx@.take(fx@.len() - 1) =~= fx1);
            }
        }
        self.editing_icon_idx = None;
        let drop_learn = match &self.learn_target {
            Some(t) => str_eq(t.hardware.as_str(), id),
            None => false,
        };
        if drop_learn {
            self.learn_target = None;
        }
    }

    /// Renames control `id` of the selected device to `name`, rebinding its
    /// icons, unless `name` is already another control's id (then only the
    /// status line says so). What was recorded under the old id is forgotten.
    pub fn rename_hardware(&mut self, id: &str, name: &str, fx: &mut Vec<Effect>) -> (renamed: bool)
        requires
            old(self).wf(),
        ensures
            final(self).wf(),
            ({
                let taken = old(self).selected_index() matches Some(i) && hardware_index(
                    old(self).config.devs()[i].hardware@,
                    name@,
                ) < old(self).config.devs()[i].hardware@.len();
                if name@ == id@ {
                    *final(self) == *old(self) && final(fx)@ == old(fx)@ && !renamed
                } else if taken {
                    &&& *final(self) == (Session { status_message: final(self).status_message, ..*old(self) })
                    &&& final(self).status_message@ == "Hardware id '"@ + name@ + "' already exists"@
                    &&& final(fx)@ == old(fx)@
                    &&& !renamed
                } else {
                    &&& final(self).config.names() == old(self).config.names()
                    &&& Session::same_nav(*old(self), *final(self))
                    &&& Session::same_view(*old(self), *final(self))
                    &&& final(self).connected_devices == old(self).connected_devices
                    &&& final(self).pw_objects == old(self).pw_objects
                    &&& final(self).pw_edges == old(self).pw_edges
                    &&& final(self).pw_connected == old(self).pw_connected
                    &&& match old(self).selected_index() {
                        Some(i) => final(self).config.devs() == old(self).config.devs().update(
                            i,
                            final(self).config.devs()[i],
                        ) && hardware_renamed(old(self).config.devs()[i], id@, name@, final(self).config.devs()[i], renamed),
                        None => final(self).config.devs() == old(self).config.devs() && !renamed,
                    }
                    &&& final(self).dirty == (old(self).dirty || renamed)
                    &&& match old(self).selected_device_name {
                        Some(n) => {
                            &&& inputs_forgotten(old(self).last_input_value@, final(self).last_input_value@, n@, id@, None)
                            &&& final(fx)@.len() == old(fx)@.len() + dirty_if(renamed).len() + 1
                            &&& final(fx)@.take(final(fx)@.len() - 1) == old(fx)@ + dirty_if(renamed)
                            &&& forgets_control(final(fx)@.last(), n@, id@)
                        },
                        None => {
                            &&& final(self).last_input_value == old(self).last_input_value
                            &&& final(fx)@ == old(fx)@ + dirty_if(renamed)
                        },
                    }
                }
            }),
    {
        if str_eq(name, id) {
            return false;
        }
        let sel = self.selected_device_index();
        if let Some(i) = sel {
            let d = self.config.device(i).unwrap();
            let k = find_hardware(&d.hardware, name);
            if k < d.hardware.len() {
                let mut msg = String::new();
                msg.append("Hardware id '");
                msg.append(name);
                msg.append("' already exists");
                self.status_message = msg;
                return false;
            }
        }
        let mut renamed = false;
        if let Some(i) = sel {
            let mut d = DeviceConfig::blank();
            self.config.swap_device(i, &mut d);
            renamed = rename_hardware(&mut d, id, name);
            self.config.swap_device(i, &mut d);
            proof {
                assert(self.config.devs() =~= old(self).config.devs().update(i as int, self.config.devs()[i as int]));
            }
        }
        self.note_change(renamed, fx);
        let ghost fx1 = fx@;
        if let Some(n) = &self.selected_device_name {
            forget_inputs(&mut self.last_input_value, n.as_str(), id, None);
            fx.push(Effect::ForgetControl { device: n.clone(), hardware: id.to_owned() });
            proof {
                assert(fx@.take(fx@.len() - 1) =~= fx1);
            }
        }
        renamed
    }

    /// Removes input `idx` of control `hw_id` of the selected device, the signal entries that listen to it, and its recorded value; gives its label.
    pub fn remove_hardware_input(&mut self, hw_id: &str, idx: usize, fx: &mut Vec<Effect>) -> (r: Option<String>)
        requires
            old(self).wf(),
        ensures
            final(self).wf(),
            final(self).config.names() == old(self).config.names(),
            Session::same_nav(*old(self), *final(self)),
            Session::same_view(*old(self), *final(self)),
            final(self).connected_devices == old(self).connected_devices,
            final(self).pw_objects == old(self).pw_objects,
            final(self).pw_edges == old(self).pw_edges,
            final(self).pw_connected == old(self).pw_connected,
            match old(self).selected_index() {
                Some(i) => final(self).config.devs() == old(self).config.devs().update(i, final(self).config.devs()[i])
                    && input_removed(old(self).config.devs()[i], hw_id@, idx, final(self).config.devs()[i], r),
                None => final(self).config.devs() == old(self).config.devs() && r is None,
            },
            match r {
                Some(l) => {
                    &&& final(self).dirty
                    &&& final(self).last_input_value@ == old(self).last_input_value@.filter(
                        |e: (ControlRef, u8)| !input_key_matches(e, old(self).selected_device_name->0@, hw_id@, Some(l@)),
                    )
                    &&& final(fx)@ == old(fx)@.push(Effect::MarkDirty)
                },
                None => {
                    &&& final(self).dirty == old(self).dirty
                    &&& final(self).last_input_value == old(self).last_input_value
                    &&& final(fx)@ == old(fx)@
                },
            },
    {
        let mut r: Option<String> = None;
        if let Some(i) = self.selected_device_index() {
            let mut d = DeviceConfig::blank();
            self.config.swap_device(i, &mut d);
            r = remove_input(&mut d, hw_id, idx);
            self.config.swap_device(i, &mut d);
            proof {
                assert(self.config.devs() =~= old(self).config.devs().update(i as int, self.config.devs()[i as int]));
            }
        }
        if let Some(l) = &r {
            if let Some(n) = &self.selected_device_name {
                forget_inputs(&mut self.last_input_value, n.as_str(), hw_id, Some(l.as_str()));
            }
            self.mark_dirty(fx);
        }
        r
    }

    /// Removes output `idx` of control `hw_id` of the selected device and the feedback entries that drive it, and forgets the feedback last sent to it; gives its label.
    pub fn remove_hardware_output(&mut self, hw_id: &str, idx: usize, fx: &mut Vec<Effect>) -> (r: Option<String>)
        requires
            old(self).wf(),
        ensures
            final(self).wf(),
            final(self).config.names() == old(self).config.names(),
            Session::same_nav(*old(self), *final(self)),
            Session::same_view(*old(self), *final(self)),
            final(self).connected_devices == old(self).connected_devices,
            final(self).pw_objects == old(self).pw_objects,
            final(self).pw_edges == old(self).pw_edges,
            final(self).pw_connected == old(self).pw_connected,
            match old(self).selected_index() {
                Some(i) => final(self).config.devs() == old(self).config.devs().update(i, final(self).config.devs()[i])
                    && output_removed(old(self).config.devs()[i], hw_id@, idx, final(self).config.devs()[i], r),
                None => final(self).config.devs() == old(self).config.devs() && r is None,
            },
            match r {
                Some(l) => {
                    &&& final(self).dirty
                    &&& final(self).last_input_value == old(self).last_input_value
                    &&& final(fx)@.len() == old(fx)@.len() + 2
                    &&& forgets_feedback(final(fx)@[old(fx)@.len() as int], old(self).selected_device_name->0@, hw_id@, l@)
                    &&& final(fx)@ == old(fx)@.push(final(fx)@[old(fx)@.len() as int]).push(Effect::MarkDirty)
                },
                None => {
                    &&& final(self).dirty == old(self).dirty
                    &&& final(self).last_input_value == old(self).last_input_value
                    &&& final(fx)@ == old(fx)@
                },
            },
    {
        let mut r: Option<String> = None;
        if let Some(i) = self.selected_device_index() {
            let mut d = DeviceConfig::blank();
            self.config.swap_device(i, &mut d);
            r = remove_output(&mut d, hw_id, idx);
            self.config.swap_device(i, &mut d);
            proof {
                assert(self.config.devs() =~= old(self).config.devs().update(i as int, self.config.devs()[i as int]));
            }
        }
        if let Some(l) = &r {
            if let Some(n) = &self.selected_device_name {
                fx.push(Effect::ForgetFeedback(ControlRef::new(n.as_str(), hw_id, l.as_str())));
            }
            self.mark_dirty(fx);
        }
        r
    }

    /// Renames input `idx` of control `hw_id` of the selected device to `label`, following it in the signal entries, and drops the value recorded under the old label; gives the old label when something changed.
    pub fn rename_hardware_input(&mut self, hw_id: &str, idx: usize, label: String, fx: &mut Vec<Effect>) -> (r: Option<String>)
        requires
            old(self).wf(),
        ensures
            final(self).wf(),
            final(self).config.names() == old(self).config.names(),
            Session::same_nav(*old(self), *final(self)),
            Session::same_view(*old(self), *final(self)),
            final(self).connected_devices == old(self).connected_devices,
            final(self).pw_objects == old(self).pw_objects,
            final(self).pw_edges == old(self).pw_edges,
            final(self).pw_connected == old(self).pw_connected,
            match old(self).selected_index() {
                Some(i) => final(self).config.devs() == old(self).config.devs().update(i, final(self).config.devs()[i])
                    && input_renamed(old(self).config.devs()[i], hw_id@, idx, label, final(self).config.devs()[i], r),
                None => final(self).config.devs() == old(self).config.devs() && r is None,
            },
            match r {
                Some(l) => {
                    &&& final(self).dirty
                    &&& final(self).last_input_value@ == old(self).last_input_value@.filter(
                        |e: (ControlRef, u8)| !input_key_matches(e, old(self).selected_device_name->0@, hw_id@, Some(l@)),
                    )
                    &&& final(fx)@ == old(fx)@.push(Effect::MarkDirty)
                },
                None => {
                    &&& final(self).dirty == old(self).dirty
                    &&& final(self).last_input_value == old(self).last_input_value
                    &&& final(fx)@ == old(fx)@
                },
            },
    {
        let mut r: Option<String> = None;
        if let Some(i) = self.selected_device_index() {
            let mut d = DeviceConfig::blank();
            self.config.swap_device(i, &mut d);
            r = rename_input(&mut d, hw_id, idx, label);
            self.config.swap_device(i, &mut d);
            proof {
                assert(self.config.devs() =~= old(self).config.devs().update(i as int, self.config.devs()[i as int]));
            }
        }
        if let Some(l) = &r {
            if let Some(n) = &self.selected_device_name {
                forget_inputs(&mut self.last_input_value, n.as_str(), hw_id, Some(l.as_str()));
            }
            self.mark_dirty(fx);
        }
        r
    }

    /// Renames output `idx` of control `hw_id` of the selected device to `label`, following it in the feedback entries, and forgets the feedback sent under the old label; gives the old label when something changed.
    pub fn rename_hardware_output(&mut self, hw_id: &str, idx: usize, label: String, fx: &mut Vec<Effect>) -> (r: Option<String>)
        requires
            old(self).wf(),
        ensures
            final(self).wf(),
            final(self).config.names() == old(self).config.names(),
            Session::same_nav(*old(self), *final(self)),
            Session::same_view(*old(self), *final(self)),
            final(self).connected_devices == old(self).connected_devices,
            final(self).pw_objects == old(self).pw_objects,
            final(self).pw_edges == old(self).pw_edges,
            final(self).pw_connected == old(self).pw_connected,
            match old(self).selected_index() {
                Some(i) => final(self).config.devs() == old(self).config.devs().update(i, final(self).config.devs()[i])
                    && output_renamed(old(self).config.devs()[i], hw_id@, idx, label, final(self).config.devs()[i], r),
                None => final(self).config.devs() == old(self).config.devs() && r is None,
            },
            match r {
                Some(l) => {
                    &&& final(self).dirty
                    &&& final(self).last_input_value == old(self).last_input_value
                    &&& final(fx)@.len() == old(fx)@.len() + 2
                    &&& forgets_feedback(final(fx)@[old(fx)@.len() as int], old(self).selected_device_name->0@, hw_id@, l@)
                    &&& final(fx)@ == old(fx)@.push(final(fx)@[old(fx)@.len() as int]).push(Effect::MarkDirty)
                },
                None => {
                    &&& final(self).dirty == old(self).dirty
                    &&& final(self).last_input_value == old(self).last_input_value
                    &&& final(fx)@ == old(fx)@
                },
            },
    {
        let mut r: Option<String> = None;
        if let Some(i) = self.selected_device_index() {
            let mut d = DeviceConfig::blank();
            self.config.swap_device(i, &mut d);
            r = rename_output(&mut d, hw_id, idx, label);
            self.config.swap_device(i, &mut d);
            proof {
                assert(self.config.devs() =~= old(self).config.devs().update(i as int, self.config.devs()[i as int]));
            }
        }
        if let Some(l) = &r {
            if let Some(n) = &self.selected_device_name {
                fx.push(Effect::ForgetFeedback(ControlRef::new(n.as_str(), hw_id, l.as_str())));
            }
            self.mark_dirty(fx);
        }
        r
    }

    /// Aims MIDI learn at input `idx` of control `hw_id` of the selected device.
    pub fn start_learn(&mut self, hw_id: String, idx: usize)
        ensures
            *final(self) == (Session {
                learn_target: final(self).learn_target,
                status_message: final(self).status_message,
                ..*old(self)
            }),
            match old(self).selected_device_name {
                Some(n) => final(self).learn_target == Some(LearnTarget { device: n, hardware: hw_id, input: idx }),
                None => final(self).learn_target is None,
            },
            final(self).status_message@ == "MIDI Learn: waiting for event..."@,
    {
        self.learn_target = match &self.selected_device_name {
            Some(n) => Some(LearnTarget { device: n.clone(), hardware: hw_id, input: idx }),
            None => None,
        };
        self.status_message = "MIDI Learn: waiting for event...".to_owned();
    }

    /// Places a new button in the empty cell (`col`, `row`) of the selected
    /// device and opens its editor.
    pub fn click_empty_cell(&mut self, col: u8, row: u8, fx: &mut Vec<Effect>)
        requires
            old(self).wf(),
        ensures
            final(self).wf(),
            final(self).config.names() == old(self).config.names(),
            Session::same_view(*old(self), *final(self)),
            Session::same_runtime(*old(self), *final(self)),
            final(self).selected_device_name == old(self).selected_device_name,
            final(self).selected_layer == old(self).selected_layer,
            final(self).active_layers == old(self).active_layers,
            final(self).learn_target == old(self).learn_target,
            match old(self).selected_index() {
                Some(i) => {
                    &&& final(self).config.devs() == old(self).config.devs().update(i, final(self).config.devs()[i])
                    &&& hardware_added_at(
                        old(self).config.devs()[i],
                        col,
                        row,
                        final(self).config.devs()[i],
                        old(self).config.devs()[i].hardware@.len() as usize,
                    )
                    &&& final(self).editing_icon_idx == Some(old(self).config.devs()[i].hardware@.len() as usize)
                    &&& final(self).dirty
                    &&& final(fx)@ == old(fx)@.push(Effect::MarkDirty)
                },
                None => {
                    &&& *final(self) == *old(self)
                    &&& final(fx)@ == old(fx)@
                },
            },
    {
        if let Some(i) = self.selected_device_index() {
            let mut d = DeviceConfig::blank();
            self.config.swap_device(i, &mut d);
            let idx = add_hardware_at(&mut d, col, row);
            self.config.swap_device(i, &mut d);
            proof {
                assert(self.config.devs() =~= old(self).config.devs().update(i as int, self.config.devs()[i as int]));
            }
            self.mark_dirty(fx);
            self.editing_icon_idx = Some(idx);
        }
    }

    /// Applies `e` to the software of control `icon_idx` in the selected layer
    /// of the selected device; `None` when there is no such control or layer,
    /// else whether `e` changed anything. A change is marked dirty, and one
    /// that shows on the faceplate asks for visuals.
    pub fn edit_software(&mut self, icon_idx: usize, e: SoftwareEdit, fx: &mut Vec<Effect>) -> (r: Option<bool>)
        requires
            old(self).wf(),
        ensures
            final(self).wf(),
            final(self).config.names() == old(self).config.names(),
            Session::same_nav(*old(self), *final(self)),
            Session::same_view(*old(self), *final(self)),
            Session::same_runtime(*old(self), *final(self)),
            match (old(self).selected_index(), old(self).selected_layer) {
                (Some(i), Some(ln)) => final(self).config.devs() == old(self).config.devs().update(
                    i,
                    final(self).config.devs()[i],
                ) && layer_software_changed(old(self).config.devs()[i], ln@, icon_idx, e, final(self).config.devs()[i], r),
                _ => final(self).config.devs() == old(self).config.devs() && r is None,
            },
            final(self).dirty == (old(self).dirty || r == Some(true)),
            final(fx)@ == old(fx)@ + dirty_if(r == Some(true)) + (if r == Some(true) && e.spec_touches_visuals() {
                seq![Effect::EvaluateVisuals]
            } else {
                Seq::empty()
            }),
    {
        let visuals = e.touches_visuals();
        let mut r: Option<bool> = None;
        if let Some(i) = self.selected_device_index() {
            if let Some(ln) = &self.selected_layer {
                let mut d = DeviceConfig::blank();
                self.config.swap_device(i, &mut d);
                r = edit_layer_software(&mut d, ln.as_str(), icon_idx, e);
                self.config.swap_device(i, &mut d);
                proof {
                    assert(self.config.devs() =~= old(self).config.devs().update(i as int, self.config.devs()[i as int]));
                }
            }
        }
        let changed = r == Some(true);
        self.note_change(changed, fx);
        let ghost fx1 = fx@;
        if changed && visuals {
            fx.push(Effect::EvaluateVisuals);
        }
        proof {
            assert(fx@ =~= old(fx)@ + dirty_if(changed) + (if changed && e.spec_touches_visuals() {
                seq![Effect::EvaluateVisuals]
            } else {
                Seq::empty()
            }));
        }
        r
    }

    /// Opens the editor of control `icon_idx`.
    pub fn open_icon_editor(&mut self, icon_idx: usize)
        ensures
            *final(self) == (Session { editing_icon_idx: Some(icon_idx), ..*old(self) }),
    {
        self.editing_icon_idx = Some(icon_idx);
    }

    /// Escape closes the add-device dialog, else the icon editor.
    pub fn press_escape(&mut self, fx: &mut Vec<Effect>)
        ensures
            if old(self).show_add_dialog {
                *final(self) == (Session { show_add_dialog: false, ..*old(self) }) && final(fx)@ == old(fx)@
            } else if old(self).editing_icon_idx is Some {
                *final(self) == (Session { editing_icon_idx: None, learn_target: None, ..*old(self) })
                    && final(fx)@ == old(fx)@.push(Effect::SaveConfig)
            } else {
                *final(self) == *old(self) && final(fx)@ == old(fx)@
            },
    {
        if self.show_add_dialog {
            self.show_add_dialog = false;
        } else if self.editing_icon_idx.is_some() {
            self.clear_editing(fx);
            proof {
                assert(fx@ =~= old(fx)@.push(Effect::SaveConfig));
            }
        }
    }

    /// Ctrl+S closes (and so saves) the icon editor when no dialog is open.
    pub fn press_save(&mut self, fx: &mut Vec<Effect>)
        ensures
            if !old(self).show_add_dialog && old(self).editing_icon_idx is Some {
                *final(self) == (Session { editing_icon_idx: None, learn_target: None, ..*old(self) })
                    && final(fx)@ == old(fx)@.push(Effect::SaveConfig)
            } else {
                *final(self) == *old(self) && final(fx)@ == old(fx)@
            },
    {
        if !self.show_add_dialog && self.editing_icon_idx.is_some() {
            self.clear_editing(fx);
            proof {
                assert(fx@ =~= old(fx)@.push(Effect::SaveConfig));
            }
        }
    }
}

} // verus!
