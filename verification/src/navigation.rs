use vstd::prelude::*;
use crate::assoc::{assoc_get, assoc_insert, assoc_lookup, assoc_remove};
use crate::config::{default_grid_cols, default_grid_rows, default_layers, DeviceConfig, LayerDef};
use crate::device::{add_layer, layer_added, layer_removed, layer_renamed, remove_layer, rename_layer};
use crate::edit::{find_layer, layer_index};
use crate::ids::{is_blank, layer_named, valid_layer_rename};
use crate::midi::PortInfo;
use crate::session::{active_index, remove_name, save_if, Effect, Session};
use crate::text::{str_eq, trim, trimmed};
use crate::ui::AddDeviceDialog;

verus! {

/// The active layer a session records for `dev` after `a` changed it to
/// `layer` (`None`: forgot it) and left the others alone.
pub open spec fn active_set(old: Session, new: Session, dev: Seq<char>, layer: Option<String>) -> bool {
    forall|q: Seq<char>| #[trigger] new.active_name(q) == (if q == dev {
        layer
    } else {
        old.active_name(q)
    })
}

/// The layer shown after the layers named `layer` were removed, before the
/// active layer is repaired: none when the shown one was among them.
pub open spec fn shown_after_removal(shown: Option<String>, layer: Seq<char>) -> Option<String> {
    match shown {
        Some(l) => if l@ == layer {
            None
        } else {
            Some(l)
        },
        None => None,
    }
}

/// Whether `new`'s active layer of device `dev` and its shown layer are
/// those `repair_active_layer` chooses for device `d` (the device after the
/// change), from `old`'s active layers and the shown layer `shown`.
pub open spec fn repaired(old: Session, new: Session, dev: Seq<char>, d: DeviceConfig, shown: Option<String>) -> bool {
    if d.layers@.len() == 0 {
        &&& active_set(old, new, dev, None)
        &&& new.selected_layer is None
    } else {
        let chosen = d.layers@[active_index(d.layers@, old.active_name(dev))].name;
        &&& active_set(old, new, dev, Some(chosen))
        &&& new.selected_layer == (if shown is None {
            Some(chosen)
        } else {
            shown
        })
    }
}

/// `a` and `b` agree on the configuration and on what was seen at run time.
pub open spec fn same_data(a: Session, b: Session) -> bool {
    &&& a.config == b.config
    &&& a.dirty == b.dirty
    &&& Session::same_runtime(a, b)
}

impl Session {
    /// Selects device `idx` and shows its active layer.
    pub fn select_device(&mut self, idx: usize, fx: &mut Vec<Effect>)
        requires
            old(self).wf(),
        ensures
            same_data(*old(self), *final(self)),
            Session::same_view(*old(self), *final(self)),
            final(self).active_layers == old(self).active_layers,
            final(self).editing_icon_idx is None,
            final(self).learn_target is None,
            if idx < old(self).config.names().len() {
                let d = old(self).config.devs()[idx as int];
                let name = old(self).config.names()[idx as int]@;
                &&& final(self).selected_device_name matches Some(n) && n@ == name
                &&& final(self).selected_layer == match old(self).active_layer_index(d, name) {
                    Some(li) => Some(d.layers@[li].name),
                    None => None,
                }
            } else {
                final(self).selected_device_name is None && final(self).selected_layer is None
            },
            final(fx)@ == old(fx)@ + save_if(old(self).editing_icon_idx is Some) + seq![Effect::EvaluateVisuals],
    {
        match self.config.device_name(idx) {
            Some(n) => {
                let name = n.to_owned();
                proof {
                    self.config.lemma_index_of_name(idx as int);
                }
                let d = self.config.device(idx).unwrap();
                let layer = match self.find_active_layer(d, name.as_str()) {
                    Some(li) => Some(d.layers[li].name.clone()),
                    None => None,
                };
                self.selected_device_name = Some(name);
                self.selected_layer = layer;
            },
            None => {
                self.selected_device_name = None;
                self.selected_layer = None;
            },
        }
        self.clear_editing(fx);
        fx.push(Effect::EvaluateVisuals);
    }

    /// Shows layer `layer`, making it the active layer of the selected device.
    pub fn select_layer(&mut self, layer: String, fx: &mut Vec<Effect>)
        ensures
            same_data(*old(self), *final(self)),
            Session::same_view(*old(self), *final(self)),
            final(self).selected_device_name == old(self).selected_device_name,
            final(self).selected_layer == Some(layer),
            match old(self).selected_device_name {
                Some(n) => active_set(*old(self), *final(self), n@, Some(layer)),
                None => final(self).active_layers == old(self).active_layers,
            },
            final(self).editing_icon_idx is None,
            final(self).learn_target is None,
            final(fx)@ == old(fx)@ + save_if(old(self).editing_icon_idx is Some) + seq![Effect::EvaluateVisuals],
    {
        if let Some(n) = &self.selected_device_name {
            assoc_insert(&mut self.active_layers, n.clone(), layer.clone());
        }
        self.selected_layer = Some(layer);
        self.clear_editing(fx);
        fx.push(Effect::EvaluateVisuals);
    }

    /// Adds a layer named `name` without its surrounding white space (unless
    /// the selected device has one by that name) and shows it as the active
    /// layer; a blank name does nothing.
    pub fn add_layer(&mut self, name: &str, fx: &mut Vec<Effect>)
        requires
            old(self).wf(),
        ensures
            final(self).wf(),
            if trimmed(name@).len() == 0 {
                *final(self) == *old(self) && final(fx)@ == old(fx)@
            } else {
                let t = trimmed(name@);
                &&& final(self).config.names() == old(self).config.names()
                &&& match old(self).selected_index() {
                    Some(i) => final(self).config.devs() == old(self).config.devs().update(i, final(self).config.devs()[i])
                        && layer_added(old(self).config.devs()[i], t, final(self).config.devs()[i]),
                    None => final(self).config.devs() == old(self).config.devs(),
                }
                &&& final(self).dirty == (old(self).dirty || old(self).selected_index() is Some)
                &&& Session::same_runtime(*old(self), *final(self))
                &&& Session::same_view(*old(self), *final(self))
                &&& final(self).selected_device_name == old(self).selected_device_name
                &&& final(self).selected_layer matches Some(l) && l@ == t
                &&& match old(self).selected_device_name {
                    Some(n) => forall|q: Seq<char>| #[trigger] final(self).active_name(q) == (if q == n@ {
                        final(self).selected_layer
                    } else {
                        old(self).active_name(q)
                    }),
                    None => final(self).active_layers == old(self).active_layers,
                }
                &&& final(self).editing_icon_idx is None
                &&& final(self).learn_target is None
                &&& final(fx)@ == old(fx)@ + crate::editor::dirty_if(old(self).selected_index() is Some) + save_if(
                    old(self).editing_icon_idx is Some,
                ) + seq![Effect::EvaluateVisuals]
            },
    {
        let t = trim(name);
        if t.unicode_len() == 0 {
            return;
        }
        let mut changed = false;
        if let Some(i) = self.selected_device_index() {
            let mut d = DeviceConfig::blank();
            self.config.swap_device(i, &mut d);
            add_layer(&mut d, t.clone());
            self.config.swap_device(i, &mut d);
            changed = true;
            proof {
                assert(self.config.devs() =~= old(self).config.devs().update(i as int, self.config.devs()[i as int]));
            }
        }
        self.note_change(changed, fx);
        if let Some(n) = &self.selected_device_name {
            assoc_insert(&mut self.active_layers, n.clone(), t.clone());
        }
        self.selected_layer = Some(t);
        let ghost fx1 = fx@;
        self.clear_editing(fx);
        fx.push(Effect::EvaluateVisuals);
        proof {
            assert(fx@ =~= old(fx)@ + crate::editor::dirty_if(old(self).selected_index() is Some) + save_if(
                old(self).editing_icon_idx is Some,
            ) + seq![Effect::EvaluateVisuals]);
        }
    }

    /// Makes the recorded active layer of the selected device one of its
    /// layers again after layers were removed: the recorded one when it still
    /// exists, else the first; forgets it (and the shown layer) when the
    /// device has no layers left. Shows the chosen layer when none is shown.
    pub fn repair_active_layer(&mut self)
        requires
            old(self).wf(),
        ensures
            same_data(*old(self), *final(self)),
            Session::same_view(*old(self), *final(self)),
            final(self).selected_device_name == old(self).selected_device_name,
            final(self).editing_icon_idx == old(self).editing_icon_idx,
            final(self).learn_target == old(self).learn_target,
            match (old(self).selected_device_name, old(self).selected_index()) {
                (Some(n), Some(i)) => {
                    let d = old(self).config.devs()[i];
                    if d.layers@.len() == 0 {
                        &&& active_set(*old(self), *final(self), n@, None)
                        &&& final(self).selected_layer is None
                    } else {
                        let chosen = d.layers@[active_index(d.layers@, old(self).active_name(n@))].name;
                        &&& forall|q: Seq<char>| #[trigger] final(self).active_name(q) == (if q == n@ {
                            Some(chosen)
                        } else {
                            old(self).active_name(q)
                        })
                        &&& final(self).selected_layer == if old(self).selected_layer is None {
                            Some(chosen)
                        } else {
                            old(self).selected_layer
                        }
                    }
                },
                _ => *final(self) == *old(self),
            },
    {
        let i = match self.selected_device_index() {
            Some(i) => i,
            None => return,
        };
        let name = self.selected_device_name.clone().unwrap();
        let d = self.config.device(i).unwrap();
        if d.layers.len() == 0 {
            assoc_remove(&mut self.active_layers, name.as_str());
            self.selected_layer = None;
            return;
        }
        let li = self.find_active_layer(d, name.as_str()).unwrap();
        let chosen = d.layers[li].name.clone();
        assoc_insert(&mut self.active_layers, name, chosen.clone());
        if self.selected_layer.is_none() {
            self.selected_layer = Some(chosen);
        }
    }

    /// Removes the layers named `layer` from the selected device, unless it
    /// has at most one layer (then only the status line says so), and repairs
    /// the active and shown layers.
    pub fn remove_layer(&mut self, layer: String, fx: &mut Vec<Effect>)
        requires
            old(self).wf(),
        ensures
            final(self).wf(),
            match old(self).selected_index() {
                Some(i) if old(self).config.devs()[i].layers@.len() <= 1 => {
                    &&& *final(self) == (Session { status_message: final(self).status_message, ..*old(self) })
                    &&& final(self).status_message@ == "Cannot remove the last layer"@
                    &&& final(fx)@ == old(fx)@
                },
                Some(i) => {
                    &&& final(self).config.names() == old(self).config.names()
                    &&& final(self).config.devs() == old(self).config.devs().update(i, final(self).config.devs()[i])
                    &&& layer_removed(old(self).config.devs()[i], layer@, final(self).config.devs()[i])
                    &&& final(self).dirty
                    &&& Session::same_view(*old(self), *final(self))
                    &&& Session::same_runtime(*old(self), *final(self))
                    &&& final(self).selected_device_name == old(self).selected_device_name
                    &&& repaired(
                        *old(self),
                        *final(self),
                        old(self).selected_device_name->0@,
                        final(self).config.devs()[i],
                        shown_after_removal(old(self).selected_layer, layer@),
                    )
                    &&& final(self).editing_icon_idx is None
                    &&& final(self).learn_target is None
                    &&& final(fx)@ == old(fx)@ + seq![Effect::MarkDirty] + save_if(old(self).editing_icon_idx is Some)
                        + seq![Effect::EvaluateVisuals]
                },
                None => *final(self) == *old(self) && final(fx)@ == old(fx)@,
            },
    {
        let i = match self.selected_device_index() {
            Some(i) => i,
            None => return,
        };
        if self.config.device(i).unwrap().layers.len() <= 1 {
            self.status_message = "Cannot remove the last layer".to_owned();
            return;
        }
        let mut d = DeviceConfig::blank();
        self.config.swap_device(i, &mut d);
        remove_layer(&mut d, layer.as_str());
        self.config.swap_device(i, &mut d);
        proof {
            assert(self.config.devs() =~= old(self).config.devs().update(i as int, self.config.devs()[i as int]));
        }
        self.mark_dirty(fx);
        let shown = match &self.selected_layer {
            Some(l) => str_eq(l.as_str(), layer.as_str()),
            None => false,
        };
        if shown {
            self.selected_layer = None;
        }
        let ghost mid = *self;
        proof {
            assert(mid.selected_layer == shown_after_removal(old(self).selected_layer, layer@));
            assert(mid.active_layers == old(self).active_layers);
            assert(mid.config.names() == old(self).config.names());
            assert(mid.selected_index() == Some(i as int));
        }
        self.repair_active_layer();
        let ghost rep = *self;
        proof {
            let n = old(self).selected_device_name->0@;
            assert(repaired(mid, rep, n, mid.config.devs()[i as int], mid.selected_layer));
            assert forall|q: Seq<char>| #[trigger] mid.active_name(q) == old(self).active_name(q) by {}
        }
        self.clear_editing(fx);
        fx.push(Effect::EvaluateVisuals);
        proof {
            let n = old(self).selected_device_name->0@;
            assert(self.active_layers == rep.active_layers);
            assert(self.selected_layer == rep.selected_layer);
            assert(self.config == rep.config);
            let d2 = self.config.devs()[i as int];
            if d2.layers@.len() > 0 {
                let chosen = d2.layers@[active_index(d2.layers@, old(self).active_name(n))].name;
                assert forall|q: Seq<char>| #[trigger] self.active_name(q) == (if q == n {
                    Some(chosen)
                } else {
                    old(self).active_name(q)
                }) by {
                    assert(rep.active_name(q) == self.active_name(q));
                    assert(mid.active_name(q) == old(self).active_name(q));
                }
            } else {
                assert forall|q: Seq<char>| #[trigger] self.active_name(q) == (if q == n {
                    None
                } else {
                    old(self).active_name(q)
                }) by {
                    assert(rep.active_name(q) == self.active_name(q));
                    assert(mid.active_name(q) == old(self).active_name(q));
                }
            }
        }
    }

    /// Records the text typed as the name of the next new layer.
    pub fn update_new_layer_name(&mut self, name: String)
        ensures
            *final(self) == (Session { new_layer_name: name, ..*old(self) }),
    {
        self.new_layer_name = name;
    }

    /// Renames layer `old_name` of the selected device to `new_name` without
    /// its surrounding white space, when that name is neither blank nor taken;
    /// the shown and active layers follow. Otherwise the status line says why.
    /// Answers whether the layer was renamed.
    pub fn rename_layer(&mut self, old_name: String, new_name: &str, fx: &mut Vec<Effect>) -> (renamed: bool)
        requires
            old(self).wf(),
        ensures
            final(self).wf(),
            ({
                let t = trimmed(new_name@);
                let ok = old(self).selected_index() matches Some(i) && !is_blank(t) && (old_name@ == t || !layer_named(
                    old(self).config.devs()[i].layers@,
                    t,
                ));
                if t == old_name@ {
                    *final(self) == *old(self) && final(fx)@ == old(fx)@ && !renamed
                } else if !ok {
                    &&& !renamed
                    &&& *final(self) == (Session { status_message: final(self).status_message, ..*old(self) })
                    &&& final(self).status_message@ == if t.len() == 0 {
                        "Layer name cannot be empty"@
                    } else {
                        "Layer '"@ + t + "' already exists"@
                    }
                    &&& final(fx)@ == old(fx)@
                } else {
                    let i = old(self).selected_index()->0;
                    let n = old(self).selected_device_name->0;
                    &&& renamed
                    &&& final(self).config.names() == old(self).config.names()
                    &&& final(self).config.devs() == old(self).config.devs().update(i, final(self).config.devs()[i])
                    &&& layer_renamed(old(self).config.devs()[i], old_name@, t, final(self).config.devs()[i], true)
                    &&& final(self).dirty
                    &&& Session::same_view(*old(self), *final(self))
                    &&& Session::same_runtime(*old(self), *final(self))
                    &&& final(self).selected_device_name == old(self).selected_device_name
                    &&& final(self).editing_icon_idx == old(self).editing_icon_idx
                    &&& final(self).learn_target == old(self).learn_target
                    &&& if old(self).selected_layer matches Some(l) && l@ == old_name@ {
                        final(self).selected_layer matches Some(l2) && l2@ == t
                    } else {
                        final(self).selected_layer == old(self).selected_layer
                    }
                    &&& forall|q: Seq<char>| q != n@ ==> #[trigger] final(self).active_name(q) == old(self).active_name(q)
                    &&& if old(self).active_name(n@) matches Some(l) && l@ == old_name@ {
                        final(self).active_name(n@) matches Some(l2) && l2@ == t
                    } else {
                        final(self).active_name(n@) == old(self).active_name(n@)
                    }
                    &&& final(fx)@ == old(fx)@ + seq![Effect::MarkDirty, Effect::EvaluateVisuals]
                }
            }),
    {
        let t = trim(new_name);
        if t == old_name {
            return false;
        }
        let mut renamed = false;
        if let Some(i) = self.selected_device_index() {
            if valid_layer_rename(self.config.device(i).unwrap().layers.as_slice(), old_name.as_str(), t.as_str()) {
                let mut d = DeviceConfig::blank();
                self.config.swap_device(i, &mut d);
                renamed = rename_layer(&mut d, old_name.as_str(), t.as_str());
                self.config.swap_device(i, &mut d);
            }
            proof {
                assert(self.config.devs() =~= old(self).config.devs().update(i as int, self.config.devs()[i as int]));
            }
        }
        if !renamed {
            if t.unicode_len() == 0 {
                self.status_message = "Layer name cannot be empty".to_owned();
            } else {
                let mut msg = String::new();
                msg.append("Layer '");
                msg.append(t.as_str());
                msg.append("' already exists");
                self.status_message = msg;
            }
            return false;
        }
        self.mark_dirty(fx);
        let shown = match &self.selected_layer {
            Some(l) => *l == old_name,
            None => false,
        };
        if shown {
            self.selected_layer = Some(t.clone());
        }
        if let Some(n) = &self.selected_device_name {
            let active_is_old = match assoc_lookup(&self.active_layers, n.as_str()) {
                Some(l) => *l == old_name,
                None => false,
            };
            if active_is_old {
                assoc_insert(&mut self.active_layers, n.clone(), t.clone());
            }
        }
        fx.push(Effect::EvaluateVisuals);
        proof {
            assert(fx@ =~= old(fx)@ + seq![Effect::MarkDirty, Effect::EvaluateVisuals]);
        }
        true
    }

    /// Removes device `idx` and what was recorded for it; deselects it when
    /// it was selected.
    pub fn remove_device(&mut self, idx: usize, fx: &mut Vec<Effect>)
        requires
            old(self).wf(),
        ensures
            final(self).wf(),
            if idx < old(self).config.names().len() {
                let n = old(self).config.names()[idx as int];
                let was_selected = old(self).selected_device_name matches Some(s) && s@ == n@;
                &&& final(self).config.names() == old(self).config.names().remove(idx as int)
                &&& final(self).config.devs() == old(self).config.devs().remove(idx as int)
                &&& final(self).connected_devices@ == old(self).connected_devices@.filter(|x: String| x@ != n@)
                &&& active_set(*old(self), *final(self), n@, None)
                &&& final(self).dirty
                &&& Session::same_view(*old(self), *final(self))
                &&& final(self).pw_objects == old(self).pw_objects
                &&& final(self).pw_edges == old(self).pw_edges
                &&& final(self).pw_connected == old(self).pw_connected
                &&& final(self).last_input_value == old(self).last_input_value
                &&& if was_selected {
                    &&& final(self).selected_device_name is None
                    &&& final(self).selected_layer is None
                    &&& final(self).editing_icon_idx is None
                    &&& final(self).learn_target is None
                    &&& final(fx)@ == old(fx)@ + seq![final(fx)@[old(fx)@.len() as int], Effect::MarkDirty]
                        + save_if(old(self).editing_icon_idx is Some)
                } else {
                    &&& final(self).selected_device_name == old(self).selected_device_name
                    &&& final(self).selected_layer == old(self).selected_layer
                    &&& final(self).editing_icon_idx == old(self).editing_icon_idx
                    &&& final(self).learn_target == old(self).learn_target
                    &&& final(fx)@ == old(fx)@ + seq![final(fx)@[old(fx)@.len() as int], Effect::MarkDirty]
                }
                &&& final(fx)@[old(fx)@.len() as int] matches Effect::ForgetDevice(f) && f@ == n@
            } else {
                *final(self) == *old(self) && final(fx)@ == old(fx)@
            },
    {
        let n = match self.config.device_name(idx) {
            Some(n) => n.to_owned(),
            None => return,
        };
        proof {
            self.config.lemma_index_of_name(idx as int);
        }
        self.config.remove_device(n.as_str());
        remove_name(&mut self.connected_devices, n.as_str());
        assoc_remove(&mut self.active_layers, n.as_str());
        let forget = Effect::ForgetDevice(n.clone());
        let ghost fg = forget;
        fx.push(forget);
        self.mark_dirty(fx);
        proof {
            assert(fx@[old(fx)@.len() as int] == fg);
            assert(fx@ =~= old(fx)@ + seq![fg, Effect::MarkDirty]);
        }
        let was_selected = match &self.selected_device_name {
            Some(s) => *s == n,
            None => false,
        };
        let ghost fx1 = fx@;
        if was_selected {
            self.selected_device_name = None;
            self.selected_layer = None;
            self.clear_editing(fx);
        }
        proof {
            assert(fx1[old(fx)@.len() as int] == fg);
            assert(fx@[old(fx)@.len() as int] == fx1[old(fx)@.len() as int]);
            if was_selected {
                assert(fx@ =~= old(fx)@ + seq![fg, Effect::MarkDirty] + save_if(old(self).editing_icon_idx is Some));
            }
        }
    }

    /// Opens the add-device dialog over the ports of `ports` that no device
    /// of the configuration uses.
    pub fn open_add_dialog(&mut self, ports: Vec<PortInfo>)
        requires
            old(self).wf(),
        ensures
            *final(self) == (Session { add_dialog_state: final(self).add_dialog_state, show_add_dialog: true, ..*old(self) }),
            final(self).add_dialog_state.search@ == Seq::<char>::empty(),
            final(self).add_dialog_state.selected_port is None,
            final(self).add_dialog_state.available_ports@ == ports@.filter(
                |p: PortInfo| !port_configured(old(self).config.devs(), p.name@),
            ),
    {
        let ghost pred = |p: PortInfo| !port_configured(self.config.devs(), p.name@);
        let mut kept: Vec<PortInfo> = Vec::new();
        let mut rest = ports;
        let ghost all = rest@;
        let n = rest.len();
        let mut i: usize = 0;
        while i < n
            invariant
                self.wf(),
                n == all.len(),
                i <= n,
                rest@ == all.subrange(i as int, n as int),
                kept@ == all.take(i as int).filter(pred),
                pred == (|p: PortInfo| !port_configured(self.config.devs(), p.name@)),
            decreases n - i,
        {
            let e = rest.remove(0);
            proof {
                assert(e == all[i as int]);
                assert(rest@ =~= all.subrange(i + 1, n as int));
                reveal(Seq::filter);
                assert(all.take(i + 1).drop_last() =~= all.take(i as int));
                assert(all.take(i + 1).last() == e);
            }
            if !self.uses_port(e.name.as_str()) {
                kept.push(e);
            }
            i = i + 1;
        }
        proof {
            assert(all.take(n as int) =~= all);
        }
        self.add_dialog_state = AddDeviceDialog::new(kept);
        self.show_add_dialog = true;
    }

    /// Whether some configured device uses the port `name`.
    pub fn uses_port(&self, name: &str) -> (r: bool)
        requires
            self.wf(),
        ensures
            r == port_configured(self.config.devs(), name@),
    {
        let n = self.config.device_count();
        let mut i: usize = 0;
        while i < n
            invariant
                self.wf(),
                n == self.config.devs().len(),
                i <= n,
                forall|j: int| 0 <= j < i ==> #[trigger] self.config.devs()[j].port_name@ != name@,
            decreases n - i,
        {
            let d = self.config.device(i).unwrap();
            if str_eq(d.port_name.as_str(), name) {
                return true;
            }
            i = i + 1;
        }
        false
    }

    /// Records the dialog's search text; the selection is dropped.
    pub fn dialog_search_changed(&mut self, search: String)
        ensures
            *final(self) == (Session {
                add_dialog_state: AddDeviceDialog {
                    search,
                    selected_port: None,
                    available_ports: old(self).add_dialog_state.available_ports,
                },
                ..*old(self)
            }),
    {
        self.add_dialog_state.search = search;
        self.add_dialog_state.selected_port = None;
    }

    /// Selects port `i` of the dialog's list.
    pub fn dialog_select_port(&mut self, i: usize)
        ensures
            *final(self) == (Session {
                add_dialog_state: AddDeviceDialog { selected_port: Some(i), ..old(self).add_dialog_state },
                ..*old(self)
            }),
    {
        self.add_dialog_state.selected_port = Some(i);
    }

    /// Closes the add-device dialog.
    pub fn cancel_add_device(&mut self)
        ensures
            *final(self) == (Session { show_add_dialog: false, ..*old(self) }),
    {
        self.show_add_dialog = false;
    }

    /// Closes the dialog and adds the selected port as a new device (8×4
    /// grid, no hardware, one layer "A", active), unless it is configured
    /// already; the new device's ports are then to be opened.
    pub fn confirm_add_device(&mut self, fx: &mut Vec<Effect>)
        requires
            old(self).wf(),
        ensures
            final(self).wf(),
            !final(self).show_add_dialog,
            ({
                let dlg = old(self).add_dialog_state;
                let adds = dlg.selected_port matches Some(p) && p < dlg.available_ports@.len()
                    && old(self).config.lookup(dlg.available_ports@[p as int].name@) is None;
                if adds {
                    let name = dlg.available_ports@[dlg.selected_port->0 as int].name;
                    let d = final(self).config.devs().last();
                    &&& final(self).config.names() == old(self).config.names().push(name)
                    &&& final(self).config.devs().len() == old(self).config.devs().len() + 1
                    &&& final(self).config.devs().take(old(self).config.devs().len() as int) == old(self).config.devs()
                    &&& d.port_name == name && d.grid_columns == 8 && d.grid_rows == 4 && d.hardware@.len() == 0
                    &&& d.layers@.len() == 1 && d.layers@[0].name@ == seq!['A'] && d.layers@[0].bank_offset == 0
                        && d.layers@[0].icons@.len() == 0
                    &&& final(self).dirty
                    &&& forall|q: Seq<char>| #[trigger] final(self).active_name(q) == if q == name@ {
                        final(self).active_name(q)
                    } else {
                        old(self).active_name(q)
                    }
                    &&& final(self).active_name(name@) matches Some(l) && l@ == seq!['A']
                    &&& final(fx)@ == old(fx)@ + seq![Effect::MarkDirty, Effect::ConnectDevice(name)]
                    &&& *final(self) == (Session {
                        config: final(self).config,
                        dirty: true,
                        active_layers: final(self).active_layers,
                        show_add_dialog: false,
                        ..*old(self)
                    })
                } else {
                    *final(self) == (Session { show_add_dialog: false, ..*old(self) }) && final(fx)@ == old(fx)@
                }
            }),
    {
        self.show_add_dialog = false;
        let name = match self.add_dialog_state.selected_port {
            Some(p) => {
                if p < self.add_dialog_state.available_ports.len() {
                    self.add_dialog_state.available_ports[p].name.clone()
                } else {
                    return;
                }
            },
            None => return,
        };
        if self.config.contains_device(name.as_str()) {
            return;
        }
        let device = DeviceConfig {
            port_name: name.clone(),
            grid_columns: default_grid_cols(),
            grid_rows: default_grid_rows(),
            hardware: Vec::new(),
            layers: default_layers(),
        };
        proof {
            crate::config::lemma_name_index(self.config.names(), name@);
        }
        self.config.insert_device(name.clone(), device);
        proof {
            assert(self.config.devs().take(old(self).config.devs().len() as int) =~= old(self).config.devs());
        }
        self.mark_dirty(fx);
        let a = "A";
        proof {
            reveal_strlit("A");
            assert(a@ =~= seq!['A']);
        }
        assoc_insert(&mut self.active_layers, name.clone(), a.to_owned());
        fx.push(Effect::ConnectDevice(name));
        proof {
            assert(fx@ =~= old(fx)@ + seq![Effect::MarkDirty, Effect::ConnectDevice(name)]);
        }
    }
}

/// Whether some device in `devs` uses the port `name`.
pub open spec fn port_configured(devs: Seq<DeviceConfig>, name: Seq<char>) -> bool {
    exists|j: int| 0 <= j < devs.len() && #[trigger] devs[j].port_name@ == name
}

} // verus!
