use vstd::prelude::*;
use crate::actions::Action;
use crate::config::{FeedbackEntry, SignalEntry, SoftwareDef};
use crate::ids::take_at;
use crate::source::{Comparison, Source, SourceBranch};

verus! {

/// Which text line of a feedback entry an edit addresses.
#[derive(Debug, Clone, Copy, PartialEq, Eq, Structural)]
pub enum FeedbackLine {
    Line1,
    Line2,
}

/// A signal entry seen as plain values.
pub struct SignalView {
    pub input: Seq<char>,
    pub actions: Seq<Action>,
}

/// An icon's software seen as plain values.
pub struct SoftwareView {
    pub label: Seq<char>,
    pub signals: Seq<SignalView>,
    pub feedback: Seq<FeedbackEntry>,
    pub visual: Option<Source>,
}

impl View for SignalEntry {
    type V = SignalView;

    open spec fn view(&self) -> SignalView {
        SignalView { input: self.input@, actions: self.actions@ }
    }
}

impl View for SoftwareDef {
    type V = SoftwareView;

    open spec fn view(&self) -> SoftwareView {
        SoftwareView {
            label: self.label@,
            signals: self.signal_entries@.map_values(|se: SignalEntry| se@),
            feedback: self.feedback_entries@,
            visual: self.visual_source,
        }
    }
}

/// The software a fresh icon starts with.
pub open spec fn empty_software() -> SoftwareView {
    SoftwareView { label: Seq::empty(), signals: Seq::empty(), feedback: Seq::empty(), visual: None }
}

/// One edit of an icon's per-layer software.
pub enum SoftwareEdit {
    SetLabel(String),
    AddSignalEntry,
    RemoveSignalEntry(usize),
    SetSignalInput(usize, String),
    AddSignalAction(usize),
    RemoveSignalAction(usize, usize),
    SetSignalAction(usize, usize, Action),
    AddFeedbackEntry,
    RemoveFeedbackEntry(usize),
    SetFeedbackOutput(usize, String),
    SetFeedbackSource(usize, FeedbackLine, Vec<SourceBranch>, Source),
    SetVisualSource(Vec<SourceBranch>, Option<Source>),
    SetIfComparison(usize, FeedbackLine, Vec<SourceBranch>, Comparison),
    SetVisualIfComparison(Vec<SourceBranch>, Comparison),
}

impl SoftwareEdit {
    /// Whether a change made by this edit shows on the faceplate, so visuals
    /// must be evaluated again.
    pub open spec fn spec_touches_visuals(self) -> bool {
        self is SetVisualSource || self is SetVisualIfComparison
    }

    pub fn touches_visuals(&self) -> (r: bool)
        ensures
            r == self.spec_touches_visuals(),
    {
        match self {
            SoftwareEdit::SetVisualSource(..) | SoftwareEdit::SetVisualIfComparison(..) => true,
            _ => false,
        }
    }
}

/// The placeholder source of a new feedback line: the constant "false".
pub open spec fn is_off(s: Source) -> bool {
    s matches Source::Direct { value } && value@ == seq!['f', 'a', 'l', 's', 'e']
}

/// A fresh feedback entry: no output yet, line 1 constantly "false", no line 2.
pub open spec fn is_fresh_feedback(fe: FeedbackEntry) -> bool {
    &&& fe.output@ == Seq::<char>::empty()
    &&& is_off(fe.source)
    &&& fe.line2_source is None
}

/// The software after `e`, and whether `e` changed anything; `is_edit` gives
/// the two cases that create fresh text.
pub open spec fn edited(v: SoftwareView, e: SoftwareEdit) -> (SoftwareView, bool) {
    match e {
        SoftwareEdit::SetLabel(l) => if v.label == l@ {
            (v, false)
        } else {
            (SoftwareView { label: l@, ..v }, true)
        },
        SoftwareEdit::AddSignalEntry => (
            SoftwareView {
                signals: v.signals.push(SignalView { input: Seq::empty(), actions: seq![Action::NoOp] }),
                ..v
            },
            true,
        ),
        SoftwareEdit::RemoveSignalEntry(i) => if i < v.signals.len() {
            (SoftwareView { signals: v.signals.remove(i as int), ..v }, true)
        } else {
            (v, false)
        },
        SoftwareEdit::SetSignalInput(i, input) => if i < v.signals.len() {
            (
                SoftwareView {
                    signals: v.signals.update(i as int, SignalView { input: input@, ..v.signals[i as int] }),
                    ..v
                },
                true,
            )
        } else {
            (v, false)
        },
        SoftwareEdit::AddSignalAction(i) => if i < v.signals.len() {
            (
                SoftwareView {
                    signals: v.signals.update(
                        i as int,
                        SignalView { actions: v.signals[i as int].actions.push(Action::NoOp), ..v.signals[i as int] },
                    ),
                    ..v
                },
                true,
            )
        } else {
            (v, false)
        },
        SoftwareEdit::RemoveSignalAction(i, a) => if i < v.signals.len() && a < v.signals[i as int].actions.len() {
            (
                SoftwareView {
                    signals: v.signals.update(
                        i as int,
                        SignalView { actions: v.signals[i as int].actions.remove(a as int), ..v.signals[i as int] },
                    ),
                    ..v
                },
                true,
            )
        } else {
            (v, false)
        },
        SoftwareEdit::SetSignalAction(i, a, action) => if i < v.signals.len() && a < v.signals[i as int].actions.len() {
            (
                SoftwareView {
                    signals: v.signals.update(
                        i as int,
                        SignalView {
                            actions: v.signals[i as int].actions.update(a as int, action),
                            ..v.signals[i as int]
                        },
                    ),
                    ..v
                },
                true,
            )
        } else {
            (v, false)
        },
        SoftwareEdit::AddFeedbackEntry => (v, true),
        SoftwareEdit::RemoveFeedbackEntry(i) => if i < v.feedback.len() {
            (SoftwareView { feedback: v.feedback.remove(i as int), ..v }, true)
        } else {
            (v, false)
        },
        SoftwareEdit::SetFeedbackOutput(i, output) => if i < v.feedback.len() {
            (SoftwareView { feedback: v.feedback.update(i as int, FeedbackEntry { output, ..v.feedback[i as int] }), ..v }, true)
        } else {
            (v, false)
        },
        SoftwareEdit::SetFeedbackSource(i, line, path, s) => if i < v.feedback.len() {
            let fe = v.feedback[i as int];
            let nfe = match line {
                FeedbackLine::Line1 => FeedbackEntry { source: Source::spec_replace_at(fe.source, path@, s), ..fe },
                FeedbackLine::Line2 => match fe.line2_source {
                    Some(s2) => FeedbackEntry { line2_source: Some(Source::spec_replace_at(s2, path@, s)), ..fe },
                    None => FeedbackEntry { line2_source: Some(s), ..fe },
                },
            };
            (SoftwareView { feedback: v.feedback.update(i as int, nfe), ..v }, true)
        } else {
            (v, false)
        },
        SoftwareEdit::SetVisualSource(path, s) => match s {
            None => (SoftwareView { visual: None, ..v }, v.visual is Some),
            Some(src) => match v.visual {
                Some(vs) => (SoftwareView { visual: Some(Source::spec_replace_at(vs, path@, src)), ..v }, true),
                None => (SoftwareView { visual: Some(src), ..v }, true),
            },
        },
        SoftwareEdit::SetIfComparison(i, line, path, c) => if i < v.feedback.len() {
            let fe = v.feedback[i as int];
            let nfe = match line {
                FeedbackLine::Line1 => FeedbackEntry {
                    source: Source::spec_replace_condition_at(fe.source, path@, c),
                    ..fe
                },
                FeedbackLine::Line2 => match fe.line2_source {
                    Some(s2) => FeedbackEntry { line2_source: Some(Source::spec_replace_condition_at(s2, path@, c)), ..fe },
                    None => fe,
                },
            };
            (SoftwareView { feedback: v.feedback.update(i as int, nfe), ..v }, true)
        } else {
            (v, false)
        },
        SoftwareEdit::SetVisualIfComparison(path, c) => match v.visual {
            Some(vs) => (SoftwareView { visual: Some(Source::spec_replace_condition_at(vs, path@, c)), ..v }, true),
            None => (v, false),
        },
    }
}

/// Whether `nv` and `changed` are the software after `e` and whether `e` changed it.
pub open spec fn is_edit(v: SoftwareView, e: SoftwareEdit, nv: SoftwareView, changed: bool) -> bool {
    match e {
        SoftwareEdit::AddFeedbackEntry => {
            &&& changed
            &&& nv.feedback.len() == v.feedback.len() + 1
            &&& is_fresh_feedback(nv.feedback.last())
            &&& nv == SoftwareView { feedback: v.feedback.push(nv.feedback.last()), ..v }
        },
        SoftwareEdit::SetIfComparison(i, FeedbackLine::Line2, path, c) if i < v.feedback.len()
            && v.feedback[i as int].line2_source is None => {
            &&& changed
            &&& exists|b: Source|
                #[trigger] is_off(b) && nv == SoftwareView {
                    feedback: v.feedback.update(
                        i as int,
                        FeedbackEntry {
                            line2_source: Some(Source::spec_replace_condition_at(b, path@, c)),
                            ..v.feedback[i as int]
                        },
                    ),
                    ..v
                }
        },
        _ => (nv, changed) == edited(v, e),
    }
}

spec fn off_placeholder() -> Source {
    Source::Bank
}

fn off() -> (s: Source)
    ensures
        is_off(s),
{
    let t = "false";
    proof {
        reveal_strlit("false");
        assert(t@ =~= seq!['f', 'a', 'l', 's', 'e']);
    }
    Source::Direct { value: t.to_owned() }
}

/// Applies `e` to `sw` and answers whether anything changed.
pub fn apply_edit(sw: &mut SoftwareDef, e: SoftwareEdit) -> (changed: bool)
    ensures
        is_edit(old(sw)@, e, final(sw)@, changed),
{
    let ghost e0 = e;
    let ghost v = sw@;
    match e {
        SoftwareEdit::SetLabel(l) => {
            if sw.label == l {
                false
            } else {
                sw.label = l;
                true
            }
        },
        SoftwareEdit::AddSignalEntry => {
            let mut actions: Vec<Action> = Vec::new();
            actions.push(Action::NoOp);
            sw.signal_entries.push(SignalEntry { input: String::new(), actions });
            proof {
                assert(sw@.signals =~= edited(v, e0).0.signals);
            }
            true
        },
        SoftwareEdit::RemoveSignalEntry(i) => {
            let r = take_at(&mut sw.signal_entries, i);
            proof {
                assert(sw@.signals =~= edited(v, e0).0.signals);
            }
            r.is_some()
        },
        SoftwareEdit::SetSignalInput(i, input) => {
            if i < sw.signal_entries.len() {
                let mut se = sw.signal_entries.remove(i);
                se.input = input;
                sw.signal_entries.insert(i, se);
                proof {
                    assert(sw@.signals =~= edited(v, e0).0.signals);
                }
                true
            } else {
                false
            }
        },
        SoftwareEdit::AddSignalAction(i) => {
            if i < sw.signal_entries.len() {
                let mut se = sw.signal_entries.remove(i);
                se.actions.push(Action::NoOp);
                sw.signal_entries.insert(i, se);
                proof {
                    assert(sw@.signals =~= edited(v, e0).0.signals);
                }
                true
            } else {
                false
            }
        },
        SoftwareEdit::RemoveSignalAction(i, a) => {
            if i < sw.signal_entries.len() && a < sw.signal_entries[i].actions.len() {
                let mut se = sw.signal_entries.remove(i);
                se.actions.remove(a);
                sw.signal_entries.insert(i, se);
                proof {
                    assert(sw@.signals =~= edited(v, e0).0.signals);
                }
                true
            } else {
                false
            }
        },
        SoftwareEdit::SetSignalAction(i, a, action) => {
            if i < sw.signal_entries.len() && a < sw.signal_entries[i].actions.len() {
                let mut se = sw.signal_entries.remove(i);
                se.actions.set(a, action);
                sw.signal_entries.insert(i, se);
                proof {
                    assert(sw@.signals =~= edited(v, e0).0.signals);
                }
                true
            } else {
                false
            }
        },
        SoftwareEdit::AddFeedbackEntry => {
            sw.feedback_entries.push(FeedbackEntry { output: String::new(), source: off(), line2_source: None });
            proof {
                assert(sw@.feedback =~= v.feedback.push(sw@.feedback.last()));
                assert(sw@.signals =~= v.signals);
            }
            true
        },
        SoftwareEdit::RemoveFeedbackEntry(i) => {
            let r = take_at(&mut sw.feedback_entries, i);
            proof {
                assert(sw@.signals =~= edited(v, e0).0.signals);
            }
            r.is_some()
        },
        SoftwareEdit::SetFeedbackOutput(i, output) => {
            if i < sw.feedback_entries.len() {
                let mut fe = sw.feedback_entries.remove(i);
                fe.output = output;
                sw.feedback_entries.insert(i, fe);
                proof {
                    assert(sw@.feedback =~= edited(v, e0).0.feedback);
                }
                true
            } else {
                false
            }
        },
        SoftwareEdit::SetFeedbackSource(i, line, path, s) => {
            if i < sw.feedback_entries.len() {
                let mut fe = sw.feedback_entries.remove(i);
                match line {
                    FeedbackLine::Line1 => fe.source.replace_at(path.as_slice(), s),
                    FeedbackLine::Line2 => {
                        match fe.line2_source {
                            Some(mut s2) => {
                                s2.replace_at(path.as_slice(), s);
                                fe.line2_source = Some(s2);
                            },
                            None => {
                                fe.line2_source = Some(s);
                            },
                        }
                    },
                }
                sw.feedback_entries.insert(i, fe);
                proof {
                    assert(sw@.feedback =~= edited(v, e0).0.feedback);
                }
                true
            } else {
                false
            }
        },
        SoftwareEdit::SetVisualSource(path, s) => {
            match s {
                None => {
                    let had = sw.visual_source.is_some();
                    sw.visual_source = None;
                    had
                },
                Some(src) => {
                    match sw.visual_source.take() {
                        Some(mut vs) => {
                            vs.replace_at(path.as_slice(), src);
                            sw.visual_source = Some(vs);
                        },
                        None => {
                            sw.visual_source = Some(src);
                        },
                    }
                    true
                },
            }
        },
        SoftwareEdit::SetIfComparison(i, line, path, c) => {
            if i < sw.feedback_entries.len() {
                let mut fe = sw.feedback_entries.remove(i);
                let ghost fe0 = fe;
                let ghost mut b0 = off_placeholder();
                match line {
                    FeedbackLine::Line1 => fe.source.replace_condition_at(path.as_slice(), c),
                    FeedbackLine::Line2 => {
                        let mut base = match fe.line2_source {
                            Some(s2) => s2,
                            None => off(),
                        };
                        proof {
                            b0 = base;
                        }
                        base.replace_condition_at(path.as_slice(), c);
                        fe.line2_source = Some(base);
                    },
                }
                sw.feedback_entries.insert(i, fe);
                proof {
                    assert(sw@.signals =~= v.signals);
                    if line is Line2 && fe0.line2_source is None {
                        assert(is_off(b0));
                        assert(sw@.feedback =~= v.feedback.update(
                            i as int,
                            FeedbackEntry {
                                line2_source: Some(Source::spec_replace_condition_at(b0, path@, c)),
                                ..v.feedback[i as int]
                            },
                        ));
                    } else {
                        assert(sw@.feedback =~= edited(v, e0).0.feedback);
                    }
                }
                true
            } else {
                false
            }
        },
        SoftwareEdit::SetVisualIfComparison(path, c) => {
            match sw.visual_source.take() {
                Some(mut vs) => {
                    vs.replace_condition_at(path.as_slice(), c);
                    sw.visual_source = Some(vs);
                    true
                },
                None => false,
            }
        },
    }
}

} // verus!
