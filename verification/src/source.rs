use vstd::prelude::*;

verus! {

/// Default upper end of a `RingRange` output range.
pub fn default_max_val() -> (v: u8)
    ensures
        v == 127,
{
    127
}

/// Default `Blink` half-period, in milliseconds.
pub fn default_blink_interval() -> (v: u64)
    ensures
        v == 1000,
{
    1000
}

/// Smallest allowed blink interval. `Source::Blink` evaluation and the UI both
/// clamp to this so the blink phase can never divide by zero.
pub const MIN_BLINK_INTERVAL_MS: u64 = 100;

/// Path step into a `Source` tree: `If.then_source` and `If.else_source`,
/// `RingRange.source`, and `Blink.a`/`Blink.b`. The comparison inside `If` is
/// edited separately.
#[derive(Debug, Clone, Copy, PartialEq, Eq, Hash, Structural)]
pub enum SourceBranch {
    IfThen,
    IfElse,
    RingRangeInner,
    BlinkA,
    BlinkB,
}

/// Comparison operators of an `If` condition.
#[derive(Debug, Clone, Copy, PartialEq, Eq, Structural)]
pub enum CmpOp {
    Lt,
    Lte,
    Gt,
    Gte,
    Eq,
}

impl CmpOp {
    pub open spec fn spec_symbol(self) -> &'static str {
        match self {
            CmpOp::Lt => "<",
            CmpOp::Lte => "<=",
            CmpOp::Gt => ">",
            CmpOp::Gte => ">=",
            CmpOp::Eq => "=",
        }
    }

    /// The operator's symbol, as shown in pickers.
    pub fn symbol(&self) -> (s: &'static str)
        ensures
            s == self.spec_symbol(),
    {
        match self {
            CmpOp::Lt => "<",
            CmpOp::Lte => "<=",
            CmpOp::Gt => ">",
            CmpOp::Gte => ">=",
            CmpOp::Eq => "=",
        }
    }
}

/// A value-producing expression evaluated against PipeWire state, layer, bank,
/// and hardware input. Sources compose via `If` into deep trees and evaluate to
/// a single text result interpreted by the consumer.
#[derive(Debug)]
pub enum Source {
    Direct { value: String },
    /// The most recent raw MIDI value on the input with the given label,
    /// normalized to 0.0–1.0.
    HardwareInput { input_label: String },
    Volume { target: String },
    Muted { target: String },
    RouteActive { stream: String, sink: String },
    LayerActive { layer: String },
    Bank,
    Custom { cmd: String },
    If { condition: Comparison, then_source: Box<Source>, else_source: Box<Source> },
    RingRange { source: Box<Source>, min: u8, max: u8 },
    Blink { a: Box<Source>, b: Box<Source>, interval_ms: u64 },
}

/// Comparison of two sources. Numeric comparison is attempted first;
/// falls back to lexicographic string ordering when either side does not
/// parse as a number.
#[derive(Debug)]
pub struct Comparison {
    pub left: Box<Source>,
    pub op: CmpOp,
    pub right: Box<Source>,
}

impl Clone for Comparison {
    fn clone(&self) -> (r: Self)
        ensures
            r == *self,
        decreases self,
    {
        Comparison { left: Box::new((*self.left).clone()), op: self.op, right: Box::new((*self.right).clone()) }
    }
}

impl Clone for Source {
    fn clone(&self) -> (r: Self)
        ensures
            r == *self,
        decreases self,
    {
        match self {
            Source::Direct { value } => Source::Direct { value: value.clone() },
            Source::HardwareInput { input_label } => Source::HardwareInput {
                input_label: input_label.clone(),
            },
            Source::Volume { target } => Source::Volume { target: target.clone() },
            Source::Muted { target } => Source::Muted { target: target.clone() },
            Source::RouteActive { stream, sink } => Source::RouteActive {
                stream: stream.clone(),
                sink: sink.clone(),
            },
            Source::LayerActive { layer } => Source::LayerActive { layer: layer.clone() },
            Source::Bank => Source::Bank,
            Source::Custom { cmd } => Source::Custom { cmd: cmd.clone() },
            Source::If { condition, then_source, else_source } => Source::If {
                condition: condition.clone(),
                then_source: Box::new((**then_source).clone()),
                else_source: Box::new((**else_source).clone()),
            },
            Source::RingRange { source, min, max } => Source::RingRange {
                source: Box::new((**source).clone()),
                min: *min,
                max: *max,
            },
            Source::Blink { a, b, interval_ms } => Source::Blink {
                a: Box::new((**a).clone()),
                b: Box::new((**b).clone()),
                interval_ms: *interval_ms,
            },
        }
    }
}

impl Source {
    pub open spec fn spec_kind(self) -> &'static str {
        match self {
            Source::Direct { .. } => "Direct",
            Source::HardwareInput { .. } => "HardwareInput",
            Source::Volume { .. } => "Volume",
            Source::Muted { .. } => "Muted",
            Source::RouteActive { .. } => "RouteActive",
            Source::LayerActive { .. } => "LayerActive",
            Source::Bank => "Bank",
            Source::Custom { .. } => "Custom",
            Source::If { .. } => "If",
            Source::RingRange { .. } => "RingRange",
            Source::Blink { .. } => "Blink",
        }
    }

    /// Stable, human-readable name of the source variant, used by pickers.
    pub fn kind(&self) -> (k: &'static str)
        ensures
            k == self.spec_kind(),
    {
        match self {
            Source::Direct { .. } => "Direct",
            Source::HardwareInput { .. } => "HardwareInput",
            Source::Volume { .. } => "Volume",
            Source::Muted { .. } => "Muted",
            Source::RouteActive { .. } => "RouteActive",
            Source::LayerActive { .. } => "LayerActive",
            Source::Bank => "Bank",
            Source::Custom { .. } => "Custom",
            Source::If { .. } => "If",
            Source::RingRange { .. } => "RingRange",
            Source::Blink { .. } => "Blink",
        }
    }

    /// The node one `branch` step below `node`: the matching child, or `node`
    /// itself when `node` has no such child.
    pub open spec fn spec_walk(node: Source, branch: SourceBranch) -> Source {
        match (branch, node) {
            (SourceBranch::IfThen, Source::If { then_source, .. }) => *then_source,
            (SourceBranch::IfElse, Source::If { else_source, .. }) => *else_source,
            (SourceBranch::RingRangeInner, Source::RingRange { source, .. }) => *source,
            (SourceBranch::BlinkA, Source::Blink { a, .. }) => *a,
            (SourceBranch::BlinkB, Source::Blink { b, .. }) => *b,
            _ => node,
        }
    }

    /// `node` with the node one `branch` step below it replaced by `child`
    /// (`child` itself when `node` has no such child).
    pub open spec fn spec_set_walk(node: Source, branch: SourceBranch, child: Source) -> Source {
        match (branch, node) {
            (SourceBranch::IfThen, Source::If { condition, else_source, .. }) => Source::If {
                condition,
                then_source: Box::new(child),
                else_source,
            },
            (SourceBranch::IfElse, Source::If { condition, then_source, .. }) => Source::If {
                condition,
                then_source,
                else_source: Box::new(child),
            },
            (SourceBranch::RingRangeInner, Source::RingRange { min, max, .. }) => Source::RingRange {
                source: Box::new(child),
                min,
                max,
            },
            (SourceBranch::BlinkA, Source::Blink { b, interval_ms, .. }) => Source::Blink {
                a: Box::new(child),
                b,
                interval_ms,
            },
            (SourceBranch::BlinkB, Source::Blink { a, interval_ms, .. }) => Source::Blink {
                a,
                b: Box::new(child),
                interval_ms,
            },
            _ => child,
        }
    }

    /// The node reached from `node` by following `path`, step by step.
    pub open spec fn spec_node_at(node: Source, path: Seq<SourceBranch>) -> Source
        decreases path.len(),
    {
        if path.len() == 0 {
            node
        } else {
            Self::spec_node_at(Self::spec_walk(node, path[0]), path.drop_first())
        }
    }

    /// `node` with the node reached by `path` replaced by `new_source`.
    pub open spec fn spec_replace_at(node: Source, path: Seq<SourceBranch>, new_source: Source) -> Source
        decreases path.len(),
    {
        if path.len() == 0 {
            new_source
        } else {
            Self::spec_set_walk(
                node,
                path[0],
                Self::spec_replace_at(Self::spec_walk(node, path[0]), path.drop_first(), new_source),
            )
        }
    }

    /// `node` with the condition of the `If` reached by `path` replaced by
    /// `comparison`; unchanged when that node is not an `If`.
    pub open spec fn spec_replace_condition_at(
        node: Source,
        path: Seq<SourceBranch>,
        comparison: Comparison,
    ) -> Source {
        match Self::spec_node_at(node, path) {
            Source::If { then_source, else_source, .. } => Self::spec_replace_at(
                node,
                path,
                Source::If { condition: comparison, then_source, else_source },
            ),
            _ => node,
        }
    }

    /// Navigate to the node that `path` leads to, for mutation.
    fn node_at_mut<'a>(&'a mut self, path: &[SourceBranch]) -> (node: &'a mut Source)
        ensures
            *node == Self::spec_node_at(*old(self), path@),
            *final(self) == Self::spec_replace_at(*old(self), path@, *final(node)),
    {
        proof {
            assert(path@.subrange(0, path@.len() as int) =~= path@);
        }
        Self::descend(self, path, 0)
    }

    /// The node `path[from..]` leads to from `node`.
    fn descend<'a>(node: &'a mut Source, path: &[SourceBranch], from: usize) -> (r: &'a mut Source)
        requires
            from <= path@.len(),
        ensures
            *r == Self::spec_node_at(*old(node), path@.subrange(from as int, path@.len() as int)),
            *final(node) == Self::spec_replace_at(
                *old(node),
                path@.subrange(from as int, path@.len() as int),
                *final(r),
            ),
        decreases path@.len() - from,
    {
        if from == path.len() {
            node
        } else {
            let ghost rest = path@.subrange(from as int, path@.len() as int);
            proof {
                assert(rest[0] == path@[from as int]);
                assert(rest.drop_first() =~= path@.subrange(from + 1, path@.len() as int));
            }
            let child = Self::walk(node, path[from]);
            Self::descend(child, path, from + 1)
        }
    }

    /// Replace the node that `path` leads to by `new_source`.
    pub fn replace_at(&mut self, path: &[SourceBranch], new_source: Source)
        ensures
            *final(self) == Self::spec_replace_at(*old(self), path@, new_source),
    {
        let node = self.node_at_mut(path);
        *node = new_source;
    }

    /// Navigate to the `If` source at `path` and replace its condition.
    /// The path leads to the `If` node itself (e.g. `[]` for the root,
    /// `[IfElse]` for an `If` nested in `else_source`).
    pub fn replace_condition_at(&mut self, path: &[SourceBranch], comparison: Comparison)
        ensures
            *final(self) == Self::spec_replace_condition_at(*old(self), path@, comparison),
    {
        proof {
            Self::lemma_replace_with_same(*self, path@);
        }
        let node = self.node_at_mut(path);
        if let Source::If { condition, .. } = node {
            *condition = comparison;
        }
    }

    /// Putting back the node found at `path` leaves the tree unchanged.
    pub proof fn lemma_replace_with_same(node: Source, path: Seq<SourceBranch>)
        ensures
            Self::spec_replace_at(node, path, Self::spec_node_at(node, path)) == node,
        decreases path.len(),
    {
        if path.len() > 0 {
            Self::lemma_replace_with_same(Self::spec_walk(node, path[0]), path.drop_first());
        }
    }

    /// Whether `node` has a child in the direction of `branch`.
    pub open spec fn has_branch(node: Source, branch: SourceBranch) -> bool {
        match (branch, node) {
            (SourceBranch::IfThen, Source::If { .. }) => true,
            (SourceBranch::IfElse, Source::If { .. }) => true,
            (SourceBranch::RingRangeInner, Source::RingRange { .. }) => true,
            (SourceBranch::BlinkA, Source::Blink { .. }) => true,
            (SourceBranch::BlinkB, Source::Blink { .. }) => true,
            _ => false,
        }
    }

    /// Whether every step of `path` leads into a child, starting from `node`.
    pub open spec fn path_follows(node: Source, path: Seq<SourceBranch>) -> bool
        decreases path.len(),
    {
        path.len() == 0 || (Self::has_branch(node, path[0]) && Self::path_follows(
            Self::spec_walk(node, path[0]),
            path.drop_first(),
        ))
    }

    /// Reading a path right after replacing the node there gives back the
    /// replacement, for a path that follows the tree.
    pub proof fn lemma_node_at_replace_at(node: Source, path: Seq<SourceBranch>, new_source: Source)
        requires
            Self::path_follows(node, path),
        ensures
            Self::spec_node_at(Self::spec_replace_at(node, path, new_source), path) == new_source,
        decreases path.len(),
    {
        if path.len() > 0 {
            Self::lemma_node_at_replace_at(Self::spec_walk(node, path[0]), path.drop_first(), new_source);
        }
    }

    /// Of two replacements at the same path, the later one wins, for a path
    /// that follows the tree.
    pub proof fn lemma_replace_at_twice(node: Source, path: Seq<SourceBranch>, first: Source, second: Source)
        requires
            Self::path_follows(node, path),
        ensures
            Self::spec_replace_at(Self::spec_replace_at(node, path, first), path, second)
                == Self::spec_replace_at(node, path, second),
        decreases path.len(),
    {
        if path.len() > 0 {
            Self::lemma_replace_at_twice(Self::spec_walk(node, path[0]), path.drop_first(), first, second);
        }
    }

    /// Stepping back down the branch just set gives the child that was set;
    /// stepping down another branch the node has gives what was there.
    proof fn lemma_walk_set_walk(node: Source, b: SourceBranch, c: Source, other: SourceBranch)
        requires
            Self::has_branch(node, b),
        ensures
            Self::spec_walk(Self::spec_set_walk(node, b, c), b) == c,
            Self::has_branch(Self::spec_set_walk(node, b, c), b),
            other != b && Self::has_branch(node, other) ==> Self::spec_walk(Self::spec_set_walk(node, b, c), other)
                == Self::spec_walk(node, other),
    {
    }

    /// Replacing the node at a path that follows the tree changes nothing
    /// else: every node above it keeps its variant and its other fields (only
    /// its child toward the path is new), and every node reached by a path
    /// that follows the tree and leaves `path` before its end reads as before.
    pub proof fn lemma_replace_at_changes_only_path(node: Source, path: Seq<SourceBranch>, new_source: Source)
        requires
            Self::path_follows(node, path),
        ensures
            forall|k: int|
                #![trigger path.take(k)]
                0 <= k < path.len() ==> {
                    let before = Self::spec_node_at(node, path.take(k));
                    let after = Self::spec_node_at(Self::spec_replace_at(node, path, new_source), path.take(k));
                    after == Self::spec_set_walk(before, path[k], Self::spec_walk(after, path[k]))
                },
            forall|q: Seq<SourceBranch>, k: int|
                #![trigger q.take(k), path.take(k)]
                0 <= k < path.len() && k < q.len() && q.take(k) == path.take(k) && q[k] != path[k]
                    && Self::path_follows(node, q) ==> Self::spec_node_at(
                    Self::spec_replace_at(node, path, new_source),
                    q,
                ) == Self::spec_node_at(node, q),
        decreases path.len(),
    {
        if path.len() > 0 {
            let b = path[0];
            let child = Self::spec_walk(node, b);
            let rest = path.drop_first();
            let rc = Self::spec_replace_at(child, rest, new_source);
            let r = Self::spec_replace_at(node, path, new_source);
            assert(r == Self::spec_set_walk(node, b, rc));
            Self::lemma_walk_set_walk(node, b, rc, b);
            Self::lemma_replace_at_changes_only_path(child, rest, new_source);
            assert forall|k: int|
                #![trigger path.take(k)]
                0 <= k < path.len() implies {
                    let before = Self::spec_node_at(node, path.take(k));
                    let after = Self::spec_node_at(r, path.take(k));
                    after == Self::spec_set_walk(before, path[k], Self::spec_walk(after, path[k]))
                } by {
                if k == 0 {
                    assert(path.take(0) =~= Seq::<SourceBranch>::empty());
                } else {
                    assert(path.take(k)[0] == b);
                    assert(path.take(k).drop_first() =~= rest.take(k - 1));
                    assert(rest[k - 1] == path[k]);
                }
            }
            assert forall|q: Seq<SourceBranch>, k: int|
                #![trigger q.take(k), path.take(k)]
                0 <= k < path.len() && k < q.len() && q.take(k) == path.take(k) && q[k] != path[k]
                    && Self::path_follows(node, q) implies Self::spec_node_at(r, q) == Self::spec_node_at(node, q) by {
                if k == 0 {
                    Self::lemma_walk_set_walk(node, b, rc, q[0]);
                } else {
                    assert(q[0] == q.take(k)[0]);
                    assert(path[0] == path.take(k)[0]);
                    let q1 = q.drop_first();
                    assert(q1.take(k - 1) =~= q.take(k).drop_first());
                    assert(rest.take(k - 1) =~= path.take(k).drop_first());
                    assert(q1[k - 1] == q[k]);
                    assert(rest[k - 1] == path[k]);
                    assert(q1.take(k - 1) == rest.take(k - 1));
                }
            }
        }
    }

    fn walk(node: &mut Source, branch: SourceBranch) -> (child: &mut Source)
        ensures
            *child == Self::spec_walk(*old(node), branch),
            *final(node) == Self::spec_set_walk(*old(node), branch, *final(child)),
    {
        match branch {
            SourceBranch::IfThen | SourceBranch::IfElse => {
                let Source::If { then_source, else_source, .. } = node else {
                    return node;
                };
                match branch {
                    SourceBranch::IfThen => then_source,
                    _ => else_source,
                }
            },
            SourceBranch::RingRangeInner => {
                let Source::RingRange { source, .. } = node else {
                    return node;
                };
                source
            },
            SourceBranch::BlinkA => {
                let Source::Blink { a, .. } = node else {
                    return node;
                };
                a
            },
            SourceBranch::BlinkB => {
                let Source::Blink { b, .. } = node else {
                    return node;
                };
                b
            },
        }
    }
}

} // verus!
