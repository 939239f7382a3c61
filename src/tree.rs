use vstd::prelude::*;

use crate::error::CircuitError;
use crate::number::{Cplx, Ratio};

verus! {

/// Largest number of children a series or parallel node may hold: a path
/// step is one byte, so no further child could be addressed.
pub const MAX_CHILDREN: usize = 256;

/// A two-terminal leaf element.
#[derive(Clone, Copy, Debug, PartialEq, Eq, Structural)]
pub enum Dipole {
    /// A resistance, in ohms.
    Resistor(Ratio),
    /// A capacitance, in farads.
    Capacitor(Ratio),
    /// An inductance, in henries.
    Inductor(Ratio),
    /// A precomputed impedance, used as it stands.
    Equivalent(Cplx),
    /// An unusable leaf; it has no impedance.
    Poisoned,
}

/// A node of the component tree.
#[derive(Debug)]
pub enum Component {
    Simple(Dipole),
    Series(Vec<Component>),
    Parallel(Vec<Component>),
}

/// The mathematical shape of a component tree.
pub enum Node {
    Leaf(Dipole),
    Series(Seq<Node>),
    Parallel(Seq<Node>),
}

impl Dipole {
    pub open spec fn wf(self) -> bool {
        match self {
            Dipole::Resistor(v) => v.wf(),
            Dipole::Capacitor(v) => v.wf(),
            Dipole::Inductor(v) => v.wf(),
            Dipole::Equivalent(z) => z.wf(),
            Dipole::Poisoned => true,
        }
    }

    /// Same kind of dipole.
    pub open spec fn same_tag(self, other: Dipole) -> bool {
        match self {
            Dipole::Resistor(_) => other is Resistor,
            Dipole::Capacitor(_) => other is Capacitor,
            Dipole::Inductor(_) => other is Inductor,
            Dipole::Equivalent(_) => other is Equivalent,
            Dipole::Poisoned => other is Poisoned,
        }
    }

    /// Whether the dipole carries a numeric parameter that may be changed.
    pub open spec fn has_parameter(self) -> bool {
        self is Resistor || self is Capacitor || self is Inductor
    }

    /// The same kind of dipole, carrying `value` as its parameter.
    pub open spec fn with_parameter(self, value: Ratio) -> Dipole {
        match self {
            Dipole::Resistor(_) => Dipole::Resistor(value),
            Dipole::Capacitor(_) => Dipole::Capacitor(value),
            Dipole::Inductor(_) => Dipole::Inductor(value),
            _ => self,
        }
    }

    /// Replaces the numeric parameter of a resistor, capacitor or inductor.
    pub fn set_parameter(&mut self, value: Ratio) -> (r: Result<(), CircuitError>)
        ensures
            old(self).has_parameter() ==> r == Ok::<(), CircuitError>(()) && *final(self)
                == old(self).with_parameter(value),
            !old(self).has_parameter() ==> r == Err::<(), CircuitError>(
                CircuitError::TypeMismatch,
            ) && *final(self) == *old(self),
    {
        match self {
            Dipole::Resistor(v) => {
                *v = value;
                Ok(())
            },
            Dipole::Capacitor(v) => {
                *v = value;
                Ok(())
            },
            Dipole::Inductor(v) => {
                *v = value;
                Ok(())
            },
            _ => Err(CircuitError::TypeMismatch),
        }
    }
}

impl Node {
    /// Series when `serial`, parallel otherwise.
    pub open spec fn is_kind(self, serial: bool) -> bool {
        if serial {
            self is Series
        } else {
            self is Parallel
        }
    }

    pub open spec fn children(self) -> Seq<Node> {
        match self {
            Node::Leaf(_) => Seq::empty(),
            Node::Series(s) => s,
            Node::Parallel(s) => s,
        }
    }

    pub open spec fn composite(serial: bool, s: Seq<Node>) -> Node {
        if serial {
            Node::Series(s)
        } else {
            Node::Parallel(s)
        }
    }

    /// Number of leaves in the tree.
    pub open spec fn leaf_count(self) -> nat
        decreases self,
    {
        match self {
            Node::Leaf(_) => 1,
            Node::Series(s) => leaves_in(s),
            Node::Parallel(s) => leaves_in(s),
        }
    }

    /// Well formed: every leaf is well formed; every composite node has one to
    /// `MAX_CHILDREN` children, none of them of its own kind.
    pub open spec fn wf(self) -> bool
        decreases self,
    {
        match self {
            Node::Leaf(d) => d.wf(),
            Node::Series(s) => {
                &&& 0 < s.len() <= MAX_CHILDREN
                &&& forall|i: int| 0 <= i < s.len() ==> !((#[trigger] s[i]) is Series) && s[i].wf()
            },
            Node::Parallel(s) => {
                &&& 0 < s.len() <= MAX_CHILDREN
                &&& forall|i: int| 0 <= i < s.len() ==> !((#[trigger] s[i]) is Parallel) && s[i].wf()
            },
        }
    }

    /// The node that `path` leads to, one child index per step.
    pub open spec fn node_at(self, path: Seq<u8>) -> Option<Node>
        decreases path.len(),
    {
        if path.len() == 0 {
            Some(self)
        } else if self is Leaf || path[0] >= self.children().len() {
            None
        } else {
            self.children()[path[0] as int].node_at(path.drop_first())
        }
    }

    /// The tree with the node at `path` replaced by `sub`.
    pub open spec fn replace_at(self, path: Seq<u8>, sub: Node) -> Node
        decreases path.len(),
    {
        if path.len() == 0 {
            sub
        } else if self is Leaf || path[0] >= self.children().len() {
            self
        } else {
            let s = self.children();
            let i = path[0] as int;
            Node::composite(self is Series, s.update(i, s[i].replace_at(path.drop_first(), sub)))
        }
    }

    /// `leaf` added in series (`serial`) or in parallel with this node: appended
    /// to its children when the node is of that kind, else the node becomes
    /// the first of two children of a new node of that kind.
    pub open spec fn pushed(self, serial: bool, leaf: Node) -> Node {
        if self.is_kind(serial) {
            Node::composite(serial, self.children().push(leaf))
        } else {
            Node::composite(serial, seq![self, leaf])
        }
    }

    /// Whether this node may stand as a child of `parent`: a series never
    /// directly holds a series, nor a parallel node a parallel one.
    pub open spec fn nests_in(self, parent: Node) -> bool {
        !(self is Series && parent is Series) && !(self is Parallel && parent is Parallel)
    }

    /// Same tree shape and same kind of leaf everywhere; parameters may differ.
    pub open spec fn same_shape(self, other: Node) -> bool
        decreases self,
    {
        let t = other.children();
        match self {
            Node::Leaf(a) => other matches Node::Leaf(b) && a.same_tag(b),
            Node::Series(s) => {
                &&& other is Series
                &&& s.len() == t.len()
                &&& forall|i: int| 0 <= i < s.len() ==> (#[trigger] s[i]).same_shape(t[i])
            },
            Node::Parallel(s) => {
                &&& other is Parallel
                &&& s.len() == t.len()
                &&& forall|i: int| 0 <= i < s.len() ==> (#[trigger] s[i]).same_shape(t[i])
            },
        }
    }

    /// Whether pushing onto this node would exceed `MAX_CHILDREN`.
    pub open spec fn push_is_full(self, serial: bool) -> bool {
        self.is_kind(serial) && self.children().len() >= MAX_CHILDREN
    }
}

/// Number of leaves in a sequence of trees.
pub open spec fn leaves_in(s: Seq<Node>) -> nat
    decreases s,
{
    if s.len() == 0 {
        0
    } else {
        leaves_in(s.subrange(0, s.len() - 1)) + s[s.len() - 1].leaf_count()
    }
}

impl Component {
    pub open spec fn view(self) -> Node
        decreases self,
    {
        match self {
            Component::Simple(d) => Node::Leaf(d),
            Component::Series(v) => Node::Series(
                Seq::new(v@.len(), |i: int| if 0 <= i < v@.len() { v@[i].view() } else { Node::Leaf(Dipole::Poisoned) }),
            ),
            Component::Parallel(v) => Node::Parallel(
                Seq::new(v@.len(), |i: int| if 0 <= i < v@.len() { v@[i].view() } else { Node::Leaf(Dipole::Poisoned) }),
            ),
        }
    }

    /// The node that `path` leads to, from its `depth`-th step up to its `end`-th.
    pub(crate) fn get_range(&self, path: &[u8], depth: usize, end: usize) -> (r: Option<&Component>)
        requires
            depth <= end <= path@.len(),
        ensures
            r is None <==> self@.node_at(path@.subrange(depth as int, end as int)) is None,
            r matches Some(c) ==> self@.node_at(path@.subrange(depth as int, end as int))
                == Some(c@),
        decreases end - depth,
    {
        let ghost rest = path@.subrange(depth as int, end as int);
        if depth == end {
            return Some(self);
        }
        assert(rest.drop_first() =~= path@.subrange(depth + 1, end as int));
        let i = path[depth] as usize;
        match self {
            Component::Simple(_) => None,
            Component::Series(v) => {
                if i < v.len() {
                    v[i].get_range(path, depth + 1, end)
                } else {
                    None
                }
            },
            Component::Parallel(v) => {
                if i < v.len() {
                    v[i].get_range(path, depth + 1, end)
                } else {
                    None
                }
            },
        }
    }

    /// The node that `path` leads to, if any; the empty path leads to `self`.
    pub fn get(&self, path: &[u8]) -> (r: Option<&Component>)
        ensures
            r is None <==> self@.node_at(path@) is None,
            r matches Some(c) ==> self@.node_at(path@) == Some(c@),
    {
        assert(path@.subrange(0, path@.len() as int) =~= path@);
        self.get_range(path, 0, path.len())
    }

    /// Adds `leaf` in series (`serial`) or in parallel with this node.
    fn push(&mut self, serial: bool, leaf: Component)
        ensures
            final(self)@ == old(self)@.pushed(serial, leaf@),
    {
        if serial {
            if let Component::Series(v) = self {
                v.push(leaf);
                assert(final(self)@.children() =~= old(self)@.children().push(leaf@));
                return ;
            }
        } else {
            if let Component::Parallel(v) = self {
                v.push(leaf);
                assert(final(self)@.children() =~= old(self)@.children().push(leaf@));
                return ;
            }
        }
        let mut previous = Component::Simple(Dipole::Poisoned);
        std::mem::swap(self, &mut previous);
        let pair = vec![previous, leaf];
        if serial {
            *self = Component::Series(pair);
        } else {
            *self = Component::Parallel(pair);
        }
        assert(self@.children() =~= seq![old(self)@, leaf@]);
    }

    /// Applies `push(serial, leaf)` to the node that `path` leads to from its
    /// `depth`-th step up to its `end`-th.
    pub(crate) fn push_at(&mut self, path: &[u8], depth: usize, end: usize, serial: bool, leaf: Component)
        requires
            depth <= end <= path@.len(),
            old(self)@.node_at(path@.subrange(depth as int, end as int)) is Some,
        ensures
            ({
                let rest = path@.subrange(depth as int, end as int);
                final(self)@ == old(self)@.replace_at(
                    rest,
                    old(self)@.node_at(rest)->0.pushed(serial, leaf@),
                )
            }),
        decreases end - depth,
    {
        let ghost rest = path@.subrange(depth as int, end as int);
        if depth == end {
            self.push(serial, leaf);
            return ;
        }
        assert(rest.drop_first() =~= path@.subrange(depth + 1, end as int));
        let i = path[depth] as usize;
        match self {
            Component::Simple(_) => {},
            Component::Series(v) => {
                v[i].push_at(path, depth + 1, end, serial, leaf);
                assert(final(self)@.children() =~= old(self)@.children().update(
                    i as int,
                    final(v)@[i as int]@,
                ));
            },
            Component::Parallel(v) => {
                v[i].push_at(path, depth + 1, end, serial, leaf);
                assert(final(self)@.children() =~= old(self)@.children().update(
                    i as int,
                    final(v)@[i as int]@,
                ));
            },
        }
    }

    /// Sets the parameter of the dipole that `path` leads to from its
    /// `depth`-th step up to its `end`-th.
    pub(crate) fn set_at(&mut self, path: &[u8], depth: usize, end: usize, value: Ratio)
        requires
            depth <= end <= path@.len(),
            old(self)@.node_at(path@.subrange(depth as int, end as int)) matches Some(
                Node::Leaf(d),
            ) && d.has_parameter(),
        ensures
            ({
                let rest = path@.subrange(depth as int, end as int);
                final(self)@ == old(self)@.replace_at(
                    rest,
                    Node::Leaf(old(self)@.node_at(rest)->0->Leaf_0.with_parameter(value)),
                )
            }),
        decreases end - depth,
    {
        let ghost rest = path@.subrange(depth as int, end as int);
        if depth == end {
            if let Component::Simple(d) = self {
                let _ = d.set_parameter(value);
            }
            return ;
        }
        assert(rest.drop_first() =~= path@.subrange(depth + 1, end as int));
        let i = path[depth] as usize;
        match self {
            Component::Simple(_) => {},
            Component::Series(v) => {
                v[i].set_at(path, depth + 1, end, value);
                assert(final(self)@.children() =~= old(self)@.children().update(
                    i as int,
                    final(v)@[i as int]@,
                ));
            },
            Component::Parallel(v) => {
                v[i].set_at(path, depth + 1, end, value);
                assert(final(self)@.children() =~= old(self)@.children().update(
                    i as int,
                    final(v)@[i as int]@,
                ));
            },
        }
    }

    /// Adds `leaf` in series with this node: appended when the node is a
    /// series, else the node becomes the first of two children of a new series.
    /// Fails, changing nothing, when a series is already full.
    pub fn push_serie(&mut self, leaf: Component) -> (r: Result<(), CircuitError>)
        ensures
            old(self)@.push_is_full(true) ==> r == Err::<(), CircuitError>(
                CircuitError::InvalidTopology,
            ) && *final(self) == *old(self),
            !old(self)@.push_is_full(true) ==> r is Ok && final(self)@ == old(self)@.pushed(
                true,
                leaf@,
            ),
    {
        if let Component::Series(v) = self {
            if v.len() >= MAX_CHILDREN {
                return Err(CircuitError::InvalidTopology);
            }
        }
        self.push(true, leaf);
        Ok(())
    }

    /// Adds `leaf` in parallel with this node, as `push_serie` does in series.
    pub fn push_parallel(&mut self, leaf: Component) -> (r: Result<(), CircuitError>)
        ensures
            old(self)@.push_is_full(false) ==> r == Err::<(), CircuitError>(
                CircuitError::InvalidTopology,
            ) && *final(self) == *old(self),
            !old(self)@.push_is_full(false) ==> r is Ok && final(self)@ == old(self)@.pushed(
                false,
                leaf@,
            ),
    {
        if let Component::Parallel(v) = self {
            if v.len() >= MAX_CHILDREN {
                return Err(CircuitError::InvalidTopology);
            }
        }
        self.push(false, leaf);
        Ok(())
    }
}

proof fn lemma_leaves_push(s: Seq<Node>, x: Node)
    ensures
        leaves_in(s.push(x)) == leaves_in(s) + x.leaf_count(),
{
    assert(s.push(x).subrange(0, s.len() as int) =~= s);
}

proof fn lemma_leaves_update(s: Seq<Node>, i: int, x: Node)
    requires
        0 <= i < s.len(),
    ensures
        leaves_in(s.update(i, x)) == leaves_in(s) - s[i].leaf_count() + x.leaf_count(),
    decreases s.len(),
{
    let t = s.update(i, x);
    let n = s.len() - 1;
    if i == n {
        assert(t.subrange(0, n) =~= s.subrange(0, n));
    } else {
        assert(t.subrange(0, n) =~= s.subrange(0, n).update(i, x));
        lemma_leaves_update(s.subrange(0, n), i, x);
    }
}

/// Replacing the node at `path` changes the leaf count by the difference
/// between the two nodes' leaf counts.
pub proof fn lemma_replace_leaf_count(n: Node, path: Seq<u8>, sub: Node)
    requires
        n.node_at(path) is Some,
    ensures
        n.replace_at(path, sub).leaf_count() == n.leaf_count() - n.node_at(path)->0.leaf_count()
            + sub.leaf_count(),
    decreases path.len(),
{
    if path.len() > 0 {
        let s = n.children();
        let i = path[0] as int;
        lemma_replace_leaf_count(s[i], path.drop_first(), sub);
        lemma_leaves_update(s, i, s[i].replace_at(path.drop_first(), sub));
    }
}

/// Pushing a leaf adds exactly one leaf.
pub proof fn lemma_pushed_leaf_count(n: Node, serial: bool, leaf: Node)
    requires
        leaf is Leaf,
    ensures
        n.pushed(serial, leaf).leaf_count() == n.leaf_count() + 1,
{
    if n.is_kind(serial) {
        lemma_leaves_push(n.children(), leaf);
    } else {
        lemma_leaves_push(seq![n], leaf);
        lemma_leaves_push(Seq::empty(), n);
        assert(seq![n, leaf] =~= seq![n].push(leaf));
        assert(seq![n] =~= Seq::<Node>::empty().push(n));
    }
}

/// Replacing a node by a well-formed one that may stand under its parent
/// keeps the tree well formed.
pub proof fn lemma_replace_keeps_wf(n: Node, path: Seq<u8>, sub: Node)
    requires
        n.wf(),
        sub.wf(),
        n.node_at(path) is Some,
        path.len() > 0 ==> sub.nests_in(n.node_at(path.drop_last())->0),
    ensures
        n.replace_at(path, sub).wf(),
    decreases path.len(),
{
    if path.len() > 0 {
        let s = n.children();
        let i = path[0] as int;
        let rest = path.drop_first();
        match n {
            Node::Series(c) => assert(c[i].wf()),
            Node::Parallel(c) => assert(c[i].wf()),
            Node::Leaf(_) => {},
        }
        if rest.len() > 0 {
            assert(path.drop_last().drop_first() =~= rest.drop_last());
            lemma_replace_keeps_wf(s[i], rest, sub);
        } else {
            assert(path.drop_last() =~= Seq::<u8>::empty());
        }
        let t = s.update(i, s[i].replace_at(rest, sub));
        assert forall|j: int| 0 <= j < t.len() implies #[trigger] t[j].wf() && t[j].nests_in(n) by {
            if j != i {
                assert(t[j] == s[j]);
            }
        }
    }
}

proof fn lemma_same_shape_refl(n: Node)
    ensures
        n.same_shape(n),
    decreases n,
{
    match n {
        Node::Leaf(_) => {},
        Node::Series(s) => {
            assert forall|i: int| 0 <= i < s.len() implies (#[trigger] s[i]).same_shape(s[i]) by {
                lemma_same_shape_refl(s[i]);
            }
        },
        Node::Parallel(s) => {
            assert forall|i: int| 0 <= i < s.len() implies (#[trigger] s[i]).same_shape(s[i]) by {
                lemma_same_shape_refl(s[i]);
            }
        },
    }
}

/// Replacing a node by one of the same shape keeps the shape of the tree.
pub proof fn lemma_replace_same_shape(n: Node, path: Seq<u8>, sub: Node)
    requires
        n.node_at(path) matches Some(old) && sub.same_shape(old),
    ensures
        n.replace_at(path, sub).same_shape(n),
    decreases path.len(),
{
    if path.len() > 0 {
        let s = n.children();
        let i = path[0] as int;
        let rest = path.drop_first();
        lemma_replace_same_shape(s[i], rest, sub);
        let t = s.update(i, s[i].replace_at(rest, sub));
        assert forall|j: int| 0 <= j < t.len() implies (#[trigger] t[j]).same_shape(s[j]) by {
            if j != i {
                lemma_same_shape_refl(s[j]);
            }
        }
    }
}

/// In a well-formed tree every node is well formed and may stand under its
/// parent.
pub proof fn lemma_node_at_wf(n: Node, path: Seq<u8>)
    requires
        n.wf(),
        n.node_at(path) is Some,
    ensures
        n.node_at(path)->0.wf(),
        path.len() > 0 ==> n.node_at(path.drop_last()) is Some,
        path.len() > 0 ==> n.node_at(path)->0.nests_in(n.node_at(path.drop_last())->0),
    decreases path.len(),
{
    if path.len() > 0 {
        let s = n.children();
        let i = path[0] as int;
        let rest = path.drop_first();
        match n {
            Node::Series(c) => assert(c[i].wf()),
            Node::Parallel(c) => assert(c[i].wf()),
            Node::Leaf(_) => {},
        }
        lemma_node_at_wf(s[i], rest);
        if rest.len() > 0 {
            assert(path.drop_last().drop_first() =~= rest.drop_last());
        } else {
            assert(path.drop_last() =~= Seq::<u8>::empty());
        }
    }
}

} // verus!
