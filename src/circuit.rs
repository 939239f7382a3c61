use vstd::prelude::*;
use vstd::string::StringSliceAdditionalSpecFns;

use crate::error::CircuitError;
use crate::impedance::Impedance;
use crate::response::Response;
use crate::generator::{Generator, Pulse};
use crate::number::{Cplx, Ratio};
use crate::tree::{
    lemma_node_at_wf, lemma_pushed_leaf_count, lemma_replace_keeps_wf, lemma_replace_leaf_count,
    lemma_replace_same_shape, Component, Dipole, Node, MAX_CHILDREN,
};

verus! {

/// The kinds of element that can be added to a circuit.
#[derive(Clone, Copy, Debug, PartialEq, Eq, Structural)]
pub enum ComponentKind {
    Resistor,
    Capacitor,
    Inductor,
}

/// The ASCII bytes of `"resistor"`.
pub open spec fn resistor_name() -> Seq<u8> {
    seq![114u8, 101, 115, 105, 115, 116, 111, 114]
}

/// The ASCII bytes of `"capacitor"`.
pub open spec fn capacitor_name() -> Seq<u8> {
    seq![99u8, 97, 112, 97, 99, 105, 116, 111, 114]
}

/// The ASCII bytes of `"inductor"`.
pub open spec fn inductor_name() -> Seq<u8> {
    seq![105u8, 110, 100, 117, 99, 116, 111, 114]
}

fn bytes_equal(a: &[u8], b: &[u8]) -> (r: bool)
    ensures
        r == (a@ == b@),
{
    if a.len() != b.len() {
        return false;
    }
    let mut k: usize = 0;
    while k < a.len()
        invariant
            a@.len() == b@.len(),
            0 <= k <= a@.len(),
            forall|j: int| 0 <= j < k ==> a@[j] == b@[j],
        decreases a@.len() - k,
    {
        if a[k] != b[k] {
            return false;
        }
        k = k + 1;
    }
    assert(a@ =~= b@);
    true
}

impl ComponentKind {
    /// The kind named by `name` (`resistor`, `capacitor` or `inductor`).
    pub open spec fn named(name: Seq<u8>) -> Option<ComponentKind> {
        if name == resistor_name() {
            Some(ComponentKind::Resistor)
        } else if name == capacitor_name() {
            Some(ComponentKind::Capacitor)
        } else if name == inductor_name() {
            Some(ComponentKind::Inductor)
        } else {
            None
        }
    }

    /// Reads a kind from its lower-case name.
    pub fn from_name(name: &str) -> (r: Option<ComponentKind>)
        ensures
            r == ComponentKind::named(name.spec_bytes()),
    {
        let b = name.as_bytes();
        let resistor: [u8; 8] = [114, 101, 115, 105, 115, 116, 111, 114];
        let capacitor: [u8; 9] = [99, 97, 112, 97, 99, 105, 116, 111, 114];
        let inductor: [u8; 8] = [105, 110, 100, 117, 99, 116, 111, 114];
        assert(resistor@ =~= resistor_name());
        assert(capacitor@ =~= capacitor_name());
        assert(inductor@ =~= inductor_name());
        if bytes_equal(b, resistor.as_slice()) {
            Some(ComponentKind::Resistor)
        } else if bytes_equal(b, capacitor.as_slice()) {
            Some(ComponentKind::Capacitor)
        } else if bytes_equal(b, inductor.as_slice()) {
            Some(ComponentKind::Inductor)
        } else {
            None
        }
    }

    /// The dipole of this kind with parameter `value`.
    pub open spec fn dipole(self, value: Ratio) -> Dipole {
        match self {
            ComponentKind::Resistor => Dipole::Resistor(value),
            ComponentKind::Capacitor => Dipole::Capacitor(value),
            ComponentKind::Inductor => Dipole::Inductor(value),
        }
    }

    /// A new leaf of this kind with parameter `value`.
    pub fn leaf(self, value: Ratio) -> (r: Component)
        ensures
            r@ == Node::Leaf(self.dipole(value)),
    {
        match self {
            ComponentKind::Resistor => Component::Simple(Dipole::Resistor(value)),
            ComponentKind::Capacitor => Component::Simple(Dipole::Capacitor(value)),
            ComponentKind::Inductor => Component::Simple(Dipole::Inductor(value)),
        }
    }
}

impl Node {
    /// Where a push addressed at `path` lands: on the parent when the parent
    /// already is of the pushed kind, else on the addressed node itself.
    pub open spec fn push_target(self, path: Seq<u8>, serial: bool) -> Seq<u8> {
        if path.len() > 0 && (self.node_at(path.drop_last()) matches Some(p) && p.is_kind(serial)) {
            path.drop_last()
        } else {
            path
        }
    }

    /// The tree after adding `leaf` in series (`serial`) or in parallel at
    /// `path`, or the reason it cannot be done.
    pub open spec fn with_push(self, path: Seq<u8>, serial: bool, leaf: Node) -> Result<
        Node,
        CircuitError,
    > {
        if self.node_at(path) is None {
            Err(CircuitError::NotFound)
        } else {
            let t = self.push_target(path, serial);
            let n = self.node_at(t)->0;
            if n.push_is_full(serial) {
                Err(CircuitError::InvalidTopology)
            } else {
                Ok(self.replace_at(t, n.pushed(serial, leaf)))
            }
        }
    }

    /// The tree after setting the parameter of the dipole at `path` to
    /// `value`, or the reason it cannot be done.
    pub open spec fn with_parameter_at(self, path: Seq<u8>, value: Ratio) -> Result<
        Node,
        CircuitError,
    > {
        match self.node_at(path) {
            None => Err(CircuitError::NotFound),
            Some(Node::Leaf(Dipole::Poisoned)) => Err(CircuitError::InvalidTopology),
            Some(Node::Leaf(d)) => if d.has_parameter() {
                Ok(self.replace_at(path, Node::Leaf(d.with_parameter(value))))
            } else {
                Err(CircuitError::TypeMismatch)
            },
            Some(_) => Err(CircuitError::TypeMismatch),
        }
    }
}

/// The tree of a new circuit: a series holding one 500 ohm resistor.
pub open spec fn default_content() -> Node {
    Node::Series(seq![Node::Leaf(Dipole::Resistor(Ratio { num: 500, den: 1 }))])
}

/// The source of a new circuit: 1 MHz, unit amplitude, zero phase.
pub open spec fn default_pulse() -> Pulse {
    Pulse {
        frequency: Ratio { num: 1_000_000, den: 1 },
        voltage: Cplx { re: Ratio { num: 1, den: 1 }, im: Ratio { num: 0, den: 1 } },
    }
}

/// A component tree together with the sources that drive it.
#[derive(Debug)]
pub struct Circuit {
    pub content: Component,
    pub generator: Generator,
}

impl Circuit {
    /// Well formed: the tree is (see `Node::wf`), and so is every number of
    /// the generator.
    pub open spec fn wf(&self) -> bool {
        &&& self.content@.wf()
        &&& forall|k: int|
            0 <= k < self.generator@.len() ==> (#[trigger] self.generator@[k]).frequency.wf()
                && self.generator@[k].voltage.wf()
    }

    /// The default circuit.
    pub fn new() -> (r: Circuit)
        ensures
            r.wf(),
            r.content@ == default_content(),
            r.generator@ == seq![default_pulse()],
    {
        let mut children: Vec<Component> = Vec::new();
        children.push(Component::Simple(Dipole::Resistor(Ratio { num: 500, den: 1 })));
        assert(children@[0]@ == Node::Leaf(Dipole::Resistor(Ratio { num: 500, den: 1 })));
        let content = Component::Series(children);
        let mut generator = Generator::new();
        generator.append(
            Ratio { num: 1_000_000, den: 1 },
            Cplx { re: Ratio { num: 1, den: 1 }, im: Ratio { num: 0, den: 1 } },
        );
        assert(content@.children() =~= default_content().children());
        assert(generator@ =~= seq![default_pulse()]);
        assert(default_content().children()[0].wf());
        assert(default_content().wf());
        Circuit { content, generator }
    }

    /// Puts the default circuit back.
    pub fn reset(&mut self)
        ensures
            final(self).wf(),
            final(self).content@ == default_content(),
            final(self).generator@ == seq![default_pulse()],
    {
        *self = Circuit::new();
    }

    pub fn content(&self) -> (r: &Component)
        ensures
            r == &self.content,
    {
        &self.content
    }

    pub fn generator(&self) -> (r: &Generator)
        ensures
            r == &self.generator,
    {
        &self.generator
    }

    /// Adds a source at the end of the generator.
    pub fn add_pulse(&mut self, frequency: Ratio, voltage: Cplx)
        ensures
            final(self).generator@ == old(self).generator@.push(Pulse { frequency, voltage }),
            final(self).content == old(self).content,
            old(self).wf() && frequency.wf() && voltage.wf() ==> final(self).wf(),
    {
        self.generator.append(frequency, voltage);
    }

    /// Replaces the phasor of the source at `index`.
    pub fn set_voltage(&mut self, index: usize, voltage: Cplx) -> (r: Result<(), CircuitError>)
        ensures
            index < old(self).generator@.len() ==> r is Ok && final(self).generator@ == old(
                self,
            ).generator@.update(
                index as int,
                Pulse { frequency: old(self).generator@[index as int].frequency, voltage },
            ),
            index >= old(self).generator@.len() ==> r == Err::<(), CircuitError>(
                CircuitError::IndexOutOfRange,
            ) && final(self).generator@ == old(self).generator@,
            final(self).content == old(self).content,
            old(self).wf() && voltage.wf() ==> final(self).wf(),
    {
        self.generator.set_voltage(index, voltage)
    }

    /// Removes the source at `index`.
    pub fn remove_pulse(&mut self, index: usize) -> (r: Result<(), CircuitError>)
        ensures
            index < old(self).generator@.len() ==> r is Ok && final(self).generator@ == old(
                self,
            ).generator@.remove(index as int),
            index >= old(self).generator@.len() ==> r == Err::<(), CircuitError>(
                CircuitError::IndexOutOfRange,
            ) && final(self).generator@ == old(self).generator@,
            final(self).content == old(self).content,
            old(self).wf() ==> final(self).wf(),
    {
        let r = self.generator.remove(index);
        proof {
            if r is Ok {
                let (a, b) = (old(self).generator@, self.generator@);
                assert forall|k: int| 0 <= k < b.len() implies b[k] == a[if k < index { k } else { k + 1 }] by {}
            }
        }
        match r {
            Ok(_) => Ok(()),
            Err(e) => Err(e),
        }
    }

    fn add_component(&mut self, path: &[u8], serial: bool, leaf: Component) -> (r: Result<
        (),
        CircuitError,
    >)
        ensures
            match old(self).content@.with_push(path@, serial, leaf@) {
                Ok(n) => r is Ok && final(self).content@ == n,
                Err(e) => r == Err::<(), CircuitError>(e) && final(self).content == old(
                    self,
                ).content,
            },
            final(self).generator == old(self).generator,
    {
        if self.content.get(path).is_none() {
            return Err(CircuitError::NotFound);
        }
        let mut end = path.len();
        if path.len() > 0 {
            assert(path@.drop_last() =~= path@.subrange(0, path@.len() - 1));
            if let Some(parent) = self.content.get_range(path, 0, path.len() - 1) {
                let matching = if serial {
                    matches!(parent, Component::Series(_))
                } else {
                    matches!(parent, Component::Parallel(_))
                };
                if matching {
                    end = path.len() - 1;
                }
            }
        }
        assert(path@.subrange(0, path@.len() as int) =~= path@);
        assert(path@.subrange(0, end as int) == self.content@.push_target(path@, serial));
        let target = self.content.get_range(path, 0, end);
        let full = match target {
            Some(Component::Series(v)) => serial && v.len() >= MAX_CHILDREN,
            Some(Component::Parallel(v)) => !serial && v.len() >= MAX_CHILDREN,
            _ => false,
        };
        if full {
            return Err(CircuitError::InvalidTopology);
        }
        self.content.push_at(path, 0, end, serial, leaf);
        Ok(())
    }

    /// Adds a new element of `kind` in series at `path`: appended to the
    /// parent when the parent is a series, else the addressed node becomes a
    /// series of itself and the new element.
    pub fn add_serial_component(&mut self, path: &[u8], kind: ComponentKind, value: Ratio) -> (r:
        Result<(), CircuitError>)
        ensures
            match old(self).content@.with_push(path@, true, Node::Leaf(kind.dipole(value))) {
                Ok(n) => r is Ok && final(self).content@ == n,
                Err(e) => r == Err::<(), CircuitError>(e) && final(self).content == old(
                    self,
                ).content,
            },
            final(self).generator == old(self).generator,
            old(self).wf() && value.wf() ==> final(self).wf(),
    {
        let leaf = kind.leaf(value);
        let r = self.add_component(path, true, leaf);
        proof {
            if old(self).wf() && value.wf() && r is Ok {
                law_push_keeps_wf(old(self).content@, path@, true, Node::Leaf(kind.dipole(value)));
            }
        }
        r
    }

    /// Adds a new element of `kind` in parallel at `path`, as
    /// `add_serial_component` does in series.
    pub fn add_parallel_component(&mut self, path: &[u8], kind: ComponentKind, value: Ratio) -> (r:
        Result<(), CircuitError>)
        ensures
            match old(self).content@.with_push(path@, false, Node::Leaf(kind.dipole(value))) {
                Ok(n) => r is Ok && final(self).content@ == n,
                Err(e) => r == Err::<(), CircuitError>(e) && final(self).content == old(
                    self,
                ).content,
            },
            final(self).generator == old(self).generator,
            old(self).wf() && value.wf() ==> final(self).wf(),
    {
        let leaf = kind.leaf(value);
        let r = self.add_component(path, false, leaf);
        proof {
            if old(self).wf() && value.wf() && r is Ok {
                law_push_keeps_wf(old(self).content@, path@, false, Node::Leaf(kind.dipole(value)));
            }
        }
        r
    }

    /// Sets the parameter of the resistor, capacitor or inductor at `path`.
    pub fn update_dipole(&mut self, path: &[u8], value: Ratio) -> (r: Result<(), CircuitError>)
        ensures
            match old(self).content@.with_parameter_at(path@, value) {
                Ok(n) => r is Ok && final(self).content@ == n,
                Err(e) => r == Err::<(), CircuitError>(e) && final(self).content == old(
                    self,
                ).content,
            },
            final(self).generator == old(self).generator,
            old(self).wf() && value.wf() ==> final(self).wf(),
    {
        match self.content.get(path) {
            None => { return Err(CircuitError::NotFound); },
            Some(Component::Simple(Dipole::Poisoned)) => {
                return Err(CircuitError::InvalidTopology);
            },
            Some(Component::Simple(Dipole::Equivalent(_))) => {
                return Err(CircuitError::TypeMismatch);
            },
            Some(Component::Simple(_)) => {},
            Some(_) => { return Err(CircuitError::TypeMismatch); },
        }
        assert(path@.subrange(0, path@.len() as int) =~= path@);
        proof {
            if self.wf() && value.wf() {
                let d = self.content@.node_at(path@)->0->Leaf_0;
                if path@.len() > 0 {
                    lemma_node_at_wf(self.content@, path@);
                }
                lemma_replace_keeps_wf(self.content@, path@, Node::Leaf(d.with_parameter(value)));
            }
        }
        self.content.set_at(path, 0, path.len(), value);
        Ok(())
    }

    /// The impedance of the whole tree at angular frequency `omega`.
    pub fn impedance(&self, omega: Ratio) -> (r: Result<Impedance, CircuitError>)
        requires
            self.wf(),
            omega.wf(),
        ensures
            r == self.content@.impedance_spec(omega),
    {
        self.content.impedance(omega)
    }

    /// The voltage across and current through every node of the tree, in
    /// preorder, under the source at `index` alone, with `omega` its angular
    /// frequency.
    pub fn pulse_responses(&self, index: usize, omega: Ratio) -> (r: Result<
        Vec<Response>,
        CircuitError,
    >)
        requires
            self.wf(),
            omega.wf(),
        ensures
            index >= self.generator@.len() ==> r == Err::<Vec<Response>, CircuitError>(
                CircuitError::IndexOutOfRange,
            ),
            index < self.generator@.len() ==> match r {
                Ok(out) => self.content@.response_spec(self.generator@[index as int].voltage, omega)
                    == Ok::<Seq<Response>, CircuitError>(out@),
                Err(e) => self.content@.response_spec(self.generator@[index as int].voltage, omega)
                    == Err::<Seq<Response>, CircuitError>(e),
            },
    {
        match self.generator.get(index) {
            None => Err(CircuitError::IndexOutOfRange),
            Some(p) => self.content.responses(p.voltage, omega),
        }
    }
}

/// Adding an element in series or in parallel adds exactly one leaf to the
/// tree.
pub proof fn law_push_adds_one_leaf(n: Node, path: Seq<u8>, serial: bool, leaf: Node)
    requires
        leaf is Leaf,
        n.with_push(path, serial, leaf) is Ok,
    ensures
        n.with_push(path, serial, leaf)->Ok_0.leaf_count() == n.leaf_count() + 1,
{
    let t = n.push_target(path, serial);
    let m = n.node_at(t)->0;
    lemma_pushed_leaf_count(m, serial, leaf);
    lemma_replace_leaf_count(n, t, m.pushed(serial, leaf));
}

/// Adding a well-formed leaf in series or in parallel keeps a well-formed
/// tree well formed: no series directly inside a series, no parallel node
/// directly inside a parallel one, no composite node empty or over-full.
pub proof fn law_push_keeps_wf(n: Node, path: Seq<u8>, serial: bool, leaf: Node)
    requires
        n.wf(),
        leaf is Leaf,
        leaf.wf(),
        n.with_push(path, serial, leaf) is Ok,
    ensures
        n.with_push(path, serial, leaf)->Ok_0.wf(),
{
    let t = n.push_target(path, serial);
    let m = n.node_at(t)->0;
    let sub = m.pushed(serial, leaf);
    lemma_node_at_wf(n, t);
    let c = m.children();
    if m.is_kind(serial) {
        let d = c.push(leaf);
        assert forall|j: int| 0 <= j < d.len() implies (#[trigger] d[j]).wf() && d[j].nests_in(m) by {
            if j < c.len() {
                match m {
                    Node::Series(e) => assert(e[j].wf() && e[j] == d[j]),
                    Node::Parallel(e) => assert(e[j].wf() && e[j] == d[j]),
                    Node::Leaf(_) => {},
                }
            }
        }
        assert(sub.wf());
    } else {
        let d = seq![m, leaf];
        assert(d[0] == m && d[1] == leaf);
        assert(sub.wf());
    }
    assert(sub.is_kind(serial));
    if t.len() > 0 {
        let parent = n.node_at(t.drop_last())->0;
        if t != path {
            assert(t == path.drop_last());
            assert(m.is_kind(serial));
            assert(m.nests_in(parent));
        } else {
            lemma_node_at_wf(n, path);
            assert(!parent.is_kind(serial));
        }
        assert(sub.nests_in(parent));
    }
    lemma_replace_keeps_wf(n, t, sub);
}

/// Setting a parameter keeps the shape of the tree and the kind of every
/// leaf; only a numeric value changes.
pub proof fn law_parameter_keeps_shape(n: Node, path: Seq<u8>, value: Ratio)
    requires
        n.with_parameter_at(path, value) is Ok,
    ensures
        n.with_parameter_at(path, value)->Ok_0.same_shape(n),
{
    let d = n.node_at(path)->0->Leaf_0;
    lemma_replace_same_shape(n, path, Node::Leaf(d.with_parameter(value)));
}

} // verus!
