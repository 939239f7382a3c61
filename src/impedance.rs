use vstd::prelude::*;

use crate::error::CircuitError;
use crate::number::{Cplx, Ratio};
use crate::tree::{Component, Dipole, Node};

verus! {

/// The impedance of a two-terminal element at one angular frequency: a
/// complex value, or an open branch through which no current flows.
#[derive(Clone, Copy, Debug, PartialEq, Eq, Structural)]
pub enum Impedance {
    Finite(Cplx),
    Open,
}

/// What a parallel combination has gathered from the children seen so far:
/// a short circuit, or the sum of the admittances of its finite branches.
#[derive(Clone, Copy, Debug, PartialEq, Eq, Structural)]
pub enum Branches {
    Short,
    Admittance(Cplx),
}

pub open spec fn zero_ratio() -> Ratio {
    Ratio { num: 0, den: 1 }
}

impl Dipole {
    /// Impedance at angular frequency `omega`: `r` for a resistor, `1/(jωc)`
    /// for a capacitor (open when `ωc` is zero), `jωl` for an inductor, the
    /// stored value for an equivalent; none for a poisoned leaf.
    pub open spec fn impedance_spec(self, omega: Ratio) -> Result<Impedance, CircuitError> {
        match self {
            Dipole::Resistor(r) => Ok(Impedance::Finite(Cplx { re: r, im: zero_ratio() })),
            Dipole::Capacitor(c) => match omega.mul_spec(c) {
                None => Err(CircuitError::Overflow),
                Some(x) => if x.num == 0 {
                    Ok(Impedance::Open)
                } else {
                    Ok(Impedance::Finite(Cplx { re: zero_ratio(), im: x.inv_spec().neg_spec() }))
                },
            },
            Dipole::Inductor(l) => match omega.mul_spec(l) {
                None => Err(CircuitError::Overflow),
                Some(x) => Ok(Impedance::Finite(Cplx { re: zero_ratio(), im: x })),
            },
            Dipole::Equivalent(z) => Ok(Impedance::Finite(z)),
            Dipole::Poisoned => Err(CircuitError::InvalidTopology),
        }
    }

    /// The impedance of the dipole at angular frequency `omega`.
    pub fn impedance(&self, omega: Ratio) -> (r: Result<Impedance, CircuitError>)
        requires
            self.wf(),
            omega.wf(),
        ensures
            r == self.impedance_spec(omega),
            r matches Ok(Impedance::Finite(z)) ==> z.wf(),
    {
        let zero = Ratio { num: 0, den: 1 };
        match self {
            Dipole::Resistor(r) => Ok(Impedance::Finite(Cplx { re: *r, im: zero })),
            Dipole::Capacitor(c) => match omega.mul(c) {
                None => Err(CircuitError::Overflow),
                Some(x) => if x.is_zero() {
                    Ok(Impedance::Open)
                } else {
                    Ok(Impedance::Finite(Cplx { re: zero, im: x.inv().neg() }))
                },
            },
            Dipole::Inductor(l) => match omega.mul(l) {
                None => Err(CircuitError::Overflow),
                Some(x) => Ok(Impedance::Finite(Cplx { re: zero, im: x })),
            },
            Dipole::Equivalent(z) => Ok(Impedance::Finite(*z)),
            Dipole::Poisoned => Err(CircuitError::InvalidTopology),
        }
    }
}

/// Impedance of two elements in series: open when either is open, else the
/// sum.
pub open spec fn series_pair(a: Impedance, b: Impedance) -> Result<Impedance, CircuitError> {
    match (a, b) {
        (Impedance::Finite(x), Impedance::Finite(y)) => match x.add_spec(y) {
            Some(z) => Ok(Impedance::Finite(z)),
            None => Err(CircuitError::Overflow),
        },
        _ => Ok(Impedance::Open),
    }
}

/// Gathers one more branch into a parallel combination: a short stays a
/// short, an open branch adds nothing, a zero impedance shorts the whole, any
/// other adds its admittance.
pub open spec fn parallel_step(acc: Branches, z: Impedance) -> Result<Branches, CircuitError> {
    match acc {
        Branches::Short => Ok(Branches::Short),
        Branches::Admittance(y) => match z {
            Impedance::Open => Ok(Branches::Admittance(y)),
            Impedance::Finite(c) => if c.is_zero_spec() {
                Ok(Branches::Short)
            } else {
                match c.recip_spec() {
                    None => Err(CircuitError::Overflow),
                    Some(q) => match y.add_spec(q) {
                        None => Err(CircuitError::Overflow),
                        Some(t) => Ok(Branches::Admittance(t)),
                    },
                }
            },
        },
    }
}

/// The impedance of a finished parallel combination: zero for a short, open
/// when the admittances sum to zero, else their reciprocal.
pub open spec fn parallel_total(acc: Branches) -> Result<Impedance, CircuitError> {
    match acc {
        Branches::Short => Ok(Impedance::Finite(Cplx::zero())),
        Branches::Admittance(y) => if y.is_zero_spec() {
            Ok(Impedance::Open)
        } else {
            match y.recip_spec() {
                Some(z) => Ok(Impedance::Finite(z)),
                None => Err(CircuitError::Overflow),
            }
        },
    }
}

impl Node {
    /// Whether some leaf of the tree is poisoned.
    pub open spec fn has_poisoned(self) -> bool
        decreases self,
    {
        match self {
            Node::Leaf(d) => d is Poisoned,
            Node::Series(s) => exists|i: int| 0 <= i < s.len() && (#[trigger] s[i]).has_poisoned(),
            Node::Parallel(s) => exists|i: int| 0 <= i < s.len() && (#[trigger] s[i]).has_poisoned(),
        }
    }

    /// Impedance computed bottom-up, children left to right.
    pub open spec fn eval(self, omega: Ratio) -> Result<Impedance, CircuitError>
        decreases self,
    {
        match self {
            Node::Leaf(d) => d.impedance_spec(omega),
            Node::Series(s) => series_fold(s, omega),
            Node::Parallel(s) => match parallel_fold(s, omega) {
                Ok(acc) => parallel_total(acc),
                Err(e) => Err(e),
            },
        }
    }

    /// The impedance of the tree at angular frequency `omega`; a tree with a
    /// poisoned leaf has none.
    pub open spec fn impedance_spec(self, omega: Ratio) -> Result<Impedance, CircuitError> {
        if self.has_poisoned() {
            Err(CircuitError::InvalidTopology)
        } else {
            self.eval(omega)
        }
    }
}

/// Series composition of a sequence of trees: the running sum of their
/// impedances.
pub open spec fn series_fold(s: Seq<Node>, omega: Ratio) -> Result<Impedance, CircuitError>
    decreases s,
{
    if s.len() == 0 {
        Ok(Impedance::Finite(Cplx::zero()))
    } else {
        match (series_fold(s.subrange(0, s.len() - 1), omega), s[s.len() - 1].eval(omega)) {
            (Err(e), _) => Err(e),
            (_, Err(e)) => Err(e),
            (Ok(a), Ok(b)) => series_pair(a, b),
        }
    }
}

/// Parallel composition of a sequence of trees, before the final reciprocal.
pub open spec fn parallel_fold(s: Seq<Node>, omega: Ratio) -> Result<Branches, CircuitError>
    decreases s,
{
    if s.len() == 0 {
        Ok(Branches::Admittance(Cplx::zero()))
    } else {
        match (parallel_fold(s.subrange(0, s.len() - 1), omega), s[s.len() - 1].eval(omega)) {
            (Err(e), _) => Err(e),
            (_, Err(e)) => Err(e),
            (Ok(acc), Ok(z)) => parallel_step(acc, z),
        }
    }
}

fn series_pair_exec(a: Impedance, b: Impedance) -> (r: Result<Impedance, CircuitError>)
    requires
        a matches Impedance::Finite(x) ==> x.wf(),
        b matches Impedance::Finite(y) ==> y.wf(),
    ensures
        r == series_pair(a, b),
        r matches Ok(Impedance::Finite(z)) ==> z.wf(),
{
    match (a, b) {
        (Impedance::Finite(x), Impedance::Finite(y)) => match x.add(&y) {
            Some(z) => Ok(Impedance::Finite(z)),
            None => Err(CircuitError::Overflow),
        },
        _ => Ok(Impedance::Open),
    }
}

fn parallel_step_exec(acc: Branches, z: Impedance) -> (r: Result<Branches, CircuitError>)
    requires
        acc matches Branches::Admittance(y) ==> y.wf(),
        z matches Impedance::Finite(c) ==> c.wf(),
    ensures
        r == parallel_step(acc, z),
        r matches Ok(Branches::Admittance(y)) ==> y.wf(),
{
    match acc {
        Branches::Short => Ok(Branches::Short),
        Branches::Admittance(y) => match z {
            Impedance::Open => Ok(Branches::Admittance(y)),
            Impedance::Finite(c) => if c.is_zero() {
                Ok(Branches::Short)
            } else {
                match c.recip() {
                    None => Err(CircuitError::Overflow),
                    Some(q) => match y.add(&q) {
                        None => Err(CircuitError::Overflow),
                        Some(t) => Ok(Branches::Admittance(t)),
                    },
                }
            },
        },
    }
}

fn parallel_total_exec(acc: Branches) -> (r: Result<Impedance, CircuitError>)
    requires
        acc matches Branches::Admittance(y) ==> y.wf(),
    ensures
        r == parallel_total(acc),
        r matches Ok(Impedance::Finite(z)) ==> z.wf(),
{
    match acc {
        Branches::Short => Ok(Impedance::Finite(Cplx::zero_value())),
        Branches::Admittance(y) => if y.is_zero() {
            Ok(Impedance::Open)
        } else {
            match y.recip() {
                Some(z) => Ok(Impedance::Finite(z)),
                None => Err(CircuitError::Overflow),
            }
        },
    }
}

impl Component {
    /// Whether some leaf of the tree is poisoned.
    pub fn contains_poisoned(&self) -> (r: bool)
        ensures
            r == self@.has_poisoned(),
        decreases self,
    {
        match self {
            Component::Simple(d) => matches!(d, Dipole::Poisoned),
            Component::Series(v) => {
                let ghost s = self@.children();
                let mut found = false;
                let mut i: usize = 0;
                while i < v.len()
                    invariant
                        0 <= i <= v@.len(),
                        s == self@.children(),
                        *self == Component::Series(*v),
                        found == exists|j: int| 0 <= j < i && (#[trigger] s[j]).has_poisoned(),
                    decreases v@.len() - i,
                {
                    if v[i].contains_poisoned() {
                        assert(s[i as int].has_poisoned());
                        found = true;
                    }
                    i = i + 1;
                }
                found
            },
            Component::Parallel(v) => {
                let ghost s = self@.children();
                let mut found = false;
                let mut i: usize = 0;
                while i < v.len()
                    invariant
                        0 <= i <= v@.len(),
                        s == self@.children(),
                        *self == Component::Parallel(*v),
                        found == exists|j: int| 0 <= j < i && (#[trigger] s[j]).has_poisoned(),
                    decreases v@.len() - i,
                {
                    if v[i].contains_poisoned() {
                        assert(s[i as int].has_poisoned());
                        found = true;
                    }
                    i = i + 1;
                }
                found
            },
        }
    }

    pub(crate) fn eval(&self, omega: Ratio) -> (r: Result<Impedance, CircuitError>)
        requires
            self@.wf(),
            omega.wf(),
        ensures
            r == self@.eval(omega),
            r matches Ok(Impedance::Finite(z)) ==> z.wf(),
        decreases self,
    {
        match self {
            Component::Simple(d) => d.impedance(omega),
            Component::Series(v) => {
                let ghost s = self@.children();
                let mut acc: Result<Impedance, CircuitError> = Ok(
                    Impedance::Finite(Cplx::zero_value()),
                );
                let mut i: usize = 0;
                assert(s.subrange(0, 0) =~= Seq::<Node>::empty());
                while i < v.len()
                    invariant
                        0 <= i <= v@.len(),
                        s == self@.children(),
                        *self == Component::Series(*v),
                        self@.wf(),
                        omega.wf(),
                        acc == series_fold(s.subrange(0, i as int), omega),
                        acc matches Ok(Impedance::Finite(z)) ==> z.wf(),
                    decreases v@.len() - i,
                {
                    assert(s[i as int].wf());
                    let z = v[i].eval(omega);
                    assert(s.subrange(0, i + 1).subrange(0, i as int) =~= s.subrange(0, i as int));
                    acc = match (acc, z) {
                        (Err(e), _) => Err(e),
                        (_, Err(e)) => Err(e),
                        (Ok(a), Ok(b)) => series_pair_exec(a, b),
                    };
                    i = i + 1;
                }
                assert(s.subrange(0, s.len() as int) =~= s);
                acc
            },
            Component::Parallel(v) => {
                let ghost s = self@.children();
                let mut acc: Result<Branches, CircuitError> = Ok(
                    Branches::Admittance(Cplx::zero_value()),
                );
                let mut i: usize = 0;
                assert(s.subrange(0, 0) =~= Seq::<Node>::empty());
                while i < v.len()
                    invariant
                        0 <= i <= v@.len(),
                        s == self@.children(),
                        *self == Component::Parallel(*v),
                        self@.wf(),
                        omega.wf(),
                        acc == parallel_fold(s.subrange(0, i as int), omega),
                        acc matches Ok(Branches::Admittance(y)) ==> y.wf(),
                    decreases v@.len() - i,
                {
                    assert(s[i as int].wf());
                    let z = v[i].eval(omega);
                    assert(s.subrange(0, i + 1).subrange(0, i as int) =~= s.subrange(0, i as int));
                    acc = match (acc, z) {
                        (Err(e), _) => Err(e),
                        (_, Err(e)) => Err(e),
                        (Ok(a), Ok(b)) => parallel_step_exec(a, b),
                    };
                    i = i + 1;
                }
                assert(s.subrange(0, s.len() as int) =~= s);
                match acc {
                    Ok(a) => parallel_total_exec(a),
                    Err(e) => Err(e),
                }
            },
        }
    }

    /// The impedance of the tree at angular frequency `omega`. Fails with
    /// `InvalidTopology` exactly when a leaf is poisoned, and with `Overflow`
    /// when an exact intermediate value does not fit.
    pub fn impedance(&self, omega: Ratio) -> (r: Result<Impedance, CircuitError>)
        requires
            self@.wf(),
            omega.wf(),
        ensures
            r == self@.impedance_spec(omega),
            r matches Ok(Impedance::Finite(z)) ==> z.wf(),
    {
        if self.contains_poisoned() {
            return Err(CircuitError::InvalidTopology);
        }
        self.eval(omega)
    }
}

/// Series composition: the impedance of a series is the sum of its children's
/// impedances, taken left to right, and open as soon as one child is open;
/// a poisoned leaf anywhere leaves it without impedance.
pub proof fn law_series_impedance(s: Seq<Node>, child: Node, omega: Ratio)
    ensures
        Node::Series(s).impedance_spec(omega) == if Node::Series(s).has_poisoned() {
            Err(CircuitError::InvalidTopology)
        } else {
            series_fold(s, omega)
        },
        series_fold(s.push(child), omega) == match (series_fold(s, omega), child.eval(omega)) {
            (Err(e), _) => Err(e),
            (_, Err(e)) => Err(e),
            (Ok(a), Ok(b)) => series_pair(a, b),
        },
{
    assert(s.push(child).subrange(0, s.len() as int) =~= s);
}

/// Parallel composition: the impedance of a parallel node is the reciprocal
/// of the sum of its children's admittances; a zero-impedance child shorts the
/// whole to zero, an open child adds nothing, and a node whose admittances sum
/// to zero is open.
pub proof fn law_parallel_impedance(s: Seq<Node>, child: Node, omega: Ratio)
    ensures
        Node::Parallel(s).impedance_spec(omega) == if Node::Parallel(s).has_poisoned() {
            Err(CircuitError::InvalidTopology)
        } else {
            match parallel_fold(s, omega) {
                Ok(acc) => parallel_total(acc),
                Err(e) => Err(e),
            }
        },
        parallel_fold(s.push(child), omega) == match (
            parallel_fold(s, omega),
            child.eval(omega),
        ) {
            (Err(e), _) => Err(e),
            (_, Err(e)) => Err(e),
            (Ok(acc), Ok(z)) => parallel_step(acc, z),
        },
        parallel_total(Branches::Short) == Ok::<Impedance, CircuitError>(
            Impedance::Finite(Cplx::zero()),
        ),
        forall|y: Cplx|
            #![auto]
            !y.is_zero_spec() && y.recip_spec() is Some ==> parallel_total(Branches::Admittance(y))
                == Ok::<Impedance, CircuitError>(Impedance::Finite(y.recip_spec()->0)),
{
    assert(s.push(child).subrange(0, s.len() as int) =~= s);
}

} // verus!
