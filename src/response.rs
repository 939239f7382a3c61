use vstd::prelude::*;

use crate::error::CircuitError;
use crate::impedance::Impedance;
use crate::number::{Cplx, Ratio};
use crate::tree::{Component, Node};

verus! {

/// The voltage phasor across a node and the current phasor through it.
#[derive(Clone, Copy, Debug, PartialEq, Eq, Structural)]
pub struct Response {
    pub voltage: Cplx,
    pub current: Cplx,
}

impl Node {
    /// The responses of the node and of every node below it, in preorder,
    /// given the voltage `v` across it and the current `i` through it: the
    /// children of a series share its current, each taking the voltage
    /// current × its own impedance; the children of a parallel node share its
    /// voltage, each taking the current voltage ÷ its own impedance. An open
    /// child of a series, or a zero-impedance child of a parallel node, leaves
    /// its share undetermined.
    pub open spec fn distribute(self, v: Cplx, i: Cplx, omega: Ratio) -> Result<
        Seq<Response>,
        CircuitError,
    >
        decreases self, 0nat,
    {
        let own = Response { voltage: v, current: i };
        match self {
            Node::Leaf(_) => Ok(seq![own]),
            Node::Series(s) => match series_split(s, i, omega) {
                Ok(t) => Ok(seq![own] + t),
                Err(e) => Err(e),
            },
            Node::Parallel(s) => match parallel_split(s, v, omega) {
                Ok(t) => Ok(seq![own] + t),
                Err(e) => Err(e),
            },
        }
    }

    /// The responses of the whole tree, in preorder, to a source of phasor `v`
    /// at angular frequency `omega` connected across it: the impedances are
    /// computed first, then the source's voltage and current are distributed
    /// from the root down.
    pub open spec fn response_spec(self, v: Cplx, omega: Ratio) -> Result<
        Seq<Response>,
        CircuitError,
    > {
        if self.has_poisoned() {
            Err(CircuitError::InvalidTopology)
        } else {
            match self.eval(omega) {
                Err(e) => Err(e),
                Ok(Impedance::Open) => self.distribute(v, Cplx::zero(), omega),
                Ok(Impedance::Finite(z)) => if z.is_zero_spec() {
                    Err(CircuitError::InvalidTopology)
                } else {
                    match z.recip_spec() {
                        None => Err(CircuitError::Overflow),
                        Some(y) => match v.mul_spec(y) {
                            None => Err(CircuitError::Overflow),
                            Some(i) => self.distribute(v, i, omega),
                        },
                    }
                },
            }
        }
    }
}

/// A series child's responses, given the series current `i`: the child's
/// voltage is `i` times its impedance.
pub open spec fn series_share(child: Node, i: Cplx, omega: Ratio) -> Result<
    Seq<Response>,
    CircuitError,
>
    decreases child, 1nat,
{
    match child.eval(omega) {
        Err(e) => Err(e),
        Ok(Impedance::Open) => Err(CircuitError::InvalidTopology),
        Ok(Impedance::Finite(z)) => match i.mul_spec(z) {
            None => Err(CircuitError::Overflow),
            Some(vc) => child.distribute(vc, i, omega),
        },
    }
}

/// A parallel child's responses, given the voltage `v` across the node: the
/// child's current is `v` divided by its impedance, and zero when it is open.
pub open spec fn parallel_share(child: Node, v: Cplx, omega: Ratio) -> Result<
    Seq<Response>,
    CircuitError,
>
    decreases child, 1nat,
{
    match child.eval(omega) {
        Err(e) => Err(e),
        Ok(Impedance::Open) => child.distribute(v, Cplx::zero(), omega),
        Ok(Impedance::Finite(z)) => if z.is_zero_spec() {
            Err(CircuitError::InvalidTopology)
        } else {
            match z.recip_spec() {
                None => Err(CircuitError::Overflow),
                Some(y) => match v.mul_spec(y) {
                    None => Err(CircuitError::Overflow),
                    Some(ic) => child.distribute(v, ic, omega),
                },
            }
        },
    }
}

/// The responses below a series carrying current `i`, child after child.
pub open spec fn series_split(s: Seq<Node>, i: Cplx, omega: Ratio) -> Result<
    Seq<Response>,
    CircuitError,
>
    decreases s, 0nat,
{
    if s.len() == 0 {
        Ok(Seq::empty())
    } else {
        match series_split(s.subrange(0, s.len() - 1), i, omega) {
            Err(e) => Err(e),
            Ok(r) => match series_share(s[s.len() - 1], i, omega) {
                Ok(t) => Ok(r + t),
                Err(e) => Err(e),
            },
        }
    }
}

/// The responses below a parallel node across voltage `v`, child after child.
pub open spec fn parallel_split(s: Seq<Node>, v: Cplx, omega: Ratio) -> Result<
    Seq<Response>,
    CircuitError,
>
    decreases s, 0nat,
{
    if s.len() == 0 {
        Ok(Seq::empty())
    } else {
        match parallel_split(s.subrange(0, s.len() - 1), v, omega) {
            Err(e) => Err(e),
            Ok(r) => match parallel_share(s[s.len() - 1], v, omega) {
                Ok(t) => Ok(r + t),
                Err(e) => Err(e),
            },
        }
    }
}

/// One step of `series_split`: the child's share of the series current.
fn series_step(child: &Component, out: Vec<Response>, i: Cplx, omega: Ratio) -> (r: Result<
    Vec<Response>,
    CircuitError,
>)
    requires
        child@.wf(),
        i.wf(),
        omega.wf(),
    ensures
        match r {
            Ok(t) => series_share(child@, i, omega) matches Ok(d) && t@ == out@ + d,
            Err(e) => series_share(child@, i, omega) == Err::<Seq<Response>, CircuitError>(e),
        },
    decreases child, 1nat,
{
    match child.eval(omega) {
        Err(e) => Err(e),
        Ok(Impedance::Open) => Err(CircuitError::InvalidTopology),
        Ok(Impedance::Finite(z)) => match i.mul(&z) {
            None => Err(CircuitError::Overflow),
            Some(vc) => match child.distribute(vc, i, omega) {
                Ok(t) => {
                    let mut out = out;
                    let mut t = t;
                    out.append(&mut t);
                    Ok(out)
                },
                Err(e) => Err(e),
            },
        },
    }
}

/// One step of `parallel_split`: the child's share of the parallel voltage.
fn parallel_step(child: &Component, out: Vec<Response>, v: Cplx, omega: Ratio) -> (r: Result<
    Vec<Response>,
    CircuitError,
>)
    requires
        child@.wf(),
        v.wf(),
        omega.wf(),
    ensures
        match r {
            Ok(t) => parallel_share(child@, v, omega) matches Ok(d) && t@ == out@ + d,
            Err(e) => parallel_share(child@, v, omega) == Err::<Seq<Response>, CircuitError>(e),
        },
    decreases child, 1nat,
{
    let ic = match child.eval(omega) {
        Err(e) => { return Err(e); },
        Ok(Impedance::Open) => Cplx::zero_value(),
        Ok(Impedance::Finite(z)) => {
            if z.is_zero() {
                return Err(CircuitError::InvalidTopology);
            }
            match z.recip() {
                None => { return Err(CircuitError::Overflow); },
                Some(y) => match v.mul(&y) {
                    None => { return Err(CircuitError::Overflow); },
                    Some(ic) => ic,
                },
            }
        },
    };
    match child.distribute(v, ic, omega) {
        Ok(t) => {
            let mut out = out;
            let mut t = t;
            out.append(&mut t);
            Ok(out)
        },
        Err(e) => Err(e),
    }
}

impl Component {
    fn distribute(&self, v: Cplx, i: Cplx, omega: Ratio) -> (r: Result<Vec<Response>, CircuitError>)
        requires
            self@.wf(),
            v.wf(),
            i.wf(),
            omega.wf(),
        ensures
            match r {
                Ok(out) => self@.distribute(v, i, omega) == Ok::<Seq<Response>, CircuitError>(out@),
                Err(e) => self@.distribute(v, i, omega) == Err::<Seq<Response>, CircuitError>(e),
            },
        decreases self, 0nat,
    {
        let own = Response { voltage: v, current: i };
        match self {
            Component::Simple(_) => {
                let mut out: Vec<Response> = Vec::new();
                out.push(own);
                Ok(out)
            },
            Component::Series(w) => {
                let ghost s = self@.children();
                let mut acc: Result<Vec<Response>, CircuitError> = Ok(Vec::new());
                let mut k: usize = 0;
                assert(s.subrange(0, 0) =~= Seq::<Node>::empty());
                while k < w.len()
                    invariant
                        0 <= k <= w@.len(),
                        s == self@.children(),
                        *self == Component::Series(*w),
                        self@.wf(),
                        v.wf(),
                        i.wf(),
                        omega.wf(),
                        match acc {
                            Ok(out) => series_split(s.subrange(0, k as int), i, omega) == Ok::<
                                Seq<Response>,
                                CircuitError,
                            >(out@),
                            Err(e) => series_split(s.subrange(0, k as int), i, omega) == Err::<
                                Seq<Response>,
                                CircuitError,
                            >(e),
                        },
                    decreases w@.len() - k,
                {
                    assert(s[k as int].wf());
                    assert(s.subrange(0, k + 1).subrange(0, k as int) =~= s.subrange(0, k as int));
                    assert(s.subrange(0, k + 1)[k as int] == s[k as int]);
                    acc = match acc {
                        Err(e) => Err(e),
                        Ok(out) => series_step(&w[k], out, i, omega),
                    };
                    k = k + 1;
                }
                assert(s.subrange(0, s.len() as int) =~= s);
                match acc {
                    Ok(rest) => {
                        let mut out: Vec<Response> = Vec::new();
                        out.push(own);
                        let mut rest = rest;
                        out.append(&mut rest);
                        Ok(out)
                    },
                    Err(e) => Err(e),
                }
            },
            Component::Parallel(w) => {
                let ghost s = self@.children();
                let mut acc: Result<Vec<Response>, CircuitError> = Ok(Vec::new());
                let mut k: usize = 0;
                assert(s.subrange(0, 0) =~= Seq::<Node>::empty());
                while k < w.len()
                    invariant
                        0 <= k <= w@.len(),
                        s == self@.children(),
                        *self == Component::Parallel(*w),
                        self@.wf(),
                        v.wf(),
                        i.wf(),
                        omega.wf(),
                        match acc {
                            Ok(out) => parallel_split(s.subrange(0, k as int), v, omega) == Ok::<
                                Seq<Response>,
                                CircuitError,
                            >(out@),
                            Err(e) => parallel_split(s.subrange(0, k as int), v, omega) == Err::<
                                Seq<Response>,
                                CircuitError,
                            >(e),
                        },
                    decreases w@.len() - k,
                {
                    assert(s[k as int].wf());
                    assert(s.subrange(0, k + 1).subrange(0, k as int) =~= s.subrange(0, k as int));
                    assert(s.subrange(0, k + 1)[k as int] == s[k as int]);
                    acc = match acc {
                        Err(e) => Err(e),
                        Ok(out) => parallel_step(&w[k], out, v, omega),
                    };
                    k = k + 1;
                }
                assert(s.subrange(0, s.len() as int) =~= s);
                match acc {
                    Ok(rest) => {
                        let mut out: Vec<Response> = Vec::new();
                        out.push(own);
                        let mut rest = rest;
                        out.append(&mut rest);
                        Ok(out)
                    },
                    Err(e) => Err(e),
                }
            },
        }
    }

    /// The voltage across and current through every node, in preorder, when a
    /// source of phasor `voltage` at angular frequency `omega` is connected
    /// across the tree.
    pub fn responses(&self, voltage: Cplx, omega: Ratio) -> (r: Result<Vec<Response>, CircuitError>)
        requires
            self@.wf(),
            voltage.wf(),
            omega.wf(),
        ensures
            match r {
                Ok(out) => self@.response_spec(voltage, omega) == Ok::<Seq<Response>, CircuitError>(
                    out@,
                ),
                Err(e) => self@.response_spec(voltage, omega) == Err::<Seq<Response>, CircuitError>(
                    e,
                ),
            },
    {
        if self.contains_poisoned() {
            return Err(CircuitError::InvalidTopology);
        }
        let i = match self.eval(omega) {
            Err(e) => { return Err(e); },
            Ok(Impedance::Open) => Cplx::zero_value(),
            Ok(Impedance::Finite(z)) => {
                if z.is_zero() {
                    return Err(CircuitError::InvalidTopology);
                }
                match z.recip() {
                    None => { return Err(CircuitError::Overflow); },
                    Some(y) => match voltage.mul(&y) {
                        None => { return Err(CircuitError::Overflow); },
                        Some(i) => i,
                    },
                }
            },
        };
        self.distribute(voltage, i, omega)
    }
}

} // verus!
