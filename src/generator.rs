use vstd::prelude::*;

use crate::error::CircuitError;
use crate::number::{Cplx, Ratio};

verus! {

/// One sinusoidal source: its frequency and its voltage phasor.
#[derive(Clone, Copy, Debug, PartialEq, Eq, Structural)]
pub struct Pulse {
    /// Linear frequency, in hertz.
    pub frequency: Ratio,
    pub voltage: Cplx,
}

/// An ordered bank of independent sinusoidal sources, addressed by position.
/// Entries with equal frequencies are kept apart.
#[derive(Debug)]
pub struct Generator {
    pulses: Vec<Pulse>,
}

impl View for Generator {
    type V = Seq<Pulse>;

    closed spec fn view(&self) -> Seq<Pulse> {
        self.pulses@
    }
}

impl Generator {
    /// A generator without any source.
    pub fn new() -> (r: Generator)
        ensures
            r@ == Seq::<Pulse>::empty(),
    {
        Generator { pulses: Vec::new() }
    }

    pub fn len(&self) -> (r: usize)
        ensures
            r == self@.len(),
    {
        self.pulses.len()
    }

    /// The source at `index`, if there is one.
    pub fn get(&self, index: usize) -> (r: Option<Pulse>)
        ensures
            index < self@.len() ==> r == Some(self@[index as int]),
            index >= self@.len() ==> r is None,
    {
        if index < self.pulses.len() {
            Some(self.pulses[index])
        } else {
            None
        }
    }

    /// All sources, in order.
    pub fn pulses(&self) -> (r: &Vec<Pulse>)
        ensures
            r@ == self@,
    {
        &self.pulses
    }

    /// Adds a source at the end.
    pub fn append(&mut self, frequency: Ratio, voltage: Cplx)
        ensures
            final(self)@ == old(self)@.push(Pulse { frequency, voltage }),
    {
        self.pulses.push(Pulse { frequency, voltage });
    }

    /// Replaces the phasor of the source at `index`; its frequency stays.
    pub fn set_voltage(&mut self, index: usize, voltage: Cplx) -> (r: Result<(), CircuitError>)
        ensures
            index < old(self)@.len() ==> r is Ok && final(self)@ == old(self)@.update(
                index as int,
                Pulse { frequency: old(self)@[index as int].frequency, voltage },
            ),
            index >= old(self)@.len() ==> r == Err::<(), CircuitError>(
                CircuitError::IndexOutOfRange,
            ) && final(self)@ == old(self)@,
    {
        if index >= self.pulses.len() {
            return Err(CircuitError::IndexOutOfRange);
        }
        let frequency = self.pulses[index].frequency;
        self.pulses.set(index, Pulse { frequency, voltage });
        Ok(())
    }

    /// Removes the source at `index`; the later ones move down one place.
    pub fn remove(&mut self, index: usize) -> (r: Result<Pulse, CircuitError>)
        ensures
            index < old(self)@.len() ==> r == Ok::<Pulse, CircuitError>(old(self)@[index as int])
                && final(self)@ == old(self)@.remove(index as int),
            index >= old(self)@.len() ==> r == Err::<Pulse, CircuitError>(
                CircuitError::IndexOutOfRange,
            ) && final(self)@ == old(self)@,
    {
        if index >= self.pulses.len() {
            return Err(CircuitError::IndexOutOfRange);
        }
        Ok(self.pulses.remove(index))
    }
}

/// Removing a source shortens the generator by one and moves every later
/// source down one place, keeping their order; earlier ones stay where they are.
pub proof fn law_remove_shifts(before: Seq<Pulse>, index: int, after: Seq<Pulse>)
    requires
        0 <= index < before.len(),
        after == before.remove(index),
    ensures
        after.len() == before.len() - 1,
        forall|j: int| 0 <= j < index ==> #[trigger] after[j] == before[j],
        forall|j: int| index < j < before.len() ==> #[trigger] before[j] == after[j - 1],
{
    assert forall|j: int| index < j < before.len() implies #[trigger] before[j] == after[j - 1] by {
    }
}

/// Setting the phasor of the last source to the one it was just appended with
/// leaves the generator as the append left it.
pub proof fn law_append_then_same_voltage(before: Seq<Pulse>, frequency: Ratio, voltage: Cplx)
    ensures
        ({
            let appended = before.push(Pulse { frequency, voltage });
            let last = appended.len() - 1;
            appended.update(last, Pulse { frequency: appended[last].frequency, voltage })
                == appended
        }),
{
    let appended = before.push(Pulse { frequency, voltage });
    let last = appended.len() - 1;
    assert(appended.update(last, Pulse { frequency: appended[last].frequency, voltage })
        =~= appended);
}

} // verus!
