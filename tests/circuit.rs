use circuit_network::circuit::{Circuit, ComponentKind};
use circuit_network::error::CircuitError;
use circuit_network::generator::{Generator, Pulse};
use circuit_network::impedance::Impedance;
use circuit_network::number::{Cplx, Ratio};
use circuit_network::response::Response;
use circuit_network::tree::{Component, Dipole};

fn q(num: i64, den: i64) -> Ratio {
    Ratio::new(num, den).unwrap()
}

fn c(re: Ratio, im: Ratio) -> Cplx {
    Cplx::new(re, im)
}

fn finite(re: Ratio, im: Ratio) -> Impedance {
    Impedance::Finite(c(re, im))
}

fn leaf_count(comp: &Component) -> usize {
    match comp {
        Component::Simple(_) => 1,
        Component::Series(v) | Component::Parallel(v) => v.iter().map(leaf_count).sum(),
    }
}

fn to_f64(r: Ratio) -> f64 {
    r.num as f64 / r.den as f64
}

fn children(comp: &Component) -> &Vec<Component> {
    match comp {
        Component::Series(v) | Component::Parallel(v) => v,
        Component::Simple(_) => panic!("not a composite node"),
    }
}

fn dipole(comp: &Component) -> Dipole {
    match comp {
        Component::Simple(d) => *d,
        _ => panic!("not a leaf"),
    }
}

#[test]
fn default_circuit_is_one_resistor_and_one_source() {
    let circuit = Circuit::new();
    let root = circuit.content();
    assert!(matches!(root, Component::Series(_)));
    assert_eq!(children(root).len(), 1);
    assert_eq!(dipole(&children(root)[0]), Dipole::Resistor(q(500, 1)));
    assert_eq!(circuit.generator().len(), 1);
    assert_eq!(
        circuit.generator().get(0),
        Some(Pulse { frequency: q(1_000_000, 1), voltage: c(q(1, 1), q(0, 1)) })
    );
    let omega = q(6283185, 1);
    assert_eq!(circuit.impedance(omega), Ok(finite(q(500, 1), q(0, 1))));
}

#[test]
fn serial_resistor_on_default_circuit() {
    let mut circuit = Circuit::new();
    assert_eq!(circuit.add_serial_component(&[], ComponentKind::Resistor, q(100, 1)), Ok(()));
    let root = circuit.content();
    assert!(matches!(root, Component::Series(_)));
    assert_eq!(children(root).len(), 2);
    assert_eq!(dipole(&children(root)[0]), Dipole::Resistor(q(500, 1)));
    assert_eq!(dipole(&children(root)[1]), Dipole::Resistor(q(100, 1)));
    for omega in [q(0, 1), q(1, 1), q(6283185, 1), q(7, 3)] {
        assert_eq!(circuit.impedance(omega), Ok(finite(q(600, 1), q(0, 1))));
    }
}

#[test]
fn parallel_capacitor_on_single_resistor() {
    let mut circuit = Circuit {
        content: Component::Simple(Dipole::Resistor(q(500, 1))),
        generator: Generator::new(),
    };
    let nano = q(1, 1_000_000_000);
    assert_eq!(circuit.add_parallel_component(&[], ComponentKind::Capacitor, nano), Ok(()));
    let root = circuit.content();
    assert!(matches!(root, Component::Parallel(_)));
    assert_eq!(dipole(&children(root)[0]), Dipole::Resistor(q(500, 1)));
    assert_eq!(dipole(&children(root)[1]), Dipole::Capacitor(nano));

    let omega = q(6283185, 1);
    let z = match circuit.impedance(omega) {
        Ok(Impedance::Finite(z)) => z,
        other => panic!("unexpected {:?}", other),
    };
    let w = 2.0 * std::f64::consts::PI * 1e6;
    let (ere, eim) = {
        let (a, b) = (1.0 / 500.0, w * 1e-9);
        let m = a * a + b * b;
        (a / m, -b / m)
    };
    let (zre, zim) = (to_f64(z.re), to_f64(z.im));
    let mag = (zre * zre + zim * zim).sqrt();
    let emag = (ere * ere + eim * eim).sqrt();
    assert!((mag - emag).abs() / emag < 1e-6);
    assert!((zim.atan2(zre) - eim.atan2(ere)).abs() < 1e-6);
}

#[test]
fn remove_pulse_out_of_range_changes_nothing() {
    let mut circuit = Circuit::new();
    circuit.add_pulse(q(2, 1), c(q(1, 2), q(0, 1)));
    circuit.add_pulse(q(3, 1), c(q(0, 1), q(1, 1)));
    let before: Vec<Pulse> = circuit.generator().pulses().clone();
    assert_eq!(before.len(), 3);
    assert_eq!(circuit.remove_pulse(5), Err(CircuitError::IndexOutOfRange));
    assert_eq!(circuit.generator().pulses(), &before);
}

#[test]
fn remove_pulse_shifts_later_entries() {
    let mut g = Generator::new();
    for k in 1..=4 {
        g.append(q(k, 1), c(q(k, 1), q(0, 1)));
    }
    let before = g.pulses().clone();
    assert_eq!(g.remove(1), Ok(before[1]));
    assert_eq!(g.len(), 3);
    assert_eq!(g.pulses()[0], before[0]);
    assert_eq!(g.pulses()[1], before[2]);
    assert_eq!(g.pulses()[2], before[3]);
}

#[test]
fn append_then_same_voltage_is_unchanged() {
    let mut g = Generator::new();
    g.append(q(5, 1), c(q(1, 1), q(0, 1)));
    let v = c(q(3, 4), q(-1, 2));
    g.append(q(5, 1), v);
    let after_append = g.pulses().clone();
    assert_eq!(g.set_voltage(g.len() - 1, v), Ok(()));
    assert_eq!(g.pulses(), &after_append);
    assert_eq!(g.len(), 2);
}

#[test]
fn set_voltage_keeps_frequency() {
    let mut circuit = Circuit::new();
    let v = c(q(0, 1), q(2, 1));
    assert_eq!(circuit.set_voltage(0, v), Ok(()));
    assert_eq!(circuit.generator().get(0), Some(Pulse { frequency: q(1_000_000, 1), voltage: v }));
    assert_eq!(circuit.set_voltage(1, v), Err(CircuitError::IndexOutOfRange));
}

#[test]
fn update_dipole_changes_only_the_value() {
    let mut circuit = Circuit::new();
    circuit.add_parallel_component(&[0], ComponentKind::Inductor, q(1, 1000)).unwrap();
    assert_eq!(circuit.update_dipole(&[0, 1], q(2, 1000)), Ok(()));
    let root = circuit.content();
    assert!(matches!(root, Component::Series(_)));
    let par = &children(root)[0];
    assert!(matches!(par, Component::Parallel(_)));
    assert_eq!(dipole(&children(par)[0]), Dipole::Resistor(q(500, 1)));
    assert_eq!(dipole(&children(par)[1]), Dipole::Inductor(q(1, 500)));
    assert_eq!(leaf_count(root), 2);
}

#[test]
fn update_dipole_errors() {
    let mut circuit = Circuit::new();
    assert_eq!(circuit.update_dipole(&[], q(1, 1)), Err(CircuitError::TypeMismatch));
    assert_eq!(circuit.update_dipole(&[3], q(1, 1)), Err(CircuitError::NotFound));
    assert_eq!(circuit.update_dipole(&[0, 0], q(1, 1)), Err(CircuitError::NotFound));
    let mut poisoned = Circuit {
        content: Component::Series(vec![
            Component::Simple(Dipole::Poisoned),
            Component::Simple(Dipole::Equivalent(c(q(1, 1), q(1, 1)))),
        ]),
        generator: Generator::new(),
    };
    assert_eq!(poisoned.update_dipole(&[0], q(1, 1)), Err(CircuitError::InvalidTopology));
    assert_eq!(poisoned.update_dipole(&[1], q(1, 1)), Err(CircuitError::TypeMismatch));
    assert_eq!(poisoned.impedance(q(1, 1)), Err(CircuitError::InvalidTopology));
}

#[test]
fn dipole_set_parameter() {
    let mut d = Dipole::Capacitor(q(1, 10));
    assert_eq!(d.set_parameter(q(1, 20)), Ok(()));
    assert_eq!(d, Dipole::Capacitor(q(1, 20)));
    let mut e = Dipole::Equivalent(c(q(1, 1), q(0, 1)));
    assert_eq!(e.set_parameter(q(1, 20)), Err(CircuitError::TypeMismatch));
    let mut p = Dipole::Poisoned;
    assert_eq!(p.set_parameter(q(1, 20)), Err(CircuitError::TypeMismatch));
}

#[test]
fn pushes_add_one_leaf_and_never_nest_same_kind() {
    let mut circuit = Circuit::new();
    let steps: [(&[u8], bool); 6] =
        [(&[0], false), (&[0, 1], true), (&[0, 1, 0], false), (&[], true), (&[1], false), (&[0, 0], true)];
    for (path, serial) in steps {
        let before = leaf_count(circuit.content());
        let r = if serial {
            circuit.add_serial_component(path, ComponentKind::Resistor, q(10, 1))
        } else {
            circuit.add_parallel_component(path, ComponentKind::Capacitor, q(1, 10))
        };
        assert_eq!(r, Ok(()));
        assert_eq!(leaf_count(circuit.content()), before + 1);
        assert!(no_redundant_nesting(circuit.content()));
    }
}

fn no_redundant_nesting(comp: &Component) -> bool {
    match comp {
        Component::Simple(_) => true,
        Component::Series(v) => {
            !v.is_empty()
                && v.iter().all(|x| !matches!(x, Component::Series(_)) && no_redundant_nesting(x))
        },
        Component::Parallel(v) => {
            !v.is_empty()
                && v.iter().all(|x| !matches!(x, Component::Parallel(_)) && no_redundant_nesting(x))
        },
    }
}

#[test]
fn serial_push_inside_parallel_goes_to_the_child() {
    let mut circuit = Circuit {
        content: Component::Parallel(vec![
            Component::Simple(Dipole::Resistor(q(1, 1))),
            Component::Simple(Dipole::Resistor(q(2, 1))),
        ]),
        generator: Generator::new(),
    };
    assert_eq!(circuit.add_serial_component(&[1], ComponentKind::Inductor, q(3, 1)), Ok(()));
    let root = circuit.content();
    assert_eq!(children(root).len(), 2);
    let s = &children(root)[1];
    assert!(matches!(s, Component::Series(_)));
    assert_eq!(dipole(&children(s)[0]), Dipole::Resistor(q(2, 1)));
    assert_eq!(dipole(&children(s)[1]), Dipole::Inductor(q(3, 1)));
    // A parallel push at the same place lands on the root parallel node.
    assert_eq!(circuit.add_parallel_component(&[0], ComponentKind::Resistor, q(4, 1)), Ok(()));
    assert_eq!(children(circuit.content()).len(), 3);
}

#[test]
fn push_errors() {
    let mut circuit = Circuit::new();
    assert_eq!(
        circuit.add_serial_component(&[1], ComponentKind::Resistor, q(1, 1)),
        Err(CircuitError::NotFound)
    );
    assert_eq!(
        circuit.add_parallel_component(&[0, 0], ComponentKind::Resistor, q(1, 1)),
        Err(CircuitError::NotFound)
    );
    for _ in 0..255 {
        circuit.add_serial_component(&[], ComponentKind::Resistor, q(1, 1)).unwrap();
    }
    assert_eq!(children(circuit.content()).len(), 256);
    assert_eq!(
        circuit.add_serial_component(&[0], ComponentKind::Resistor, q(1, 1)),
        Err(CircuitError::InvalidTopology)
    );
    assert_eq!(children(circuit.content()).len(), 256);
    assert_eq!(circuit.add_parallel_component(&[255], ComponentKind::Resistor, q(1, 1)), Ok(()));
}

#[test]
fn component_push_serie_and_parallel() {
    let mut comp = Component::Simple(Dipole::Resistor(q(1, 1)));
    assert_eq!(comp.push_serie(Component::Simple(Dipole::Resistor(q(2, 1)))), Ok(()));
    assert_eq!(comp.push_serie(Component::Simple(Dipole::Resistor(q(3, 1)))), Ok(()));
    assert_eq!(children(&comp).len(), 3);
    assert_eq!(comp.push_parallel(Component::Simple(Dipole::Inductor(q(1, 1)))), Ok(()));
    assert!(matches!(comp, Component::Parallel(_)));
    assert!(matches!(children(&comp)[0], Component::Series(_)));
    assert_eq!(comp.impedance(q(0, 1)), Ok(finite(q(0, 1), q(0, 1))));
}

#[test]
fn dipole_impedances() {
    let w = q(2, 1);
    assert_eq!(Dipole::Resistor(q(5, 1)).impedance(w), Ok(finite(q(5, 1), q(0, 1))));
    assert_eq!(Dipole::Capacitor(q(1, 4)).impedance(w), Ok(finite(q(0, 1), q(-2, 1))));
    assert_eq!(Dipole::Inductor(q(3, 1)).impedance(w), Ok(finite(q(0, 1), q(6, 1))));
    assert_eq!(Dipole::Capacitor(q(1, 4)).impedance(q(0, 1)), Ok(Impedance::Open));
    let z = c(q(1, 3), q(-2, 7));
    assert_eq!(Dipole::Equivalent(z).impedance(w), Ok(Impedance::Finite(z)));
    assert_eq!(Dipole::Poisoned.impedance(w), Err(CircuitError::InvalidTopology));
}

#[test]
fn series_and_parallel_edge_cases() {
    let one = q(1, 1);
    let lc = |v: Vec<Component>, serial: bool| if serial { Component::Series(v) } else { Component::Parallel(v) };
    let pair = || vec![Component::Simple(Dipole::Inductor(q(1, 1))), Component::Simple(Dipole::Capacitor(q(1, 1)))];
    // At resonance a series LC is a short and a parallel LC is open.
    assert_eq!(lc(pair(), true).impedance(one), Ok(finite(q(0, 1), q(0, 1))));
    assert_eq!(lc(pair(), false).impedance(one), Ok(Impedance::Open));
    // An open branch: the capacitor at zero frequency.
    assert_eq!(lc(pair(), true).impedance(q(0, 1)), Ok(Impedance::Open));
    let rc = Component::Parallel(vec![
        Component::Simple(Dipole::Resistor(q(4, 1))),
        Component::Simple(Dipole::Capacitor(q(1, 1))),
    ]);
    assert_eq!(rc.impedance(q(0, 1)), Ok(finite(q(4, 1), q(0, 1))));
    // A zero impedance shorts the parallel node.
    let short = Component::Parallel(vec![
        Component::Simple(Dipole::Resistor(q(4, 1))),
        Component::Simple(Dipole::Resistor(q(0, 1))),
    ]);
    assert_eq!(short.impedance(one), Ok(finite(q(0, 1), q(0, 1))));
    // Two equal resistors in parallel halve.
    let half = Component::Parallel(vec![
        Component::Simple(Dipole::Resistor(q(6, 1))),
        Component::Simple(Dipole::Resistor(q(6, 1))),
    ]);
    assert_eq!(half.impedance(one), Ok(finite(q(3, 1), q(0, 1))));
}

#[test]
fn impedance_overflow_is_reported() {
    let big = q(i64::MAX, 1);
    let comp = Component::Series(vec![
        Component::Simple(Dipole::Resistor(big)),
        Component::Simple(Dipole::Resistor(big)),
    ]);
    assert_eq!(comp.impedance(q(1, 1)), Err(CircuitError::Overflow));
}

#[test]
fn ratio_construction_reduces() {
    assert_eq!(Ratio::new(6, 4), Some(Ratio { num: 3, den: 2 }));
    assert_eq!(Ratio::new(-6, 4), Some(Ratio { num: -3, den: 2 }));
    assert_eq!(Ratio::new(0, 9), Some(Ratio { num: 0, den: 1 }));
    assert_eq!(Ratio::new(1, 0), None);
    assert_eq!(Ratio::new(1, -2), None);
    assert_eq!(q(1, 3).add(&q(1, 6)), Some(q(1, 2)));
    assert_eq!(q(2, 3).mul(&q(3, 4)), Some(q(1, 2)));
    assert_eq!(c(q(0, 1), q(1, 1)).recip(), Some(c(q(0, 1), q(-1, 1))));
    assert_eq!(c(q(1, 1), q(1, 1)).recip(), Some(c(q(1, 2), q(-1, 2))));
}

#[test]
fn reset_restores_default() {
    let mut circuit = Circuit::new();
    circuit.add_serial_component(&[], ComponentKind::Capacitor, q(1, 1)).unwrap();
    circuit.add_pulse(q(1, 1), c(q(1, 1), q(0, 1)));
    circuit.reset();
    assert_eq!(children(circuit.content()).len(), 1);
    assert_eq!(circuit.generator().len(), 1);
}

#[test]
fn get_by_path() {
    let circuit = Circuit::new();
    assert!(circuit.content().get(&[]).is_some());
    assert!(matches!(circuit.content().get(&[0]), Some(Component::Simple(Dipole::Resistor(_)))));
    assert!(circuit.content().get(&[1]).is_none());
    assert!(circuit.content().get(&[0, 0]).is_none());
}

fn resp(v: Ratio, i: Ratio) -> Response {
    Response { voltage: c(v, q(0, 1)), current: c(i, q(0, 1)) }
}

#[test]
fn series_responses_share_current() {
    let comp = Component::Series(vec![
        Component::Simple(Dipole::Resistor(q(1, 1))),
        Component::Simple(Dipole::Resistor(q(3, 1))),
    ]);
    let out = comp.responses(c(q(4, 1), q(0, 1)), q(1, 1)).unwrap();
    assert_eq!(out, vec![resp(q(4, 1), q(1, 1)), resp(q(1, 1), q(1, 1)), resp(q(3, 1), q(1, 1))]);
}

#[test]
fn parallel_responses_share_voltage() {
    let comp = Component::Parallel(vec![
        Component::Simple(Dipole::Resistor(q(2, 1))),
        Component::Series(vec![
            Component::Simple(Dipole::Resistor(q(1, 1))),
            Component::Simple(Dipole::Resistor(q(1, 1))),
        ]),
    ]);
    let out = comp.responses(c(q(2, 1), q(0, 1)), q(1, 1)).unwrap();
    assert_eq!(
        out,
        vec![
            resp(q(2, 1), q(2, 1)),
            resp(q(2, 1), q(1, 1)),
            resp(q(2, 1), q(1, 1)),
            resp(q(1, 1), q(1, 1)),
            resp(q(1, 1), q(1, 1)),
        ]
    );
}

#[test]
fn responses_with_open_branch_and_short() {
    let rc = Component::Parallel(vec![
        Component::Simple(Dipole::Resistor(q(4, 1))),
        Component::Simple(Dipole::Capacitor(q(1, 1))),
    ]);
    let out = rc.responses(c(q(8, 1), q(0, 1)), q(0, 1)).unwrap();
    assert_eq!(out, vec![resp(q(8, 1), q(2, 1)), resp(q(8, 1), q(2, 1)), resp(q(8, 1), q(0, 1))]);
    let short = Component::Series(vec![Component::Simple(Dipole::Resistor(q(0, 1)))]);
    assert_eq!(short.responses(c(q(1, 1), q(0, 1)), q(1, 1)), Err(CircuitError::InvalidTopology));
}

#[test]
fn circuit_pulse_responses() {
    let circuit = Circuit::new();
    let out = circuit.pulse_responses(0, q(6283185, 1)).unwrap();
    assert_eq!(out, vec![resp(q(1, 1), q(1, 500)), resp(q(1, 1), q(1, 500))]);
    assert_eq!(circuit.pulse_responses(1, q(1, 1)), Err(CircuitError::IndexOutOfRange));
}

#[test]
fn component_kind_from_name() {
    assert_eq!(ComponentKind::from_name("resistor"), Some(ComponentKind::Resistor));
    assert_eq!(ComponentKind::from_name("capacitor"), Some(ComponentKind::Capacitor));
    assert_eq!(ComponentKind::from_name("inductor"), Some(ComponentKind::Inductor));
    assert_eq!(ComponentKind::from_name("Resistor"), None);
    assert_eq!(ComponentKind::from_name("diode"), None);
    assert_eq!(ComponentKind::from_name(""), None);
}
