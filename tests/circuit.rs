use ark_bls12_381::Fr;
use ark_ff::{One, PrimeField};
use ark_std::rand::Rng;
use ark_std::UniformRand;
use kzg_circuit::circuit::{Circuit, CircuitError, Gate, GateType, Wire, F};
use kzg_circuit::field::Scalar;

fn random_f<R: Rng>(rng: &mut R) -> F {
    let x = Fr::rand(rng);
    F(Scalar::from_limbs(x.into_bigint().0).unwrap())
}

fn fv(x: u64) -> F {
    F(Scalar::from_u64(x))
}

fn gate(gate_type: GateType, a: F, b: F, c: F) -> Gate {
    Gate {
        gate_type,
        left_wire: Wire { index: 0, value: a },
        right_wire: Wire { index: 1, value: b },
        output_wire: Wire { index: 2, value: c },
    }
}

#[test]
fn test_new_circuit() {
    let circuit = Circuit::new(2);
    assert_eq!(circuit.n, 2);
    assert_eq!(circuit.gates.len(), 0);
    assert_eq!(circuit.selectors.q_add.len(), 2);
    assert_eq!(circuit.selectors.q_mul.len(), 2);
}

#[test]
fn test_add_gate() {
    let mut rng = ark_std::test_rng();
    let a = random_f(&mut rng);
    let b = random_f(&mut rng);
    let c = a.add(b);

    let mut circuit = Circuit::new(2);
    let g = Gate {
        gate_type: GateType::Add,
        left_wire: Wire { index: 0, value: a },
        right_wire: Wire { index: 1, value: b },
        output_wire: Wire { index: 2, value: c },
    };
    circuit.add_gate(g).unwrap();

    assert_eq!(circuit.a[0], a);
    assert_eq!(circuit.b[0], b);
    assert_eq!(circuit.c[0], c);
    assert_eq!(circuit.selectors.q_add[0], F::one());
    assert_eq!(circuit.selectors.q_mul[0], F::zero());
}

#[test]
fn test_mul_gate() {
    let mut rng = ark_std::test_rng();
    let a = random_f(&mut rng);
    let b = random_f(&mut rng);
    let c = a.mul(b);

    let mut circuit = Circuit::new(2);
    let g = Gate {
        gate_type: GateType::Mul,
        left_wire: Wire { index: 0, value: a },
        right_wire: Wire { index: 1, value: b },
        output_wire: Wire { index: 2, value: c },
    };
    circuit.add_gate(g).unwrap();

    assert_eq!(circuit.a[0], a);
    assert_eq!(circuit.b[0], b);
    assert_eq!(circuit.c[0], c);
    assert_eq!(circuit.selectors.q_add[0], F::zero());
    assert_eq!(circuit.selectors.q_mul[0], F::one());
}

#[test]
fn test_verify_constraints() {
    let mut rng = ark_std::test_rng();
    let mut circuit = Circuit::new(2);

    let a1 = random_f(&mut rng);
    let b1 = random_f(&mut rng);
    let add_gate = Gate {
        gate_type: GateType::Add,
        left_wire: Wire { index: 0, value: a1 },
        right_wire: Wire { index: 1, value: b1 },
        output_wire: Wire { index: 2, value: a1.add(b1) },
    };

    let a2 = random_f(&mut rng);
    let b2 = random_f(&mut rng);
    let mul_gate = Gate {
        gate_type: GateType::Mul,
        left_wire: Wire { index: 3, value: a2 },
        right_wire: Wire { index: 4, value: b2 },
        output_wire: Wire { index: 5, value: a2.mul(b2) },
    };

    circuit.add_gate(add_gate).unwrap();
    circuit.add_gate(mul_gate).unwrap();

    assert!(circuit.verify_constraints());
}

#[test]
fn test_invalid_constraints() {
    let mut rng = ark_std::test_rng();
    let mut circuit = Circuit::new(1);

    let a = random_f(&mut rng);
    let b = random_f(&mut rng);
    let invalid_gate = Gate {
        gate_type: GateType::Add,
        left_wire: Wire { index: 0, value: a },
        right_wire: Wire { index: 1, value: b },
        output_wire: Wire { index: 2, value: a.mul(b) },
    };

    circuit.add_gate(invalid_gate).unwrap();

    assert!(!circuit.verify_constraints());
}

#[test]
fn field_arithmetic_wraps_at_the_modulus() {
    let minus_one = F(Scalar::from_limbs((-Fr::one()).into_bigint().0).unwrap());
    assert_eq!(minus_one.add(fv(2)), fv(1));
    assert_eq!(fv(3).add(fv(4)), fv(7));
    assert_eq!(fv(6).mul(fv(7)), fv(42));
    assert_ne!(fv(u64::MAX).add(fv(2)), fv(1));
    assert_eq!(fv(1 << 63).mul(fv(2)).0.to_limbs(), [0, 1, 0, 0]);
}

#[test]
fn word_overflow_is_no_field_identity() {
    let mut circuit = Circuit::new(1);
    circuit.add_gate(gate(GateType::Add, fv(u64::MAX), fv(2), fv(1))).unwrap();
    assert!(!circuit.verify_constraints());
}

#[test]
fn edited_output_is_caught() {
    let mut circuit = Circuit::new(2);
    circuit.add_gate(gate(GateType::Add, fv(1), fv(2), fv(3))).unwrap();
    circuit.add_gate(gate(GateType::Mul, fv(4), fv(5), fv(20))).unwrap();
    assert!(circuit.verify_constraints());
    circuit.c[1] = fv(21);
    assert!(!circuit.verify_constraints());
}

#[test]
fn capacity_zero_rejects_first_gate() {
    let mut circuit = Circuit::new(0);
    let r = circuit.add_gate(gate(GateType::Add, fv(1), fv(2), fv(3)));
    assert_eq!(r, Err(CircuitError::CapacityExceeded));
    assert_eq!(circuit.gates.len(), 0);
    assert_eq!(circuit.a.len(), 0);
}

#[test]
fn capacity_one_rejects_second_gate() {
    let mut circuit = Circuit::new(1);
    assert_eq!(circuit.add_gate(gate(GateType::Mul, fv(2), fv(3), fv(6))), Ok(()));
    let r = circuit.add_gate(gate(GateType::Add, fv(1), fv(2), fv(3)));
    assert_eq!(r, Err(CircuitError::CapacityExceeded));
    assert_eq!(circuit.gates.len(), 1);
    assert_eq!(circuit.c, vec![fv(6)]);
    assert_eq!(circuit.selectors.q_mul, vec![fv(1)]);
    assert_eq!(circuit.selectors.q_add, vec![fv(0)]);
}

#[test]
fn selectors_follow_gate_kinds() {
    let mut circuit = Circuit::new(3);
    circuit.add_gate(gate(GateType::Mul, fv(2), fv(3), fv(6))).unwrap();
    circuit.add_gate(gate(GateType::Add, fv(2), fv(3), fv(5))).unwrap();
    assert_eq!(circuit.selectors.q_add, vec![fv(0), fv(1), fv(0)]);
    assert_eq!(circuit.selectors.q_mul, vec![fv(1), fv(0), fv(0)]);
    assert_eq!(circuit.selectors.q_c, vec![fv(0), fv(0), fv(0)]);
    assert!(circuit.verify_constraints());
}

#[test]
fn one_bad_gate_among_good_ones_fails() {
    let mut circuit = Circuit::new(3);
    circuit.add_gate(gate(GateType::Add, fv(1), fv(2), fv(3))).unwrap();
    circuit.add_gate(gate(GateType::Mul, fv(4), fv(5), fv(21))).unwrap();
    circuit.add_gate(gate(GateType::Add, fv(5), fv(5), fv(10))).unwrap();
    assert!(!circuit.verify_constraints());
}

#[test]
fn empty_circuit_is_satisfied() {
    assert!(Circuit::new(4).verify_constraints());
}
