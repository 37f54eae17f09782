use rust_stark::commit;
use rust_stark::evaluate;
use rust_stark::extend;
use rust_stark::generate_proof;
use rust_stark::interpolate;
use rust_stark::verify_proof;
use rust_stark::Felt;
use rust_stark::Proof;
use rust_stark::ProofError;
use rust_stark::FIELD_MODULUS;
use rust_stark::domain::trace_domain;

fn felts(vals: &[u64]) -> Vec<Felt> {
    vals.iter().map(|v| Felt::new(*v)).collect()
}

fn hex(bytes: &[u8]) -> String {
    let mut s = String::new();
    for b in bytes {
        s.push_str(&format!("{:02x}", b));
    }
    s
}

#[test]
fn round_trip_length_one() {
    let t = felts(&[42]);
    let p = generate_proof(&t).unwrap();
    assert!(verify_proof(&t, &p));
}

#[test]
fn round_trip_small_lengths() {
    for n in [1usize, 2, 4, 8, 16] {
        let vals: Vec<u64> = (0..n as u64).map(|v| v * v + 3).collect();
        let t = felts(&vals);
        let p = generate_proof(&t).unwrap();
        assert!(verify_proof(&t, &p), "round trip failed for length {}", n);
    }
}

#[test]
fn proof_is_deterministic() {
    let t = felts(&[0, 1, 2, 3, 4, 5, 6, 7]);
    let p1 = generate_proof(&t).unwrap();
    let p2 = generate_proof(&t).unwrap();
    assert_eq!(p1.root, p2.root);
}

#[test]
fn interpolation_reproduces_trace() {
    let t = felts(&[9, 14, 3, 100, 0, 7, 21, 5]);
    let xs = trace_domain(8);
    let c = interpolate(&t).unwrap();
    for i in 0..8 {
        let y = evaluate(&c, xs[i]);
        assert_eq!(y.value(), t[i].value(), "mismatch at domain point {}", i);
    }
}

#[test]
fn extension_reproduces_trace_on_even_points() {
    let t = felts(&[9, 14, 3, 100, 0, 7, 21, 5]);
    let c = interpolate(&t).unwrap();
    let lde = extend(&c, 8);
    assert_eq!(lde.len(), 16);
    for i in 0..8 {
        assert_eq!(lde[2 * i].value(), t[i].value(), "mismatch at even point {}", i);
    }
}

#[test]
fn rejects_length_three() {
    let t = felts(&[1, 2, 3]);
    assert_eq!(generate_proof(&t).unwrap_err(), ProofError::InvalidTraceLength);
}

#[test]
fn rejects_empty_trace() {
    let t = felts(&[]);
    assert_eq!(generate_proof(&t).unwrap_err(), ProofError::InvalidTraceLength);
}

#[test]
fn golden_vector_root() {
    let t = felts(&[0, 1, 2, 3, 4, 5, 6, 7]);
    let p = generate_proof(&t).unwrap();
    assert_eq!(p.root.len(), 32);
    assert_eq!(
        hex(&p.root),
        "de528bf045f6110f8e59c6a8037548017a61a3a8b80350a027659eca03900255",
    );
}

#[test]
fn negative_verification() {
    let good = felts(&[0, 1, 2, 3, 4, 5, 6, 7]);
    let bad = felts(&[0, 1, 2, 3, 4, 6, 6, 7]);
    let p = generate_proof(&bad).unwrap();
    assert!(!verify_proof(&good, &p));
}

#[test]
fn sensitivity_at_every_index() {
    let vals: [u64; 8] = [0, 1, 2, 3, 4, 5, 6, 7];
    let t = felts(&vals);
    let p = generate_proof(&t).unwrap();
    for i in 0..8 {
        let mut changed = vals;
        changed[i] += 1000;
        let t2 = felts(&changed);
        assert!(!verify_proof(&t2, &p), "change at index {} went unnoticed", i);
    }
}

#[test]
fn verify_rejects_wrong_length_root() {
    let t = felts(&[5, 6, 7, 8]);
    let p = Proof { root: vec![0u8; 5] };
    assert!(!verify_proof(&t, &p));
}

#[test]
fn commit_rejects_length_three() {
    let vals = felts(&[1, 2, 3]);
    assert_eq!(commit(&vals).unwrap_err(), ProofError::CommitmentConstructionError);
}

#[test]
fn commit_rejects_empty() {
    let vals = felts(&[]);
    assert_eq!(commit(&vals).unwrap_err(), ProofError::CommitmentConstructionError);
}

#[test]
fn commit_of_single_value() {
    let vals = felts(&[77]);
    let root = commit(&vals).unwrap();
    assert_eq!(root.len(), 32);
    let again = commit(&vals).unwrap();
    assert_eq!(root, again);
}

#[test]
fn felt_reduces_modulo_prime() {
    assert_eq!(Felt::new(FIELD_MODULUS).value(), 0);
    assert_eq!(Felt::new(FIELD_MODULUS - 1).value(), FIELD_MODULUS - 1);
    assert_eq!(Felt::new(u64::MAX).value(), u64::MAX - FIELD_MODULUS);
}

#[test]
fn evaluate_concrete_polynomial() {
    // 3 + 5 x at x = 2
    let c = felts(&[3, 5]);
    let y = evaluate(&c, Felt::new(2));
    assert_eq!(y.value(), 13);
}

#[test]
fn evaluate_empty_polynomial_is_zero() {
    let c = felts(&[]);
    assert_eq!(evaluate(&c, Felt::new(9)).value(), 0);
}

#[test]
fn trace_domain_starts_at_one_and_is_distinct() {
    let xs = trace_domain(8);
    assert_eq!(xs.len(), 8);
    assert_eq!(xs[0].value(), 1);
    for i in 0..8 {
        for j in 0..i {
            assert_ne!(xs[i].value(), xs[j].value());
        }
    }
}
