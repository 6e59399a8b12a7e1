use hierarchical_info::HierarchyError;
use hierarchical_info::PairedEntity;
use hierarchical_info::Ubig;

fn u(v: u64) -> Ubig {
    Ubig::from_u64(v)
}

fn is_u64(a: &Ubig, v: u64) -> bool {
    a.equals(&Ubig::from_u64(v))
}

#[test]
fn new_computes_complement() {
    let pe = PairedEntity::new(u(3), 4).unwrap();
    assert!(is_u64(&pe.x, 3));
    assert!(is_u64(&pe.x_prime, 12));
    assert_eq!(pe.n_bits, 4);
}

#[test]
fn new_keeps_value_first_without_canonicalizing() {
    let pe = PairedEntity::new(u(12), 4).unwrap();
    assert!(is_u64(&pe.x, 12));
    assert!(is_u64(&pe.x_prime, 3));
}

#[test]
fn new_complement_formula_on_several_widths() {
    let pe = PairedEntity::new(u(0), 1).unwrap();
    assert!(is_u64(&pe.x_prime, 1));
    let pe = PairedEntity::new(u(5), 4).unwrap();
    assert!(is_u64(&pe.x_prime, 10));
    let pe = PairedEntity::new(u(200), 8).unwrap();
    assert!(is_u64(&pe.x_prime, 55));
}

#[test]
fn new_rejects_zero_width() {
    let r = PairedEntity::new(u(0), 0);
    assert!(matches!(r, Err(HierarchyError::NonPositiveNBits(0))));
}

#[test]
fn new_rejects_oversized_value() {
    let r = PairedEntity::new(u(16), 4);
    match r {
        Err(HierarchyError::ValueTooLargeForNBits { value, n_bits }) => {
            assert!(is_u64(&value, 16));
            assert_eq!(n_bits, 4);
        }
        other => panic!("expected ValueTooLargeForNBits, got {:?}", other),
    }
}

#[test]
fn canonical_keeps_smaller_value_first() {
    let pe = PairedEntity::new_canonical_from_x(u(12), 4).unwrap();
    assert!(is_u64(&pe.x, 3));
    assert!(is_u64(&pe.x_prime, 12));
    assert!(pe.x.le(&pe.x_prime));
}

#[test]
fn canonical_of_value_and_of_complement_agree() {
    let a = PairedEntity::new_canonical_from_x(u(3), 4).unwrap();
    let b = PairedEntity::new_canonical_from_x(u(12), 4).unwrap();
    assert!(a.x.equals(&b.x));
    assert!(a.x_prime.equals(&b.x_prime));
    assert_eq!(a.n_bits, b.n_bits);
}

#[test]
fn from_pair_rejects_non_complementary_values() {
    let r = PairedEntity::new_from_pair_assert_canonical(u(3), u(3), 4);
    match r {
        Err(HierarchyError::NonComplementaryPair { val1, val2_complement, n_bits }) => {
            assert!(is_u64(&val1, 3));
            assert!(is_u64(&val2_complement, 3));
            assert_eq!(n_bits, 4);
        }
        other => panic!("expected NonComplementaryPair, got {:?}", other),
    }
}

#[test]
fn from_pair_orders_canonically() {
    let pe = PairedEntity::new_from_pair_assert_canonical(u(12), u(3), 4).unwrap();
    assert!(is_u64(&pe.x, 3));
    assert!(is_u64(&pe.x_prime, 12));
}

#[test]
fn from_pair_rejects_oversized_second_value() {
    let r = PairedEntity::new_from_pair_assert_canonical(u(3), u(16), 4);
    match r {
        Err(HierarchyError::ValueTooLargeForNBits { value, n_bits }) => {
            assert!(is_u64(&value, 16));
            assert_eq!(n_bits, 4);
        }
        other => panic!("expected ValueTooLargeForNBits, got {:?}", other),
    }
}
