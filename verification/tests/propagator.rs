use hierarchical_info::HierarchyError;
use hierarchical_info::InitialPattern;
use hierarchical_info::Propagator;
use hierarchical_info::SimpleSeededRng;
use hierarchical_info::Ubig;

fn u(v: u64) -> Ubig {
    Ubig::from_u64(v)
}

fn is_u64(a: &Ubig, v: u64) -> bool {
    a.equals(&Ubig::from_u64(v))
}

fn example_propagator() -> Propagator {
    let pattern = InitialPattern::new(vec![u(0), u(3)], 2).unwrap();
    Propagator::new(pattern)
}

#[test]
fn valid_levels_over_base_four() {
    let pattern = InitialPattern::new(vec![u(0)], 4).unwrap();
    let p = Propagator::new(pattern);
    for t in [4usize, 8, 16, 32] {
        assert!(p.is_valid_hierarchical_level(t), "width {} should be valid", t);
    }
    for t in [0usize, 5, 6, 12] {
        assert!(!p.is_valid_hierarchical_level(t), "width {} should be invalid", t);
    }
}

#[test]
fn membership_on_worked_example() {
    let p = example_propagator();
    assert_eq!(p.is_member(&u(0), 4).unwrap(), true);
    assert_eq!(p.is_member(&u(3), 4).unwrap(), true);
    assert_eq!(p.is_member(&u(1), 4).unwrap(), false);
    assert_eq!(p.is_member(&u(15), 4).unwrap(), true);
    assert_eq!(p.is_member(&u(12), 4).unwrap(), true);
    assert_eq!(p.is_member(&u(7), 4).unwrap(), false);
}

#[test]
fn membership_at_base_width_is_set_membership() {
    let p = example_propagator();
    assert_eq!(p.is_member(&u(3), 2).unwrap(), true);
    assert_eq!(p.is_member(&u(2), 2).unwrap(), false);
}

#[test]
fn is_member_rejects_zero_width() {
    let p = example_propagator();
    let r = p.is_member(&u(0), 0);
    assert!(matches!(
        r,
        Err(HierarchyError::InvalidHierarchicalLevel { target_n_bits: 0, base_n_bits: 2 })
    ));
}

#[test]
fn is_member_rejects_oversized_value() {
    let p = example_propagator();
    let r = p.is_member(&u(16), 4);
    match r {
        Err(HierarchyError::ValueTooLargeForNBits { value, n_bits }) => {
            assert!(is_u64(&value, 16));
            assert_eq!(n_bits, 4);
        }
        other => panic!("expected ValueTooLargeForNBits, got {:?}", other),
    }
}

#[test]
fn is_member_rejects_invalid_level() {
    let p = example_propagator();
    let r = p.is_member(&u(0), 6);
    assert!(matches!(
        r,
        Err(HierarchyError::InvalidHierarchicalLevel { target_n_bits: 6, base_n_bits: 2 })
    ));
}

#[test]
fn level_check_precedes_range_check() {
    let p = example_propagator();
    let r = p.is_member(&u(100), 5);
    assert!(matches!(
        r,
        Err(HierarchyError::InvalidHierarchicalLevel { target_n_bits: 5, base_n_bits: 2 })
    ));
    let r = p.decompose_to_base(&u(100), 5);
    assert!(matches!(
        r,
        Err(HierarchyError::InvalidHierarchicalLevel { target_n_bits: 5, base_n_bits: 2 })
    ));
}

#[test]
fn decompose_on_worked_example() {
    let p = example_propagator();
    let c = p.decompose_to_base(&u(0), 4).unwrap();
    assert_eq!(c.len(), 2);
    assert!(is_u64(&c[0], 0));
    assert!(is_u64(&c[1], 0));
    let c = p.decompose_to_base(&u(3), 4).unwrap();
    assert_eq!(c.len(), 2);
    assert!(is_u64(&c[0], 0));
    assert!(is_u64(&c[1], 3));
}

#[test]
fn decompose_orders_upper_half_first() {
    let p = example_propagator();
    let c = p.decompose_to_base(&u(12), 4).unwrap();
    assert!(is_u64(&c[0], 3));
    assert!(is_u64(&c[1], 0));
}

#[test]
fn decompose_length_is_width_over_base() {
    let p = example_propagator();
    assert_eq!(p.decompose_to_base(&u(3), 2).unwrap().len(), 1);
    assert_eq!(p.decompose_to_base(&u(3), 4).unwrap().len(), 2);
    assert_eq!(p.decompose_to_base(&u(0x33), 8).unwrap().len(), 4);
    assert_eq!(p.decompose_to_base(&u(0x3333), 16).unwrap().len(), 8);
}

#[test]
fn decompose_rejects_non_member() {
    let p = example_propagator();
    let r = p.decompose_to_base(&u(1), 4);
    match r {
        Err(HierarchyError::NotAMember(v)) => assert!(is_u64(&v, 1)),
        other => panic!("expected NotAMember, got {:?}", other),
    }
}

#[test]
fn compose_on_worked_example() {
    let p = example_propagator();
    let (v, w) = p.compose_from_base(&vec![u(0), u(3)]).unwrap();
    assert!(is_u64(&v, 3));
    assert_eq!(w, 4);
}

#[test]
fn compose_shifts_upper_half_left() {
    let p = example_propagator();
    let (v, w) = p.compose_from_base(&vec![u(3), u(0)]).unwrap();
    assert!(is_u64(&v, 12));
    assert_eq!(w, 4);
    let (v, w) = p.compose_from_base(&vec![u(3), u(0), u(0), u(3)]).unwrap();
    assert!(is_u64(&v, 0xC3));
    assert_eq!(w, 8);
}

#[test]
fn compose_of_single_component() {
    let p = example_propagator();
    let (v, w) = p.compose_from_base(&vec![u(3)]).unwrap();
    assert!(is_u64(&v, 3));
    assert_eq!(w, 2);
}

#[test]
fn compose_rejects_three_components() {
    let p = example_propagator();
    let r = p.compose_from_base(&vec![u(0), u(3), u(0)]);
    assert!(matches!(r, Err(HierarchyError::InvalidComponentCount(3))));
}

#[test]
fn compose_rejects_empty_input() {
    let p = example_propagator();
    let r = p.compose_from_base(&Vec::new());
    assert!(matches!(r, Err(HierarchyError::InvalidComponentCount(0))));
}

#[test]
fn compose_rejects_component_outside_base_set() {
    let p = example_propagator();
    let r = p.compose_from_base(&vec![u(0), u(1)]);
    match r {
        Err(HierarchyError::InvalidBaseComponent(c)) => assert!(is_u64(&c, 1)),
        other => panic!("expected InvalidBaseComponent, got {:?}", other),
    }
}

#[test]
fn round_trip_decompose_then_compose() {
    let p = example_propagator();
    for (x, t) in [(0u64, 2usize), (3, 2), (3, 4), (12, 4), (0x33, 8), (0xC3C3, 16)] {
        let leaves = p.decompose_to_base(&u(x), t).unwrap();
        let (v, w) = p.compose_from_base(&leaves).unwrap();
        assert!(is_u64(&v, x), "round trip changed value {}", x);
        assert_eq!(w, t);
    }
}

#[test]
fn round_trip_on_multi_limb_value() {
    let p = example_propagator();
    let x = 0x3333333333333333u64;
    assert_eq!(p.is_member(&u(x), 64).unwrap(), true);
    let leaves = p.decompose_to_base(&u(x), 64).unwrap();
    assert_eq!(leaves.len(), 32);
    let (v, w) = p.compose_from_base(&leaves).unwrap();
    assert!(v.equals(&u(x)));
    assert_eq!(w, 64);
}

#[test]
fn generated_members_satisfy_membership() {
    let p = example_propagator();
    let mut rng = SimpleSeededRng::new(12345);
    for t in [2usize, 4, 8, 16, 32, 64] {
        let v = p.generate_random_s_n_member(t, &mut rng).unwrap();
        assert_eq!(p.is_member(&v, t).unwrap(), true, "generated value not a member at {}", t);
    }
}

#[test]
fn generation_rejects_invalid_level() {
    let p = example_propagator();
    let mut rng = SimpleSeededRng::new(1);
    let r = p.generate_random_s_n_member(5, &mut rng);
    assert!(matches!(
        r,
        Err(HierarchyError::InvalidHierarchicalLevel { target_n_bits: 5, base_n_bits: 2 })
    ));
}

#[test]
fn generation_is_deterministic_for_equal_sources() {
    let p = example_propagator();
    let mut rng1 = SimpleSeededRng::new(777);
    let mut rng2 = SimpleSeededRng::new(777);
    for t in [2usize, 4, 8, 16] {
        let a = p.generate_random_s_n_member(t, &mut rng1).unwrap();
        let b = p.generate_random_s_n_member(t, &mut rng2).unwrap();
        assert!(a.equals(&b), "same source state produced different members at {}", t);
    }
}

#[test]
fn generation_differs_from_membership_identity() {
    let p = example_propagator();
    let mut rng = SimpleSeededRng::new(99);
    let v = p.generate_random_s_n_member(4, &mut rng).unwrap();
    let leaves = p.decompose_to_base(&v, 4).unwrap();
    assert_eq!(leaves.len(), 2);
    for leaf in &leaves {
        assert!(is_u64(leaf, 0) || is_u64(leaf, 3));
    }
}

#[test]
fn propagator_exposes_its_pattern() {
    let p = example_propagator();
    assert_eq!(p.initial_pattern().n_base_bits, 2);
    assert!(p.initial_pattern().contains_value(&u(3)));
}
