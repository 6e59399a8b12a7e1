use hierarchical_info::HierarchyError;
use hierarchical_info::InitialPattern;
use hierarchical_info::Ubig;

fn u(v: u64) -> Ubig {
    Ubig::from_u64(v)
}

fn is_u64(a: &Ubig, v: u64) -> bool {
    a.equals(&Ubig::from_u64(v))
}

#[test]
fn pattern_rejects_zero_width() {
    let r = InitialPattern::new(vec![u(0)], 0);
    assert!(matches!(r, Err(HierarchyError::NonPositiveNBits(0))));
}

#[test]
fn pattern_rejects_empty_set() {
    let r = InitialPattern::new(Vec::new(), 2);
    assert!(matches!(r, Err(HierarchyError::EmptySBaseValues)));
}

#[test]
fn new_reports_first_out_of_range_value() {
    let r = InitialPattern::new(vec![u(0), u(1), u(4)], 2);
    match r {
        Err(HierarchyError::ValueExceedsNBaseBits { value, n_bits, max_val }) => {
            assert!(is_u64(&value, 4));
            assert_eq!(n_bits, 2);
            assert!(is_u64(&max_val, 3));
        }
        other => panic!("expected ValueExceedsNBaseBits, got {:?}", other),
    }
}

#[test]
fn new_accepts_full_range() {
    let p = InitialPattern::new(vec![u(0), u(1), u(2), u(3)], 2).unwrap();
    assert_eq!(p.n_base_bits, 2);
    assert_eq!(p.s_base_values.len(), 4);
}

#[test]
fn new_keeps_duplicates_once() {
    let p = InitialPattern::new(vec![u(0), u(3), u(3), u(0)], 2).unwrap();
    assert_eq!(p.s_base_values.len(), 2);
    assert!(p.contains_value(&u(0)));
    assert!(p.contains_value(&u(3)));
    assert!(!p.contains_value(&u(1)));
}

#[test]
fn boundary_value_is_accepted() {
    let p = InitialPattern::new(vec![u(3)], 2).unwrap();
    assert!(p.contains_value(&u(3)));
}
