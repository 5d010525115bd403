use recipes::unit::unit_needs_space;

#[test]
fn unit_test() {
    assert!(unit_needs_space("a"));
    assert!(unit_needs_space("k"));
    assert!(!unit_needs_space("kg"));
    assert!(!unit_needs_space("g"));
}

#[test]
fn micro_prefix_and_plain_units() {
    assert!(!unit_needs_space("µl"));
    assert!(!unit_needs_space("ml"));
    // A lone "m" reads as the milli prefix with nothing after it, not as the
    // metre, so it gets a space.
    assert!(unit_needs_space("m"));
    assert!(unit_needs_space("Stück"));
    assert!(!unit_needs_space(""));
}
