use recursion_core::pow2::{next_power_of_two, pow2_usize};

#[test]
fn next_power_of_two_matches_std() {
    for x in [0usize, 1, 2, 3, 4, 5, 7, 8, 9, 100, 1023, 1024, 1025, 1 << 40] {
        assert_eq!(next_power_of_two(x), x.next_power_of_two());
    }
}

#[test]
fn pow2_usize_values() {
    assert_eq!(pow2_usize(0), 1);
    assert_eq!(pow2_usize(1), 2);
    assert_eq!(pow2_usize(10), 1024);
    assert_eq!(pow2_usize(40), 1usize << 40);
}
