use recursion_core::config::{
    goldilocks_blake3_fri_profile, goldilocks_tip5_60bit,
    goldilocks_tip5_pure_query_60bit_with_shape_and_cap,
    try_goldilocks_tip5_pure_query_60bit_with_shape_and_cap, FriProfile,
    GOLDILOCKS_TIP5_RECURSIVE_PURE_QUERY_CAP_HEIGHT,
    GOLDILOCKS_TIP5_RECURSIVE_PURE_QUERY_JOHNSON_BITS,
    GOLDILOCKS_TIP5_RECURSIVE_PURE_QUERY_LOG_BLOWUP,
    GOLDILOCKS_TIP5_RECURSIVE_PURE_QUERY_LOG_FINAL_POLY_LEN,
    GOLDILOCKS_TIP5_RECURSIVE_PURE_QUERY_MAX_LOG_ARITY,
    GOLDILOCKS_TIP5_RECURSIVE_PURE_QUERY_NUM_QUERIES,
};

#[test]
fn goldilocks_tip5_pure_query_profile_pins_60_johnson_bits() {
    assert_eq!(
        GOLDILOCKS_TIP5_RECURSIVE_PURE_QUERY_LOG_BLOWUP
            * GOLDILOCKS_TIP5_RECURSIVE_PURE_QUERY_NUM_QUERIES,
        GOLDILOCKS_TIP5_RECURSIVE_PURE_QUERY_JOHNSON_BITS
    );
    assert_eq!(GOLDILOCKS_TIP5_RECURSIVE_PURE_QUERY_JOHNSON_BITS, 60);
    let _default = goldilocks_tip5_60bit();
    let _equivalent = goldilocks_tip5_pure_query_60bit_with_shape_and_cap(5, 12, 5);
}

#[test]
fn goldilocks_tip5_pure_query_profile_rejects_sub_60bit_query_budget() {
    let result = try_goldilocks_tip5_pure_query_60bit_with_shape_and_cap(4, 14, 5);
    assert!(result.is_none());
}

#[test]
fn default_tip5_profile_fields() {
    let p = goldilocks_tip5_60bit();
    assert_eq!(
        p,
        FriProfile {
            log_blowup: 4,
            log_final_poly_len: GOLDILOCKS_TIP5_RECURSIVE_PURE_QUERY_LOG_FINAL_POLY_LEN,
            max_log_arity: GOLDILOCKS_TIP5_RECURSIVE_PURE_QUERY_MAX_LOG_ARITY,
            num_queries: 15,
            commit_proof_of_work_bits: 0,
            query_proof_of_work_bits: 0,
            cap_height: GOLDILOCKS_TIP5_RECURSIVE_PURE_QUERY_CAP_HEIGHT,
        }
    );
    assert_eq!(p.log_final_poly_len, 2);
    assert_eq!(p.max_log_arity, 3);
    assert_eq!(p.log_blowup * p.num_queries, 60);
}

#[test]
fn tip5_profile_checked_accepts_exactly_60_bits_and_more() {
    assert_eq!(
        try_goldilocks_tip5_pure_query_60bit_with_shape_and_cap(5, 12, 3),
        Some(goldilocks_tip5_pure_query_60bit_with_shape_and_cap(5, 12, 3))
    );
    assert!(try_goldilocks_tip5_pure_query_60bit_with_shape_and_cap(6, 11, 3).is_some());
    assert!(try_goldilocks_tip5_pure_query_60bit_with_shape_and_cap(0, 100, 3).is_none());
    assert!(try_goldilocks_tip5_pure_query_60bit_with_shape_and_cap(usize::MAX, 2, 0).is_some());
}

#[test]
fn blake3_profile_has_no_grinding() {
    let p = goldilocks_blake3_fri_profile(3, 20, 1, 2, 4);
    assert_eq!(p.log_blowup, 3);
    assert_eq!(p.num_queries, 20);
    assert_eq!(p.log_final_poly_len, 1);
    assert_eq!(p.max_log_arity, 2);
    assert_eq!(p.cap_height, 4);
    assert_eq!(p.commit_proof_of_work_bits, 0);
    assert_eq!(p.query_proof_of_work_bits, 0);
}
