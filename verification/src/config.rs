//! FRI parameter profiles of the STARK configurations.
//!
//! The recursive Tip5 profile over Goldilocks is a pure-query profile: no
//! proof-of-work grinding, so its soundness rests on the queries alone, and
//! it must provide at least 60 Johnson bits (`log_blowup * num_queries`).

use vstd::prelude::*;

verus! {

pub const GOLDILOCKS_TIP5_RECURSIVE_PURE_QUERY_LOG_BLOWUP: usize = 4;

pub const GOLDILOCKS_TIP5_RECURSIVE_PURE_QUERY_LOG_FINAL_POLY_LEN: usize = 2;

pub const GOLDILOCKS_TIP5_RECURSIVE_PURE_QUERY_MAX_LOG_ARITY: usize = 3;

pub const GOLDILOCKS_TIP5_RECURSIVE_PURE_QUERY_NUM_QUERIES: usize = 15;

pub const GOLDILOCKS_TIP5_RECURSIVE_PURE_QUERY_COMMIT_POW_BITS: usize = 0;

pub const GOLDILOCKS_TIP5_RECURSIVE_PURE_QUERY_QUERY_POW_BITS: usize = 0;

pub const GOLDILOCKS_TIP5_RECURSIVE_PURE_QUERY_CAP_HEIGHT: usize = 5;

pub const GOLDILOCKS_TIP5_RECURSIVE_PURE_QUERY_JOHNSON_BITS: usize =
    GOLDILOCKS_TIP5_RECURSIVE_PURE_QUERY_LOG_BLOWUP
        * GOLDILOCKS_TIP5_RECURSIVE_PURE_QUERY_NUM_QUERIES;

/// The FRI parameters of a configuration, with the cap height of its Merkle
/// commitments.
#[derive(Clone, Copy, Debug, PartialEq, Eq, Structural)]
pub struct FriProfile {
    pub log_blowup: usize,
    pub log_final_poly_len: usize,
    pub max_log_arity: usize,
    pub num_queries: usize,
    pub commit_proof_of_work_bits: usize,
    pub query_proof_of_work_bits: usize,
    pub cap_height: usize,
}

/// The Johnson bits of a pure-query profile.
pub open spec fn johnson_bits(log_blowup: nat, num_queries: nat) -> nat {
    log_blowup * num_queries
}

/// The recursive Tip5 pure-query profile with the given blowup, query
/// count and cap height.
pub open spec fn tip5_pure_query_profile(log_blowup: usize, num_queries: usize, cap_height: usize) -> FriProfile {
    FriProfile {
        log_blowup,
        log_final_poly_len: GOLDILOCKS_TIP5_RECURSIVE_PURE_QUERY_LOG_FINAL_POLY_LEN,
        max_log_arity: GOLDILOCKS_TIP5_RECURSIVE_PURE_QUERY_MAX_LOG_ARITY,
        num_queries,
        commit_proof_of_work_bits: GOLDILOCKS_TIP5_RECURSIVE_PURE_QUERY_COMMIT_POW_BITS,
        query_proof_of_work_bits: GOLDILOCKS_TIP5_RECURSIVE_PURE_QUERY_QUERY_POW_BITS,
        cap_height,
    }
}

/// The FRI parameters of the Goldilocks/Tip5 configuration.
fn goldilocks_tip5_with_fri_params(
    log_blowup: usize,
    log_final_poly_len: usize,
    max_log_arity: usize,
    num_queries: usize,
    commit_proof_of_work_bits: usize,
    query_proof_of_work_bits: usize,
    cap_height: usize,
) -> (r: FriProfile)
    ensures
        r == (FriProfile {
            log_blowup,
            log_final_poly_len,
            max_log_arity,
            num_queries,
            commit_proof_of_work_bits,
            query_proof_of_work_bits,
            cap_height,
        }),
{
    FriProfile {
        log_blowup,
        log_final_poly_len,
        max_log_arity,
        num_queries,
        commit_proof_of_work_bits,
        query_proof_of_work_bits,
        cap_height,
    }
}

/// The recursive Tip5 pure-query profile with a custom shape and cap
/// height, which must provide at least 60 Johnson bits.
pub fn goldilocks_tip5_pure_query_60bit_with_shape_and_cap(
    log_blowup: usize,
    num_queries: usize,
    cap_height: usize,
) -> (r: FriProfile)
    requires
        log_blowup * num_queries <= usize::MAX,
        johnson_bits(log_blowup as nat, num_queries as nat)
            >= GOLDILOCKS_TIP5_RECURSIVE_PURE_QUERY_JOHNSON_BITS,
    ensures
        r == tip5_pure_query_profile(log_blowup, num_queries, cap_height),
        r.log_blowup == log_blowup,
        r.num_queries == num_queries,
        r.cap_height == cap_height,
        r.log_final_poly_len == 2,
        r.max_log_arity == 3,
        r.commit_proof_of_work_bits == 0,
        r.query_proof_of_work_bits == 0,
{
    goldilocks_tip5_with_fri_params(
        log_blowup,
        GOLDILOCKS_TIP5_RECURSIVE_PURE_QUERY_LOG_FINAL_POLY_LEN,
        GOLDILOCKS_TIP5_RECURSIVE_PURE_QUERY_MAX_LOG_ARITY,
        num_queries,
        GOLDILOCKS_TIP5_RECURSIVE_PURE_QUERY_COMMIT_POW_BITS,
        GOLDILOCKS_TIP5_RECURSIVE_PURE_QUERY_QUERY_POW_BITS,
        cap_height,
    )
}

/// The recursive Tip5 pure-query profile with a custom shape and cap
/// height, or `None` where it provides fewer than 60 Johnson bits.
pub fn try_goldilocks_tip5_pure_query_60bit_with_shape_and_cap(
    log_blowup: usize,
    num_queries: usize,
    cap_height: usize,
) -> (r: Option<FriProfile>)
    ensures
        r is Some <==> johnson_bits(log_blowup as nat, num_queries as nat)
            >= GOLDILOCKS_TIP5_RECURSIVE_PURE_QUERY_JOHNSON_BITS,
        r matches Some(p) ==> p == tip5_pure_query_profile(log_blowup, num_queries, cap_height),
        r matches Some(p) ==> p.log_blowup == log_blowup && p.num_queries == num_queries
            && p.cap_height == cap_height && p.log_final_poly_len == 2 && p.max_log_arity == 3
            && p.commit_proof_of_work_bits == 0 && p.query_proof_of_work_bits == 0,
{
    match log_blowup.checked_mul(num_queries) {
        Some(bits) => {
            if bits >= GOLDILOCKS_TIP5_RECURSIVE_PURE_QUERY_JOHNSON_BITS {
                Some(
                    goldilocks_tip5_pure_query_60bit_with_shape_and_cap(
                        log_blowup,
                        num_queries,
                        cap_height,
                    ),
                )
            } else {
                None
            }
        },
        None => {
            // A budget too large for usize is far above 60 bits.
            proof {
                assert(log_blowup * num_queries > usize::MAX);
            }
            Some(
                FriProfile {
                    log_blowup,
                    log_final_poly_len: GOLDILOCKS_TIP5_RECURSIVE_PURE_QUERY_LOG_FINAL_POLY_LEN,
                    max_log_arity: GOLDILOCKS_TIP5_RECURSIVE_PURE_QUERY_MAX_LOG_ARITY,
                    num_queries,
                    commit_proof_of_work_bits: GOLDILOCKS_TIP5_RECURSIVE_PURE_QUERY_COMMIT_POW_BITS,
                    query_proof_of_work_bits: GOLDILOCKS_TIP5_RECURSIVE_PURE_QUERY_QUERY_POW_BITS,
                    cap_height,
                },
            )
        },
    }
}

/// The default recursive Tip5 pure-query profile: blowup `2^4`, 15
/// queries, cap height 5 (60 Johnson bits).
pub fn goldilocks_tip5_60bit() -> (r: FriProfile)
    ensures
        r == tip5_pure_query_profile(
            GOLDILOCKS_TIP5_RECURSIVE_PURE_QUERY_LOG_BLOWUP,
            GOLDILOCKS_TIP5_RECURSIVE_PURE_QUERY_NUM_QUERIES,
            GOLDILOCKS_TIP5_RECURSIVE_PURE_QUERY_CAP_HEIGHT,
        ),
        r.log_blowup == 4,
        r.num_queries == 15,
        r.cap_height == 5,
{
    goldilocks_tip5_pure_query_60bit_with_shape_and_cap(4, 15, 5)
}

/// The FRI profile of the Goldilocks/Blake3 configuration with the given
/// shape: no proof-of-work grinding.
pub fn goldilocks_blake3_fri_profile(
    log_blowup: usize,
    num_queries: usize,
    log_final_poly_len: usize,
    max_log_arity: usize,
    cap_height: usize,
) -> (r: FriProfile)
    ensures
        r == (FriProfile {
            log_blowup,
            log_final_poly_len,
            max_log_arity,
            num_queries,
            commit_proof_of_work_bits: GOLDILOCKS_TIP5_RECURSIVE_PURE_QUERY_COMMIT_POW_BITS,
            query_proof_of_work_bits: GOLDILOCKS_TIP5_RECURSIVE_PURE_QUERY_QUERY_POW_BITS,
            cap_height,
        }),
{
    FriProfile {
        log_blowup,
        log_final_poly_len,
        max_log_arity,
        num_queries,
        commit_proof_of_work_bits: GOLDILOCKS_TIP5_RECURSIVE_PURE_QUERY_COMMIT_POW_BITS,
        query_proof_of_work_bits: GOLDILOCKS_TIP5_RECURSIVE_PURE_QUERY_QUERY_POW_BITS,
        cap_height,
    }
}


/// The default recursive Tip5 profile pins exactly 60 Johnson bits, and
/// every pure-query profile the library hands out provides at least that
/// many, with no proof-of-work grinding.
pub proof fn lemma_tip5_profiles_provide_60_bits(log_blowup: usize, num_queries: usize, cap_height: usize)
    ensures
        GOLDILOCKS_TIP5_RECURSIVE_PURE_QUERY_JOHNSON_BITS == 60,
        johnson_bits(
            GOLDILOCKS_TIP5_RECURSIVE_PURE_QUERY_LOG_BLOWUP as nat,
            GOLDILOCKS_TIP5_RECURSIVE_PURE_QUERY_NUM_QUERIES as nat,
        ) == 60,
        johnson_bits(log_blowup as nat, num_queries as nat) >= 60 ==> {
            let p = tip5_pure_query_profile(log_blowup, num_queries, cap_height);
            &&& johnson_bits(p.log_blowup as nat, p.num_queries as nat) >= 60
            &&& p.commit_proof_of_work_bits == 0
            &&& p.query_proof_of_work_bits == 0
        },
{
}

/// A pure-query profile is built from exactly the blowup, query count and
/// cap height it is asked for, with a final polynomial of `2^2`
/// coefficients, folding arity at most `2^3` and no proof-of-work grinding.
pub proof fn lemma_tip5_profile_keeps_requested_shape(
    log_blowup: usize,
    num_queries: usize,
    cap_height: usize,
)
    ensures
        ({
            let p = tip5_pure_query_profile(log_blowup, num_queries, cap_height);
            &&& p.log_blowup == log_blowup
            &&& p.num_queries == num_queries
            &&& p.cap_height == cap_height
            &&& p.log_final_poly_len == 2
            &&& p.max_log_arity == 3
            &&& p.commit_proof_of_work_bits == 0
            &&& p.query_proof_of_work_bits == 0
        }),
{
}

} // verus!
