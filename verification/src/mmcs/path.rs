//! The binary and 4-to-1 Merkle-path gadgets that the circuit builder
//! records.

use vstd::prelude::*;

use crate::circuit::{
    allocated_outputs, exposed_count, exposes, lemma_exposed_count_none, lemma_exposed_count_prefix,
    BuilderView, CircuitBuilder, CircuitBuilderError, ConfigMismatch, ExprId, NonPrimitiveOpId,
    PermCall, PermCallView, PermConfig, PermRowView,
};
use crate::mmcs::openings::opened_rows;

verus! {

/// Input limbs of a state of width `w`: the first `g` entries of `row` (or
/// all of it, where shorter) from limb `offset` on, the other limbs empty.
pub open spec fn digest_inputs(w: nat, g: nat, row: Seq<ExprId>, offset: nat) -> Seq<Option<ExprId>> {
    Seq::new(
        w,
        |k: int|
            if offset <= k < offset + row.len() && k < offset + g {
                Some(row[k - offset])
            } else {
                None
            },
    )
}

/// `len` output-control flags, all equal to `value`.
pub open spec fn flags(len: nat, value: bool) -> Seq<bool> {
    Seq::new(len, |k: int| value)
}

/// A Merkle path ends with a tail digest: there is an opening past the
/// last level, and it is not empty.
pub open spec fn has_tail(openings: Seq<Seq<ExprId>>, levels: nat) -> bool {
    openings.len() > levels && openings[levels as int].len() > 0
}

/// The row that injects a digest into the upper half of the running state
/// (a sibling-compression step at a level above the leaf, or the tail):
/// direction bit pinned to `zero`, outputs exposed where `expose`.
pub open spec fn injection_call(cfg: PermConfig, row: Seq<ExprId>, zero: ExprId, expose: bool) -> PermCallView {
    PermCallView {
        new_start: false,
        merkle_path: true,
        mmcs_bit: Some(zero),
        mmcs_bit2: None,
        inputs: digest_inputs(cfg.spec_width_ext(), cfg.spec_digest_ext(), row, cfg.spec_digest_ext()),
        out_ctl: flags(cfg.spec_digest_ext(), expose),
        return_all_outputs: false,
        mmcs_index_sum: None,
    }
}

/// The compression row of level `i`, steered by the direction `dirs[i]`;
/// level 0 starts the chain from the leaf digest `openings[0]`.
pub open spec fn path_call(
    cfg: PermConfig,
    openings: Seq<Seq<ExprId>>,
    dirs: Seq<ExprId>,
    i: int,
    is_final: bool,
) -> PermCallView {
    PermCallView {
        new_start: i == 0,
        merkle_path: true,
        mmcs_bit: Some(dirs[i]),
        mmcs_bit2: None,
        inputs: if i == 0 {
            digest_inputs(cfg.spec_width_ext(), cfg.spec_digest_ext(), openings[0], 0)
        } else {
            digest_inputs(cfg.spec_width_ext(), cfg.spec_digest_ext(), Seq::empty(), 0)
        },
        out_ctl: flags(cfg.spec_digest_ext(), is_final),
        return_all_outputs: false,
        mmcs_index_sum: None,
    }
}

/// Whether level `i` of the path is the last row of the whole chain.
pub open spec fn is_final_level(openings: Seq<Seq<ExprId>>, levels: nat, i: int) -> bool {
    i == levels - 1 && !has_tail(openings, levels)
}

/// Level `i > 0` first injects its (non-empty) row digest.
pub open spec fn has_injection(openings: Seq<Seq<ExprId>>, i: int) -> bool {
    i > 0 && openings[i].len() > 0
}

/// The rows of levels `0..k` of a binary Merkle path, in order.
pub open spec fn level_calls(
    cfg: PermConfig,
    openings: Seq<Seq<ExprId>>,
    dirs: Seq<ExprId>,
    zero: ExprId,
    k: int,
) -> Seq<PermCallView>
    decreases k,
{
    if k <= 0 {
        Seq::empty()
    } else {
        level_calls(cfg, openings, dirs, zero, k - 1) + (if has_injection(openings, k - 1) {
            seq![injection_call(cfg, openings[k - 1], zero, false)]
        } else {
            Seq::empty()
        }) + seq![
            path_call(cfg, openings, dirs, k - 1, is_final_level(openings, dirs.len(), k - 1)),
        ]
    }
}

/// All rows of a binary Merkle path: the levels, then the tail digest.
pub open spec fn binary_path_calls(
    cfg: PermConfig,
    openings: Seq<Seq<ExprId>>,
    dirs: Seq<ExprId>,
    zero: ExprId,
) -> Seq<PermCallView> {
    level_calls(cfg, openings, dirs, zero, dirs.len() as int) + if has_tail(openings, dirs.len()) {
        seq![injection_call(cfg, openings[dirs.len() as int], zero, true)]
    } else {
        Seq::empty()
    }
}

/// Rows issued for the levels `0..k`.
pub open spec fn rows_through(openings: Seq<Seq<ExprId>>, k: int) -> nat
    decreases k,
{
    if k <= 0 {
        0
    } else {
        rows_through(openings, k - 1) + if has_injection(openings, k - 1) {
            2nat
        } else {
            1nat
        }
    }
}

/// The position of level `i`'s compression row among the rows issued.
pub open spec fn path_row_position(openings: Seq<Seq<ExprId>>, i: int) -> nat {
    (rows_through(openings, i + 1) - 1) as nat
}

/// The rows recorded for the calls `calls`, numbered from `first_op`, with
/// exposed outputs allocated from `base` on.
pub open spec fn recorded_rows(
    first_op: nat,
    base: nat,
    cfg: PermConfig,
    calls: Seq<PermCallView>,
) -> Seq<PermRowView> {
    Seq::new(
        calls.len(),
        |t: int|
            PermRowView {
                op_id: NonPrimitiveOpId((first_op + t) as u32),
                config: cfg,
                call: calls[t],
                outputs: allocated_outputs(base, calls[t], cfg.spec_width_ext()),
            },
    )
}

pub proof fn lemma_level_calls_len(
    cfg: PermConfig,
    openings: Seq<Seq<ExprId>>,
    dirs: Seq<ExprId>,
    zero: ExprId,
    k: int,
)
    requires
        k >= 0,
    ensures
        level_calls(cfg, openings, dirs, zero, k).len() == rows_through(openings, k),
        rows_through(openings, k) <= 2 * k,
        k > 0 ==> rows_through(openings, k) >= 1,
    decreases k,
{
    if k > 0 {
        lemma_level_calls_len(cfg, openings, dirs, zero, k - 1);
    }
}

/// Builds the input limbs `digest_inputs(width, digest, row, offset)`.
fn digest_input_limbs(width: usize, digest: usize, row: &[ExprId], offset: usize) -> (r: Vec<
    Option<ExprId>,
>)
    requires
        offset + digest <= width,
    ensures
        r@ == digest_inputs(width as nat, digest as nat, row@, offset as nat),
{
    let mut r: Vec<Option<ExprId>> = Vec::new();
    let mut k: usize = 0;
    while k < width
        invariant
            k <= width,
            offset + digest <= width,
            r@ =~= digest_inputs(width as nat, digest as nat, row@, offset as nat).subrange(
                0,
                k as int,
            ),
        decreases width - k,
    {
        if offset <= k && k - offset < row.len() && k - offset < digest {
            r.push(Some(row[k - offset]));
        } else {
            r.push(None);
        }
        k = k + 1;
    }
    r
}

/// `len` flags equal to `value`.
fn flag_vec(len: usize, value: bool) -> (r: Vec<bool>)
    ensures
        r@ == flags(len as nat, value),
{
    let mut r: Vec<bool> = Vec::new();
    let mut k: usize = 0;
    while k < len
        invariant
            k <= len,
            r@ =~= flags(k as nat, value),
        decreases len - k,
    {
        r.push(value);
        k = k + 1;
    }
    r
}

/// What a call allocates: nothing where it exposes no output, the first
/// `g` expressions where it exposes exactly the limbs `0..g`.
proof fn lemma_flag_outputs(call: PermCallView, w: nat, g: nat, base: nat)
    requires
        !call.return_all_outputs,
        g <= w,
        call.out_ctl.len() == g,
        forall|k: int| 0 <= k < g ==> #[trigger] call.out_ctl[k] == call.out_ctl[0],
    ensures
        !call.out_ctl[0] || g == 0 ==> exposed_count(call, w as int) == 0 && forall|k: int|
            0 <= k < w ==> #[trigger] allocated_outputs(base, call, w)[k] is None,
        call.out_ctl[0] && g > 0 ==> exposed_count(call, w as int) == g && forall|k: int|
            0 <= k < w ==> #[trigger] allocated_outputs(base, call, w)[k] == if k < g {
                Some(ExprId((base + k) as u32))
            } else {
                None
            },
{
    if !call.out_ctl[0] || g == 0 {
        lemma_exposed_count_none(call, w as int);
    } else {
        lemma_exposed_count_prefix(call, g as int, w as int);
        assert forall|k: int| 0 <= k < w implies #[trigger] allocated_outputs(base, call, w)[k]
            == if k < g {
            Some(ExprId((base + k) as u32))
        } else {
            None
        } by {
            if k < g {
                lemma_exposed_count_prefix(call, k, k);
            }
        }
    }
}


/// The builder after defining the constant zero.
pub open spec fn with_zero_const(old: BuilderView) -> BuilderView {
    BuilderView {
        num_exprs: old.num_exprs + 1,
        constants: old.constants.push((ExprId(old.num_exprs as u32), 0)),
        ..old
    }
}

/// The view of a list of op ids, or of the error.
pub open spec fn ops_view(r: Result<Vec<NonPrimitiveOpId>, CircuitBuilderError>) -> Result<
    Seq<NonPrimitiveOpId>,
    CircuitBuilderError,
> {
    match r {
        Ok(v) => Ok(v@),
        Err(e) => Err(e),
    }
}

/// What `add_mmcs_verify` returns and leaves in the builder.
///
/// The constant zero is defined first. Without levels, the leaf digest
/// (the first opening, or nothing) is itself the root and is connected to
/// it limb by limb. Otherwise the rows of `binary_path_calls` are issued;
/// only the last of them (the last level's compression, or the tail
/// injection) exposes the `digest_ext` output limbs, which get the
/// expressions following the constant and are connected to the root. The op
/// ids returned are those of the levels' compression rows.
pub open spec fn binary_outcome(
    old: BuilderView,
    cfg: PermConfig,
    openings: Seq<Seq<ExprId>>,
    dirs: Seq<ExprId>,
    root: Seq<ExprId>,
) -> (Result<Seq<NonPrimitiveOpId>, CircuitBuilderError>, BuilderView) {
    let zero = ExprId(old.num_exprs as u32);
    let after_zero = with_zero_const(old);
    if dirs.len() == 0 {
        let leaf = if openings.len() > 0 {
            openings[0]
        } else {
            Seq::empty()
        };
        if leaf.len() != root.len() {
            (
                Err(
                    CircuitBuilderError::InvalidDimension {
                        expected: leaf.len() as usize,
                        actual: root.len() as usize,
                    },
                ),
                after_zero,
            )
        } else {
            (
                Ok(Seq::empty()),
                BuilderView {
                    connections: after_zero.connections + Seq::new(
                        leaf.len(),
                        |k: int| (leaf[k], root[k]),
                    ),
                    ..after_zero
                },
            )
        }
    } else if !old.enabled.contains(cfg.spec_npo_type_id()) {
        (
            Err(CircuitBuilderError::NonPrimitiveOpNotEnabled { op: cfg.spec_npo_type_id() }),
            after_zero,
        )
    } else {
        let base = old.num_exprs + 1;
        let g = cfg.spec_digest_ext();
        let built = BuilderView {
            num_exprs: base + g,
            rows: old.rows + recorded_rows(
                old.rows.len(),
                base,
                cfg,
                binary_path_calls(cfg, openings, dirs, zero),
            ),
            ..after_zero
        };
        if root.len() != g {
            (
                Err(
                    CircuitBuilderError::InvalidDimension {
                        expected: g as usize,
                        actual: root.len() as usize,
                    },
                ),
                built,
            )
        } else {
            (
                Ok(
                    Seq::new(
                        dirs.len(),
                        |i: int|
                            NonPrimitiveOpId(
                                (old.rows.len() + path_row_position(openings, i)) as u32,
                            ),
                    ),
                ),
                BuilderView {
                    connections: built.connections + Seq::new(
                        g,
                        |k: int| (ExprId((base + k) as u32), root[k]),
                    ),
                    ..built
                },
            )
        }
    }
}

impl CircuitBuilder {
    /// Verifies a Merkle path in the circuit.
    ///
    /// `openings_expr` holds the row digests at each tree level. When its
    /// length equals `directions_expr.len()`, every entry belongs to a
    /// compression step; when it is `directions_expr.len() + 1` and the extra
    /// entry is not empty, that entry is a tail digest, compressed into the
    /// running hash after the last level and before the root comparison.
    /// Without levels, the leaf digest is the root itself.
    pub fn add_mmcs_verify(
        &mut self,
        permutation_config: PermConfig,
        openings_expr: &[Vec<ExprId>],
        directions_expr: &[ExprId],
        root_expr: &[ExprId],
    ) -> (r: Result<Vec<NonPrimitiveOpId>, CircuitBuilderError>)
        requires
            directions_expr@.len() > 0 ==> openings_expr@.len() >= directions_expr@.len(),
            old(self)@.has_room(
                1 + if directions_expr@.len() > 0 {
                    permutation_config.spec_digest_ext()
                } else {
                    0
                },
            ),
            old(self)@.has_row_room(2 * directions_expr@.len() + 1),
        ensures
            ops_view(r) == binary_outcome(
                old(self)@,
                permutation_config,
                opened_rows(openings_expr@),
                directions_expr@,
                root_expr@,
            ).0,
            final(self)@ == binary_outcome(
                old(self)@,
                permutation_config,
                opened_rows(openings_expr@),
                directions_expr@,
                root_expr@,
            ).1,
    {
        let ghost old_v = self@;
        let ghost openings = opened_rows(openings_expr@);
        let ghost dirs = directions_expr@;
        let width_ext = permutation_config.width_ext();
        let digest_ext = permutation_config.digest_ext();
        let mut op_ids: Vec<NonPrimitiveOpId> = Vec::new();
        let zero = self.define_const(0);
        let ghost after_zero = self@;
        let no_row: Vec<ExprId> = Vec::new();
        // With no authentication path the leaf digest is the committed root.
        if directions_expr.len() == 0 {
            let leaf: &[ExprId] = if openings_expr.len() > 0 {
                openings_expr[0].as_slice()
            } else {
                no_row.as_slice()
            };
            if leaf.len() != root_expr.len() {
                return Err(
                    CircuitBuilderError::InvalidDimension {
                        expected: leaf.len(),
                        actual: root_expr.len(),
                    },
                );
            }
            let mut k: usize = 0;
            while k < leaf.len()
                invariant
                    k <= leaf.len(),
                    leaf.len() == root_expr.len(),
                    self@ == (BuilderView {
                        connections: after_zero.connections + Seq::new(
                            k as nat,
                            |t: int| (leaf@[t], root_expr@[t]),
                        ),
                        ..after_zero
                    }),
                decreases leaf.len() - k,
            {
                self.connect(leaf[k], root_expr[k]);
                k = k + 1;
                proof {
                    assert(self@.connections =~= after_zero.connections + Seq::new(
                        k as nat,
                        |t: int| (leaf@[t], root_expr@[t]),
                    ));
                }
            }
            proof {
                if openings_expr.len() > 0 {
                    assert(leaf@ == openings[0]);
                } else {
                    assert(leaf@ =~= Seq::<ExprId>::empty());
                }
            }
            return Ok(op_ids);
        }
        let n = directions_expr.len();
        let tail_present = openings_expr.len() > n && openings_expr[n].len() > 0;
        let ghost base = old_v.num_exprs + 1;
        let ghost first_op = old_v.rows.len();
        let mut output: Vec<Option<ExprId>> = digest_input_limbs(
            width_ext,
            digest_ext,
            no_row.as_slice(),
            0,
        );
        let mut i: usize = 0;
        while i < n
            invariant
                0 <= i <= n,
                old_v == old(self)@,
                n == dirs.len(),
                n > 0,
                openings_expr@.len() >= n,
                openings == opened_rows(openings_expr@),
                dirs == directions_expr@,
                tail_present == has_tail(openings, n as nat),
                width_ext == permutation_config.spec_width_ext(),
                digest_ext == permutation_config.spec_digest_ext(),
                permutation_config.shape_ok(),
                zero == ExprId(old_v.num_exprs as u32),
                base == old_v.num_exprs + 1,
                first_op == old_v.rows.len(),
                old_v.has_room(1 + permutation_config.spec_digest_ext()),
                old_v.has_row_room((2 * n + 1) as nat),
                after_zero == with_zero_const(old_v),
                i > 0 ==> old_v.enabled.contains(permutation_config.spec_npo_type_id()),
                self@ == (BuilderView {
                    num_exprs: base + if i == n && !tail_present {
                        digest_ext as nat
                    } else {
                        0
                    },
                    rows: old_v.rows + recorded_rows(
                        first_op,
                        base,
                        permutation_config,
                        level_calls(permutation_config, openings, dirs, zero, i as int),
                    ),
                    ..after_zero
                }),
                no_row@ == Seq::<ExprId>::empty(),
                op_ids@ == Seq::new(
                    i as nat,
                    |l: int| NonPrimitiveOpId((first_op + path_row_position(openings, l)) as u32),
                ),
                i > 0 ==> output@ == allocated_outputs(
                    base,
                    path_call(
                        permutation_config,
                        openings,
                        dirs,
                        i - 1,
                        is_final_level(openings, n as nat, i - 1),
                    ),
                    width_ext as nat,
                ),
            decreases n - i,
        {
            let is_first = i == 0;
            let is_final = i == n - 1 && !tail_present;
            let ghost level_start = self@;
            proof {
                lemma_level_calls_len(permutation_config, openings, dirs, zero, i as int);
            }
            if !is_first && openings_expr[i].len() > 0 {
                let inputs = digest_input_limbs(
                    width_ext,
                    digest_ext,
                    openings_expr[i].as_slice(),
                    digest_ext,
                );
                let call = PermCall {
                    new_start: false,
                    merkle_path: true,
                    mmcs_bit: Some(zero),
                    mmcs_bit2: None,
                    inputs,
                    out_ctl: flag_vec(digest_ext, false),
                    return_all_outputs: false,
                    mmcs_index_sum: None,
                };
                let ghost call_view = call@;
                proof {
                    assert(call_view =~= injection_call(
                        permutation_config,
                        openings[i as int],
                        zero,
                        false,
                    ));
                    lemma_flag_outputs(call_view, width_ext as nat, digest_ext as nat, base);
                }
                match self.add_perm(permutation_config, call) {
                    Ok(_) => {},
                    Err(e) => {
                        return Err(e);
                    },
                }
            }
            let ghost mid = self@;
            let inputs = if is_first {
                digest_input_limbs(width_ext, digest_ext, openings_expr[0].as_slice(), 0)
            } else {
                digest_input_limbs(width_ext, digest_ext, no_row.as_slice(), 0)
            };
            let call = PermCall {
                new_start: is_first,
                merkle_path: true,
                mmcs_bit: Some(directions_expr[i]),
                mmcs_bit2: None,
                inputs,
                out_ctl: flag_vec(digest_ext, is_final),
                return_all_outputs: false,
                mmcs_index_sum: None,
            };
            let ghost call_view = call@;
            proof {
                assert(openings[0] == openings_expr@[0]@);
                assert(no_row@ =~= Seq::<ExprId>::empty());
                assert(call_view.inputs =~= path_call(
                    permutation_config,
                    openings,
                    dirs,
                    i as int,
                    is_final,
                ).inputs);
                assert(call_view =~= path_call(permutation_config, openings, dirs, i as int, is_final));
                assert(call_view.inputs.len() == width_ext);
                assert(call_view.out_ctl.len() <= width_ext);
                lemma_flag_outputs(call_view, width_ext as nat, digest_ext as nat, base);
            }
            match self.add_perm(permutation_config, call) {
                Ok((op_id, maybe_output)) => {
                    op_ids.push(op_id);
                    output = maybe_output;
                },
                Err(e) => {
                    proof {
                        // Only a table that is not enabled refuses a row, so
                        // this is the first row and nothing has been recorded.
                        assert(!old_v.enabled.contains(permutation_config.spec_npo_type_id()));
                        assert(self@ =~= after_zero);
                    }
                    return Err(e);
                },
            }
            proof {
                let calls_i = level_calls(permutation_config, openings, dirs, zero, i as int);
                let calls_next = level_calls(permutation_config, openings, dirs, zero, i + 1);
                assert(self@.rows =~= old_v.rows + recorded_rows(
                    first_op,
                    base,
                    permutation_config,
                    calls_next,
                ));
                assert(op_ids@ =~= Seq::new(
                    (i + 1) as nat,
                    |l: int| NonPrimitiveOpId((first_op + path_row_position(openings, l)) as u32),
                ));
            }
            i = i + 1;
        }
        proof {
            lemma_level_calls_len(permutation_config, openings, dirs, zero, n as int);
        }
        if tail_present {
            let inputs = digest_input_limbs(
                width_ext,
                digest_ext,
                openings_expr[n].as_slice(),
                digest_ext,
            );
            let call = PermCall {
                new_start: false,
                merkle_path: true,
                mmcs_bit: Some(zero),
                mmcs_bit2: None,
                inputs,
                out_ctl: flag_vec(digest_ext, true),
                return_all_outputs: false,
                mmcs_index_sum: None,
            };
            let ghost call_view = call@;
            proof {
                assert(call_view =~= injection_call(
                    permutation_config,
                    openings[n as int],
                    zero,
                    true,
                ));
                lemma_flag_outputs(call_view, width_ext as nat, digest_ext as nat, base);
            }
            match self.add_perm(permutation_config, call) {
                Ok((_, tail_output)) => {
                    output = tail_output;
                },
                Err(e) => {
                    return Err(e);
                },
            }
        }
        proof {
            let calls = binary_path_calls(permutation_config, openings, dirs, zero);
            assert(self@.rows =~= old_v.rows + recorded_rows(first_op, base, permutation_config, calls));
            if !tail_present {
                let last = path_call(permutation_config, openings, dirs, n - 1, true);
                lemma_flag_outputs(last, width_ext as nat, digest_ext as nat, base);
            }
            // The last row exposes the first digest_ext limbs, with the expressions after the constant.
            assert(forall|k: int|
                0 <= k < width_ext ==> #[trigger] output@[k] == if k < digest_ext {
                    Some(ExprId((base + k) as u32))
                } else {
                    None
                });
        }
        let mut digest: Vec<ExprId> = Vec::new();
        let mut k: usize = 0;
        while k < digest_ext && k < output.len()
            invariant
                k <= digest_ext,
                digest_ext <= width_ext,
                output@.len() == width_ext,
                base + digest_ext <= u32::MAX,
                forall|t: int|
                    0 <= t < width_ext ==> #[trigger] output@[t] == if t < digest_ext {
                        Some(ExprId((base + t) as u32))
                    } else {
                        None
                    },
                digest@ == Seq::new(k as nat, |t: int| ExprId((base + t) as u32)),
            decreases digest_ext - k,
        {
            match output[k] {
                Some(e) => {
                    digest.push(e);
                },
                None => {
                    return Err(
                        CircuitBuilderError::MalformedNonPrimitiveOutputs {
                            op_id: op_ids[op_ids.len() - 1],
                        },
                    );
                },
            }
            k = k + 1;
            proof {
                assert(digest@ =~= Seq::new(k as nat, |t: int| ExprId((base + t) as u32)));
            }
        }
        // The claimed root must have exactly as many limbs as the computed root digest.
        if digest.len() != root_expr.len() {
            return Err(
                CircuitBuilderError::InvalidDimension {
                    expected: digest.len(),
                    actual: root_expr.len(),
                },
            );
        }
        let ghost built = self@;
        let mut k: usize = 0;
        while k < digest.len()
            invariant
                k <= digest.len(),
                digest.len() == root_expr.len(),
                self@ == (BuilderView {
                    connections: built.connections + Seq::new(
                        k as nat,
                        |t: int| (digest@[t], root_expr@[t]),
                    ),
                    ..built
                }),
            decreases digest.len() - k,
        {
            self.connect(digest[k], root_expr[k]);
            k = k + 1;
            proof {
                assert(self@.connections =~= built.connections + Seq::new(
                    k as nat,
                    |t: int| (digest@[t], root_expr@[t]),
                ));
            }
        }
        Ok(op_ids)
    }
}


/// The leaf-hash row of a 4-to-1 Merkle path: absorbs the leaf from limb 0
/// on and starts the chain; its direction bits are pinned to `zero`.
pub open spec fn leaf_hash_call(cfg: PermConfig, leaf: Seq<ExprId>, zero: ExprId) -> PermCallView {
    PermCallView {
        new_start: true,
        merkle_path: true,
        mmcs_bit: Some(zero),
        mmcs_bit2: Some(zero),
        inputs: digest_inputs(cfg.spec_width_ext(), leaf.len(), leaf, 0),
        out_ctl: flags(cfg.spec_rate_ext(), false),
        return_all_outputs: false,
        mmcs_index_sum: None,
    }
}

/// The compression row of level `i` of a 4-to-1 Merkle path, steered by the
/// two direction bits of the level; the last level exposes its output.
pub open spec fn quaternary_level_call(cfg: PermConfig, dirs: Seq<[ExprId; 2]>, i: int) -> PermCallView {
    PermCallView {
        new_start: false,
        merkle_path: true,
        mmcs_bit: Some(dirs[i][0]),
        mmcs_bit2: Some(dirs[i][1]),
        inputs: digest_inputs(cfg.spec_width_ext(), 0, Seq::empty(), 0),
        out_ctl: flags(cfg.spec_rate_ext(), i == dirs.len() - 1),
        return_all_outputs: false,
        mmcs_index_sum: None,
    }
}

/// All rows of a 4-to-1 Merkle path: the leaf hash, then one row per level.
pub open spec fn arity4_path_calls(
    cfg: PermConfig,
    leaf: Seq<ExprId>,
    dirs: Seq<[ExprId; 2]>,
    zero: ExprId,
) -> Seq<PermCallView> {
    seq![leaf_hash_call(cfg, leaf, zero)] + Seq::new(
        dirs.len(),
        |i: int| quaternary_level_call(cfg, dirs, i),
    )
}

/// The checks `add_mmcs_verify_arity4` makes before it records anything.
pub open spec fn arity4_inputs_ok(
    cfg: PermConfig,
    leaf: Seq<ExprId>,
    dirs: Seq<[ExprId; 2]>,
    root: Seq<ExprId>,
) -> bool {
    &&& cfg.spec_is_arity4_shape()
    &&& dirs.len() > 0
    &&& leaf.len() <= cfg.spec_rate_ext()
    &&& root.len() == cfg.spec_capacity_ext()
}

/// What `add_mmcs_verify_arity4` returns and leaves in the builder.
///
/// The shape checks come first and leave the builder unchanged. Then the
/// constant zero is defined and the rows of `arity4_path_calls` are issued;
/// the last one exposes its `rate_ext` output limbs, which get the
/// expressions following the constant, and the first `capacity_ext` of them
/// are connected to the root. The op ids of all rows are returned.
pub open spec fn arity4_outcome(
    old: BuilderView,
    cfg: PermConfig,
    leaf: Seq<ExprId>,
    dirs: Seq<[ExprId; 2]>,
    root: Seq<ExprId>,
) -> (Result<Seq<NonPrimitiveOpId>, CircuitBuilderError>, BuilderView) {
    let zero = ExprId(old.num_exprs as u32);
    let after_zero = with_zero_const(old);
    let base = old.num_exprs + 1;
    if !cfg.spec_is_arity4_shape() {
        (
            Err(
                CircuitBuilderError::Poseidon2ConfigMismatch {
                    mismatch: ConfigMismatch::Arity4Shape {
                        width_ext: cfg.spec_width_ext() as usize,
                        capacity_ext: cfg.spec_capacity_ext() as usize,
                    },
                },
            ),
            old,
        )
    } else if dirs.len() == 0 {
        (
            Err(
                CircuitBuilderError::Poseidon2ConfigMismatch {
                    mismatch: ConfigMismatch::NoMerkleLevels,
                },
            ),
            old,
        )
    } else if leaf.len() > cfg.spec_rate_ext() {
        (
            Err(
                CircuitBuilderError::Poseidon2ConfigMismatch {
                    mismatch: ConfigMismatch::LeafExceedsRate {
                        leaf_len: leaf.len() as usize,
                        rate_ext: cfg.spec_rate_ext() as usize,
                    },
                },
            ),
            old,
        )
    } else if root.len() != cfg.spec_capacity_ext() {
        (
            Err(
                CircuitBuilderError::InvalidDimension {
                    expected: cfg.spec_capacity_ext() as usize,
                    actual: root.len() as usize,
                },
            ),
            old,
        )
    } else if !old.enabled.contains(cfg.spec_npo_type_id()) {
        (
            Err(CircuitBuilderError::NonPrimitiveOpNotEnabled { op: cfg.spec_npo_type_id() }),
            after_zero,
        )
    } else {
        (
            Ok(Seq::new(dirs.len() + 1, |t: int| NonPrimitiveOpId((old.rows.len() + t) as u32))),
            BuilderView {
                num_exprs: base + cfg.spec_rate_ext(),
                rows: old.rows + recorded_rows(
                    old.rows.len(),
                    base,
                    cfg,
                    arity4_path_calls(cfg, leaf, dirs, zero),
                ),
                connections: old.connections + Seq::new(
                    cfg.spec_capacity_ext(),
                    |k: int| (ExprId((base + k) as u32), root[k]),
                ),
                ..after_zero
            },
        )
    }
}

impl CircuitBuilder {
    /// Verifies a 4-to-1 Merkle path in the circuit: one leaf-hash row that
    /// absorbs `leaf_data` and starts the chain, then one compression row per
    /// level, steered by the level's two direction bits `[low, high]`; the
    /// first `capacity_ext` limbs of the last row's output are connected to
    /// `root_expr`. Returns the op ids of the `1 + directions_expr.len()` rows
    /// in order. The configuration must have `width_ext == 4 * capacity_ext`,
    /// there must be at least one level, the leaf must fit in `rate_ext`
    /// limbs, and the root must have `capacity_ext` limbs.
    pub fn add_mmcs_verify_arity4(
        &mut self,
        permutation_config: PermConfig,
        leaf_data: &[ExprId],
        directions_expr: &[[ExprId; 2]],
        root_expr: &[ExprId],
    ) -> (r: Result<Vec<NonPrimitiveOpId>, CircuitBuilderError>)
        requires
            arity4_inputs_ok(permutation_config, leaf_data@, directions_expr@, root_expr@) ==> {
                &&& old(self)@.has_room(1 + permutation_config.spec_rate_ext())
                &&& old(self)@.has_row_room(directions_expr@.len() + 1)
            },
        ensures
            ops_view(r) == arity4_outcome(
                old(self)@,
                permutation_config,
                leaf_data@,
                directions_expr@,
                root_expr@,
            ).0,
            final(self)@ == arity4_outcome(
                old(self)@,
                permutation_config,
                leaf_data@,
                directions_expr@,
                root_expr@,
            ).1,
    {
        let ghost old_v = self@;
        let width_ext = permutation_config.width_ext();
        let rate_ext = permutation_config.rate_ext();
        let capacity_ext = permutation_config.capacity_ext();
        if !permutation_config.is_arity4_shape() {
            return Err(
                CircuitBuilderError::Poseidon2ConfigMismatch {
                    mismatch: ConfigMismatch::Arity4Shape { width_ext, capacity_ext },
                },
            );
        }
        if directions_expr.len() == 0 {
            return Err(
                CircuitBuilderError::Poseidon2ConfigMismatch {
                    mismatch: ConfigMismatch::NoMerkleLevels,
                },
            );
        }
        if leaf_data.len() > rate_ext {
            return Err(
                CircuitBuilderError::Poseidon2ConfigMismatch {
                    mismatch: ConfigMismatch::LeafExceedsRate {
                        leaf_len: leaf_data.len(),
                        rate_ext,
                    },
                },
            );
        }
        if root_expr.len() != capacity_ext {
            return Err(
                CircuitBuilderError::InvalidDimension {
                    expected: capacity_ext,
                    actual: root_expr.len(),
                },
            );
        }
        let zero = self.define_const(0);
        let ghost after_zero = self@;
        let ghost base = old_v.num_exprs + 1;
        let ghost first_op = old_v.rows.len();
        let ghost dirs = directions_expr@;
        let ghost calls = arity4_path_calls(permutation_config, leaf_data@, dirs, zero);
        let no_row: Vec<ExprId> = Vec::new();
        let mut op_ids: Vec<NonPrimitiveOpId> = Vec::new();
        // The leaf-hash row absorbs the leaf; its output is the level-0
        // running hash. Its direction bits are unused and pinned to zero.
        let leaf_inputs = digest_input_limbs(width_ext, leaf_data.len(), leaf_data, 0);
        let leaf_call = PermCall {
            new_start: true,
            merkle_path: true,
            mmcs_bit: Some(zero),
            mmcs_bit2: Some(zero),
            inputs: leaf_inputs,
            out_ctl: flag_vec(rate_ext, false),
            return_all_outputs: false,
            mmcs_index_sum: None,
        };
        let ghost leaf_view = leaf_call@;
        proof {
            assert(leaf_view =~= leaf_hash_call(permutation_config, leaf_data@, zero));
            assert(calls[0] == leaf_view);
            lemma_flag_outputs(leaf_view, width_ext as nat, rate_ext as nat, base);
        }
        match self.add_perm(permutation_config, leaf_call) {
            Ok((op_id_leaf, _)) => {
                op_ids.push(op_id_leaf);
            },
            Err(e) => {
                proof {
                    assert(!old_v.enabled.contains(permutation_config.spec_npo_type_id()));
                }
                return Err(e);
            },
        }
        proof {
            assert(self@.rows =~= old_v.rows + recorded_rows(
                first_op,
                base,
                permutation_config,
                calls.subrange(0, 1),
            ));
        }
        // One compression row per level; the last one exposes its output.
        let n = directions_expr.len();
        let mut output: Vec<Option<ExprId>> = digest_input_limbs(
            width_ext,
            0,
            no_row.as_slice(),
            0,
        );
        let mut level: usize = 0;
        while level < n
            invariant
                old_v == old(self)@,
                0 <= level <= n,
                n == dirs.len(),
                n > 0,
                dirs == directions_expr@,
                width_ext == permutation_config.spec_width_ext(),
                rate_ext == permutation_config.spec_rate_ext(),
                permutation_config.shape_ok(),
                base == old_v.num_exprs + 1,
                first_op == old_v.rows.len(),
                old_v.has_room(1 + permutation_config.spec_rate_ext()),
                old_v.has_row_room((n + 1) as nat),
                old_v.enabled.contains(permutation_config.spec_npo_type_id()),
                calls == arity4_path_calls(permutation_config, leaf_data@, dirs, zero),
                after_zero == with_zero_const(old_v),
                zero == ExprId(old_v.num_exprs as u32),
                no_row@ == Seq::<ExprId>::empty(),
                self@ == (BuilderView {
                    num_exprs: base + if level == n {
                        rate_ext as nat
                    } else {
                        0
                    },
                    rows: old_v.rows + recorded_rows(
                        first_op,
                        base,
                        permutation_config,
                        calls.subrange(0, level + 1),
                    ),
                    ..after_zero
                }),
                op_ids@ == Seq::new(
                    (level + 1) as nat,
                    |t: int| NonPrimitiveOpId((first_op + t) as u32),
                ),
                level > 0 ==> output@ == allocated_outputs(
                    base,
                    quaternary_level_call(permutation_config, dirs, level - 1),
                    width_ext as nat,
                ),
            decreases n - level,
        {
            let is_last = level == n - 1;
            let direction_pair = &directions_expr[level];
            let call = PermCall {
                new_start: false,
                merkle_path: true,
                mmcs_bit: Some(direction_pair[0]),
                mmcs_bit2: Some(direction_pair[1]),
                inputs: digest_input_limbs(width_ext, 0, no_row.as_slice(), 0),
                out_ctl: flag_vec(rate_ext, is_last),
                return_all_outputs: false,
                mmcs_index_sum: None,
            };
            let ghost call_view = call@;
            proof {
                assert(call_view =~= quaternary_level_call(permutation_config, dirs, level as int));
                assert(calls[level + 1] == call_view);
                assert(call_view.inputs.len() == width_ext);
                assert(call_view.out_ctl.len() <= width_ext);
                lemma_flag_outputs(call_view, width_ext as nat, rate_ext as nat, base);
            }
            match self.add_perm(permutation_config, call) {
                Ok((op_id, maybe_output)) => {
                    op_ids.push(op_id);
                    output = maybe_output;
                },
                Err(e) => {
                    return Err(e);
                },
            }
            level = level + 1;
            proof {
                assert(self@.rows =~= old_v.rows + recorded_rows(
                    first_op,
                    base,
                    permutation_config,
                    calls.subrange(0, level + 1),
                ));
                assert(op_ids@ =~= Seq::new(
                    (level + 1) as nat,
                    |t: int| NonPrimitiveOpId((first_op + t) as u32),
                ));
            }
        }
        proof {
            assert(calls.subrange(0, n + 1) =~= calls);
            let last = quaternary_level_call(permutation_config, dirs, n - 1);
            lemma_flag_outputs(last, width_ext as nat, rate_ext as nat, base);
        }
        // Connect the first capacity_ext limbs of the final output (the
        // arity-4 digest) to the root.
        let ghost built = self@;
        let mut k: usize = 0;
        while k < capacity_ext && k < output.len() && k < root_expr.len()
            invariant
                k <= capacity_ext,
                capacity_ext == permutation_config.spec_capacity_ext(),
                capacity_ext < rate_ext,
                rate_ext <= width_ext,
                root_expr@.len() == capacity_ext,
                output@.len() == width_ext,
                base + rate_ext <= u32::MAX,
                op_ids@.len() > 0,
                forall|t: int|
                    0 <= t < width_ext ==> #[trigger] output@[t] == if t < rate_ext {
                        Some(ExprId((base + t) as u32))
                    } else {
                        None
                    },
                self@ == (BuilderView {
                    connections: built.connections + Seq::new(
                        k as nat,
                        |t: int| (ExprId((base + t) as u32), root_expr@[t]),
                    ),
                    ..built
                }),
            decreases capacity_ext - k,
        {
            match output[k] {
                Some(o) => {
                    self.connect(o, root_expr[k]);
                },
                None => {
                    return Err(
                        CircuitBuilderError::MalformedNonPrimitiveOutputs {
                            op_id: op_ids[op_ids.len() - 1],
                        },
                    );
                },
            }
            k = k + 1;
            proof {
                assert(self@.connections =~= built.connections + Seq::new(
                    k as nat,
                    |t: int| (ExprId((base + t) as u32), root_expr@[t]),
                ));
            }
        }
        Ok(op_ids)
    }
}


/// The rows of levels `0..k`: level `i`'s compression row stands at
/// `path_row_position(i)`, preceded by its digest injection where it has
/// one; a row exposes outputs only if it is the compression row of the
/// final level.
proof fn lemma_level_calls_shape(
    cfg: PermConfig,
    openings: Seq<Seq<ExprId>>,
    dirs: Seq<ExprId>,
    zero: ExprId,
    k: int,
)
    requires
        0 <= k <= dirs.len(),
    ensures
        forall|i: int|
            0 <= i < k ==> level_calls(cfg, openings, dirs, zero, k)[path_row_position(openings, i)
                as int] == path_call(cfg, openings, dirs, i, is_final_level(openings, dirs.len(), i)),
        forall|i: int|
            0 <= i < k && has_injection(openings, i) ==> level_calls(cfg, openings, dirs, zero, k)[
                path_row_position(openings, i) - 1] == injection_call(cfg, openings[i], zero, false),
        forall|t: int, j: int|
            0 <= t < level_calls(cfg, openings, dirs, zero, k).len() && #[trigger] exposes(
                level_calls(cfg, openings, dirs, zero, k)[t],
                j,
            ) ==> t == level_calls(cfg, openings, dirs, zero, k).len() - 1 && k == dirs.len()
                && !has_tail(openings, dirs.len()),
    decreases k,
{
    lemma_level_calls_len(cfg, openings, dirs, zero, k);
    if k > 0 {
        lemma_level_calls_shape(cfg, openings, dirs, zero, k - 1);
        lemma_level_calls_len(cfg, openings, dirs, zero, k - 1);
        let prev = level_calls(cfg, openings, dirs, zero, k - 1);
        let cur = level_calls(cfg, openings, dirs, zero, k);
        assert forall|i: int| 0 <= i < k - 1 implies #[trigger] rows_through(openings, i + 1)
            <= rows_through(openings, k - 1) by {
            lemma_rows_through_mono(openings, i + 1, k - 1);
        }
        assert forall|t: int| 0 <= t < prev.len() implies cur[t] == prev[t] by {}
    }
}

proof fn lemma_rows_through_mono(openings: Seq<Seq<ExprId>>, a: int, b: int)
    requires
        0 <= a <= b,
    ensures
        rows_through(openings, a) <= rows_through(openings, b),
        a < b ==> rows_through(openings, a) < rows_through(openings, b),
    decreases b - a,
{
    if a < b {
        lemma_rows_through_mono(openings, a, b - 1);
    }
}

/// A binary Merkle path: level `i`'s compression row is steered by the
/// direction `dirs[i]`, only level 0 starts a new chain, and the levels
/// above the leaf inject their non-empty row digest right before their
/// compression, with the direction bit pinned to the constant zero.
pub proof fn lemma_binary_path_levels(
    cfg: PermConfig,
    openings: Seq<Seq<ExprId>>,
    dirs: Seq<ExprId>,
    zero: ExprId,
    i: int,
)
    requires
        0 <= i < dirs.len(),
    ensures
        ({
            let calls = binary_path_calls(cfg, openings, dirs, zero);
            let pos = path_row_position(openings, i) as int;
            &&& 0 <= pos < calls.len()
            &&& calls[pos].mmcs_bit == Some(dirs[i])
            &&& calls[pos].new_start == (i == 0)
            &&& calls[pos].merkle_path
            &&& has_injection(openings, i) ==> calls[pos - 1].mmcs_bit == Some(zero)
                && !calls[pos - 1].new_start && calls[pos - 1].inputs == digest_inputs(
                cfg.spec_width_ext(),
                cfg.spec_digest_ext(),
                openings[i],
                cfg.spec_digest_ext(),
            )
        }),
{
    let n = dirs.len() as int;
    lemma_level_calls_shape(cfg, openings, dirs, zero, n);
    lemma_level_calls_len(cfg, openings, dirs, zero, n);
    lemma_rows_through_mono(openings, i + 1, n);
    lemma_rows_through_mono(openings, i, i + 1);
    let calls = binary_path_calls(cfg, openings, dirs, zero);
    let levels = level_calls(cfg, openings, dirs, zero, n);
    let pos = path_row_position(openings, i) as int;
    assert(calls[pos] == levels[pos]);
    if has_injection(openings, i) {
        assert(calls[pos - 1] == levels[pos - 1]);
    }
}

/// Only the last row of a binary Merkle path exposes outputs, and it
/// exposes exactly its first `digest_ext` limbs. Where there is a tail
/// digest, that last row is the tail injection, issued after the last
/// level's compression; otherwise it is the last level's compression.
pub proof fn lemma_binary_path_last_row(
    cfg: PermConfig,
    openings: Seq<Seq<ExprId>>,
    dirs: Seq<ExprId>,
    zero: ExprId,
)
    requires
        dirs.len() > 0,
        cfg.shape_ok(),
    ensures
        ({
            let calls = binary_path_calls(cfg, openings, dirs, zero);
            let last = calls.len() - 1;
            &&& calls.len() >= 1
            &&& forall|t: int, j: int| 0 <= t < last ==> !#[trigger] exposes(calls[t], j)
            &&& forall|j: int| exposes(calls[last], j) <==> 0 <= j < cfg.spec_digest_ext()
            &&& has_tail(openings, dirs.len()) ==> calls[last] == injection_call(
                cfg,
                openings[dirs.len() as int],
                zero,
                true,
            ) && calls[last - 1] == path_call(cfg, openings, dirs, dirs.len() - 1, false)
            &&& !has_tail(openings, dirs.len()) ==> calls[last] == path_call(
                cfg,
                openings,
                dirs,
                dirs.len() - 1,
                true,
            )
        }),
{
    let n = dirs.len() as int;
    lemma_level_calls_shape(cfg, openings, dirs, zero, n);
    lemma_level_calls_len(cfg, openings, dirs, zero, n);
    let calls = binary_path_calls(cfg, openings, dirs, zero);
    let levels = level_calls(cfg, openings, dirs, zero, n);
    assert(path_row_position(openings, n - 1) == levels.len() - 1);
    assert forall|t: int| 0 <= t < levels.len() implies calls[t] == levels[t] by {}
    let last = calls.len() - 1;
    assert forall|t: int, j: int| 0 <= t < last implies !#[trigger] exposes(calls[t], j) by {
        if exposes(calls[t], j) {
            assert(levels[t] == calls[t]);
        }
    }
}

/// The binary gadget, where it succeeds, returns one op id per level,
/// records the rows of `binary_path_calls`, and connects each limb of the
/// root to the matching exposed output of the last row.
pub proof fn lemma_binary_root_bound(
    old: BuilderView,
    cfg: PermConfig,
    openings: Seq<Seq<ExprId>>,
    dirs: Seq<ExprId>,
    root: Seq<ExprId>,
)
    requires
        cfg.shape_ok(),
        dirs.len() > 0,
        old.has_room(1 + cfg.spec_digest_ext()),
        binary_outcome(old, cfg, openings, dirs, root).0 is Ok,
    ensures
        ({
            let (r, new) = binary_outcome(old, cfg, openings, dirs, root);
            let last = new.rows.last();
            &&& r->Ok_0.len() == dirs.len()
            &&& new.rows.len() == old.rows.len() + binary_path_calls(
                cfg,
                openings,
                dirs,
                ExprId(old.num_exprs as u32),
            ).len()
            &&& root.len() == cfg.spec_digest_ext()
            &&& new.connections.len() == old.connections.len() + root.len()
            &&& forall|k: int|
                0 <= k < root.len() ==> last.outputs[k] is Some && #[trigger] new.connections[old.connections.len()
                    + k] == (last.outputs[k]->Some_0, root[k])
        }),
{
    let zero = ExprId(old.num_exprs as u32);
    let base = old.num_exprs + 1;
    lemma_binary_path_last_row(cfg, openings, dirs, zero);
    let calls = binary_path_calls(cfg, openings, dirs, zero);
    let new = binary_outcome(old, cfg, openings, dirs, root).1;
    let last_call = calls[calls.len() - 1];
    assert(new.rows.last().outputs == allocated_outputs(base, last_call, cfg.spec_width_ext()));
    lemma_exposed_count_prefix(last_call, cfg.spec_digest_ext() as int, cfg.spec_width_ext() as int);
    assert forall|k: int| 0 <= k < root.len() implies new.rows.last().outputs[k] is Some
        && #[trigger] new.connections[old.connections.len() + k] == (
        new.rows.last().outputs[k]->Some_0,
        root[k],
    ) by {
        lemma_exposed_count_prefix(last_call, k, k);
    }
}

/// A 4-to-1 Merkle path issues `1 + dirs.len()` rows: the leaf hash first,
/// which absorbs the leaf, starts the chain and has both direction bits
/// pinned to the constant zero; then level `i`'s row, steered by
/// `(dirs[i][0], dirs[i][1])` and chained from the previous row. Only the
/// last row exposes outputs: exactly its first `rate_ext` limbs.
pub proof fn lemma_arity4_path_rows(
    cfg: PermConfig,
    leaf: Seq<ExprId>,
    dirs: Seq<[ExprId; 2]>,
    zero: ExprId,
)
    requires
        dirs.len() > 0,
        cfg.shape_ok(),
    ensures
        ({
            let calls = arity4_path_calls(cfg, leaf, dirs, zero);
            &&& calls.len() == dirs.len() + 1
            &&& calls[0].new_start && calls[0].mmcs_bit == Some(zero) && calls[0].mmcs_bit2 == Some(
                zero,
            )
            &&& forall|i: int|
                0 <= i < dirs.len() ==> !(#[trigger] calls[i + 1]).new_start && calls[i + 1].mmcs_bit
                    == Some(dirs[i][0]) && calls[i + 1].mmcs_bit2 == Some(dirs[i][1])
            &&& forall|i: int, k: int|
                0 <= i < dirs.len() && 0 <= k < cfg.spec_width_ext() ==> (#[trigger] calls[i
                    + 1].inputs[k]) is None
            &&& forall|t: int, j: int| 0 <= t < dirs.len() ==> !#[trigger] exposes(calls[t], j)
            &&& forall|j: int|
                exposes(calls[dirs.len() as int], j) <==> 0 <= j < cfg.spec_rate_ext()
        }),
{
    let calls = arity4_path_calls(cfg, leaf, dirs, zero);
    assert forall|i: int| 0 <= i < dirs.len() implies !(#[trigger] calls[i + 1]).new_start
        && calls[i + 1].mmcs_bit == Some(dirs[i][0]) && calls[i + 1].mmcs_bit2 == Some(
        dirs[i][1],
    ) by {
        assert(calls[i + 1] == quaternary_level_call(cfg, dirs, i));
    }
    assert forall|i: int, k: int|
        0 <= i < dirs.len() && 0 <= k < cfg.spec_width_ext() implies (#[trigger] calls[i
        + 1].inputs[k]) is None by {
        assert(calls[i + 1] == quaternary_level_call(cfg, dirs, i));
    }
    assert forall|t: int, j: int| 0 <= t < dirs.len() implies !#[trigger] exposes(calls[t], j) by {
        if t > 0 {
            assert(calls[t] == quaternary_level_call(cfg, dirs, t - 1));
        }
    }
    assert(calls[dirs.len() as int] == quaternary_level_call(cfg, dirs, dirs.len() - 1));
}

/// The 4-to-1 gadget, where it succeeds, returns the op ids of all its
/// rows and connects each limb of the root to the matching exposed output
/// of the last row; where a shape check fails it records nothing.
pub proof fn lemma_arity4_root_bound(
    old: BuilderView,
    cfg: PermConfig,
    leaf: Seq<ExprId>,
    dirs: Seq<[ExprId; 2]>,
    root: Seq<ExprId>,
)
    requires
        cfg.shape_ok(),
        arity4_inputs_ok(cfg, leaf, dirs, root) ==> old.has_room(1 + cfg.spec_rate_ext()),
    ensures
        !arity4_inputs_ok(cfg, leaf, dirs, root) ==> arity4_outcome(old, cfg, leaf, dirs, root).1
            == old && arity4_outcome(old, cfg, leaf, dirs, root).0 is Err,
        arity4_outcome(old, cfg, leaf, dirs, root).0 is Ok ==> ({
            let (r, new) = arity4_outcome(old, cfg, leaf, dirs, root);
            let last = new.rows.last();
            &&& r->Ok_0.len() == dirs.len() + 1
            &&& new.rows.len() == old.rows.len() + dirs.len() + 1
            &&& root.len() == cfg.spec_capacity_ext()
            &&& new.connections.len() == old.connections.len() + root.len()
            &&& forall|k: int|
                0 <= k < root.len() ==> last.outputs[k] is Some && #[trigger] new.connections[old.connections.len()
                    + k] == (last.outputs[k]->Some_0, root[k])
        }),
{
    if arity4_outcome(old, cfg, leaf, dirs, root).0 is Ok {
        let zero = ExprId(old.num_exprs as u32);
        let base = old.num_exprs + 1;
        lemma_arity4_path_rows(cfg, leaf, dirs, zero);
        let calls = arity4_path_calls(cfg, leaf, dirs, zero);
        let new = arity4_outcome(old, cfg, leaf, dirs, root).1;
        let last_call = calls[dirs.len() as int];
        assert(new.rows.last().outputs == allocated_outputs(base, last_call, cfg.spec_width_ext()));
        assert forall|k: int| 0 <= k < root.len() implies new.rows.last().outputs[k] is Some
            && #[trigger] new.connections[old.connections.len() + k] == (
            new.rows.last().outputs[k]->Some_0,
            root[k],
        ) by {
            lemma_exposed_count_prefix(last_call, k, k);
        }
    }
}


/// Without levels the leaf digest is the committed root: no permutation
/// row is issued, and the leaf is connected to the claimed root limb by
/// limb.
pub proof fn lemma_binary_without_levels(
    old: BuilderView,
    cfg: PermConfig,
    openings: Seq<Seq<ExprId>>,
    root: Seq<ExprId>,
)
    requires
        openings.len() > 0,
        openings[0].len() == root.len(),
    ensures
        ({
            let (r, new) = binary_outcome(old, cfg, openings, Seq::empty(), root);
            &&& r == Ok::<Seq<NonPrimitiveOpId>, CircuitBuilderError>(Seq::empty())
            &&& new.rows == old.rows
            &&& new.connections.len() == old.connections.len() + root.len()
            &&& forall|k: int|
                0 <= k < root.len() ==> #[trigger] new.connections[old.connections.len() + k] == (
                    openings[0][k],
                    root[k],
                )
        }),
{
}


/// Every row of a binary Merkle path belongs to the Merkle chain.
proof fn lemma_level_calls_merkle(
    cfg: PermConfig,
    openings: Seq<Seq<ExprId>>,
    dirs: Seq<ExprId>,
    zero: ExprId,
    k: int,
)
    requires
        k >= 0,
    ensures
        forall|t: int|
            0 <= t < level_calls(cfg, openings, dirs, zero, k).len() ==> (#[trigger] level_calls(
                cfg,
                openings,
                dirs,
                zero,
                k,
            )[t]).merkle_path,
    decreases k,
{
    if k > 0 {
        lemma_level_calls_merkle(cfg, openings, dirs, zero, k - 1);
        let prev = level_calls(cfg, openings, dirs, zero, k - 1);
        let cur = level_calls(cfg, openings, dirs, zero, k);
        assert forall|t: int| 0 <= t < cur.len() implies (#[trigger] cur[t]).merkle_path by {
            if t < prev.len() {
                assert(cur[t] == prev[t]);
            }
        }
    }
}

/// A binary Merkle path, where it succeeds, keeps the rows recorded before
/// it and appends its own after them, each numbered by its position, made
/// with `cfg`, and chained into the Merkle path (compressions, row-digest
/// injections and the tail alike). The op id returned for level `i` names
/// the appended row that compresses with the direction `dirs[i]`; only
/// level 0's row starts a new chain, and only it absorbs a digest, the
/// leaf's. A level above the leaf with a non-empty row digest is preceded
/// by one more row, which injects that digest into the upper half of the
/// state with its direction pinned to the constant zero defined by the
/// call; a level with an empty row digest follows its predecessor
/// directly. A non-empty tail digest is injected in one last row after
/// the last level; otherwise the last level's row is the last row.
#[verifier::rlimit(80)]
pub proof fn lemma_binary_path_op_ids(
    old: BuilderView,
    cfg: PermConfig,
    openings: Seq<Seq<ExprId>>,
    dirs: Seq<ExprId>,
    root: Seq<ExprId>,
)
    requires
        cfg.shape_ok(),
        dirs.len() > 0,
        openings.len() >= dirs.len(),
        old.has_row_room(2 * dirs.len() + 1),
        binary_outcome(old, cfg, openings, dirs, root).0 is Ok,
    ensures
        ({
            let (r, new) = binary_outcome(old, cfg, openings, dirs, root);
            let ids = r->Ok_0;
            let n0 = old.rows.len();
            let n = dirs.len();
            let zero = ExprId(old.num_exprs as u32);
            let w = cfg.spec_width_ext();
            let g = cfg.spec_digest_ext();
            &&& new.rows.subrange(0, n0 as int) == old.rows
            &&& new.constants.last() == (zero, 0u64)
            &&& forall|t: int|
                n0 <= t < new.rows.len() ==> (#[trigger] new.rows[t]).op_id == NonPrimitiveOpId(
                    t as u32,
                ) && new.rows[t].config == cfg && new.rows[t].call.merkle_path
                    && new.rows[t].call.inputs.len() == w
            &&& ids.len() == n
            &&& ids[0].0 == n0
            &&& forall|i: int|
                0 <= i < n ==> n0 <= (#[trigger] ids[i]).0 < new.rows.len() && new.rows[ids[i].0 as int].op_id
                    == ids[i] && new.rows[ids[i].0 as int].call.mmcs_bit == Some(dirs[i])
                    && new.rows[ids[i].0 as int].call.new_start == (i == 0)
            &&& forall|k: int|
                0 <= k < w ==> #[trigger] new.rows[n0 as int].call.inputs[k] == if k < g && k
                    < openings[0].len() {
                    Some(openings[0][k])
                } else {
                    None
                }
            &&& forall|i: int, k: int|
                0 < i < n && 0 <= k < w ==> (#[trigger] new.rows[ids[i].0 as int].call.inputs[k]) is None
            &&& forall|i: int|
                0 < i < n ==> (#[trigger] ids[i]).0 == ids[i - 1].0 + if openings[i].len() > 0 {
                    2int
                } else {
                    1int
                }
            &&& forall|i: int|
                0 < i < n && openings[i].len() > 0 ==> (#[trigger] new.rows[ids[i].0 - 1]).call.mmcs_bit
                    == Some(zero) && !new.rows[ids[i].0 - 1].call.new_start && forall|k: int|
                    0 <= k < w ==> #[trigger] new.rows[ids[i].0 - 1].call.inputs[k] == if g <= k
                        < g + openings[i].len() && k < 2 * g {
                        Some(openings[i][k - g])
                    } else {
                        None
                    }
            &&& (openings.len() > n && openings[n as int].len() > 0) ==> {
                &&& new.rows.len() == ids[n - 1].0 + 2
                &&& new.rows.last().call.mmcs_bit == Some(zero)
                &&& !new.rows.last().call.new_start
                &&& forall|k: int|
                    0 <= k < w ==> #[trigger] new.rows.last().call.inputs[k] == if g <= k < g
                        + openings[n as int].len() && k < 2 * g {
                        Some(openings[n as int][k - g])
                    } else {
                        None
                    }
            }
            &&& !(openings.len() > n && openings[n as int].len() > 0) ==> new.rows.len() == ids[n
                - 1].0 + 1
        }),
{
    let n = dirs.len() as int;
    let n0 = old.rows.len();
    let zero = ExprId(old.num_exprs as u32);
    let base = old.num_exprs + 1;
    let w = cfg.spec_width_ext();
    let g = cfg.spec_digest_ext();
    lemma_level_calls_shape(cfg, openings, dirs, zero, n);
    lemma_level_calls_len(cfg, openings, dirs, zero, n);
    lemma_level_calls_merkle(cfg, openings, dirs, zero, n);
    lemma_binary_path_last_row(cfg, openings, dirs, zero);
    let calls = binary_path_calls(cfg, openings, dirs, zero);
    let levels = level_calls(cfg, openings, dirs, zero, n);
    let (r, new) = binary_outcome(old, cfg, openings, dirs, root);
    let ids = r->Ok_0;
    let rec = recorded_rows(n0, base, cfg, calls);
    assert(rows_through(openings, 1) == 1) by {
        reveal_with_fuel(rows_through, 2);
    }
    assert(new.rows == old.rows + rec);
    assert(new.rows.subrange(0, n0 as int) =~= old.rows);
    assert forall|t: int| 0 <= t < levels.len() implies calls[t] == levels[t] by {}
    assert forall|t: int| 0 <= t < calls.len() implies (#[trigger] calls[t]).merkle_path
        && calls[t].inputs.len() == w by {
        if t < levels.len() {
            assert(calls[t] == levels[t]);
            assert(levels[t].merkle_path);
            lemma_level_calls_inputs_len(cfg, openings, dirs, zero, n, t);
        }
    }
    assert forall|t: int| n0 <= t < new.rows.len() implies (#[trigger] new.rows[t]).op_id
        == NonPrimitiveOpId(t as u32) && new.rows[t].config == cfg && new.rows[t].call.merkle_path
        && new.rows[t].call.inputs.len() == w by {
        assert(new.rows[t] == rec[t - n0]);
        assert(calls[t - n0].merkle_path);
    }
    assert forall|i: int| 0 <= i < n implies #[trigger] rows_through(openings, i + 1) <= rows_through(
        openings,
        n,
    ) && rows_through(openings, i + 1) >= 1 by {
        lemma_rows_through_mono(openings, i + 1, n);
        lemma_rows_through_mono(openings, 0, i + 1);
    }
    assert forall|i: int| 0 <= i < n implies (#[trigger] ids[i]).0 == n0 + path_row_position(
        openings,
        i,
    ) by {
        assert(rows_through(openings, i + 1) <= rows_through(openings, n));
    }
    assert(ids[0].0 == n0);
    assert forall|i: int|
        0 <= i < n implies n0 <= (#[trigger] ids[i]).0 < new.rows.len() && new.rows[ids[i].0 as int].op_id
        == ids[i] && new.rows[ids[i].0 as int].call.mmcs_bit == Some(dirs[i])
        && new.rows[ids[i].0 as int].call.new_start == (i == 0) by {
        assert(rows_through(openings, i + 1) <= rows_through(openings, n));
        let pos = path_row_position(openings, i) as int;
        assert(new.rows[n0 + pos] == rec[pos]);
        assert(calls[pos] == levels[pos]);
    }
    assert forall|k: int| 0 <= k < w implies #[trigger] new.rows[n0 as int].call.inputs[k] == if k
        < g && k < openings[0].len() {
        Some(openings[0][k])
    } else {
        None
    } by {
        assert(new.rows[n0 as int] == rec[0]);
        assert(calls[0] == levels[0]);
    }
    assert forall|i: int, k: int| 0 < i < n && 0 <= k < w implies (#[trigger] new.rows[ids[i].0 as int].call.inputs[k]) is None by {
        assert(rows_through(openings, i + 1) <= rows_through(openings, n));
        let pos = path_row_position(openings, i) as int;
        assert(new.rows[n0 + pos] == rec[pos]);
        assert(calls[pos] == levels[pos]);
    }
    assert forall|i: int| 0 < i < n implies (#[trigger] ids[i]).0 == ids[i - 1].0 + if openings[i].len()
        > 0 {
        2int
    } else {
        1int
    } by {
        assert(rows_through(openings, i + 1) <= rows_through(openings, n));
        assert(rows_through(openings, i) >= 1) by {
            lemma_rows_through_mono(openings, 0, i);
        }
    }
    assert forall|i: int| 0 < i < n && openings[i].len() > 0 implies (#[trigger] new.rows[ids[i].0
        - 1]).call.mmcs_bit == Some(zero) && !new.rows[ids[i].0 - 1].call.new_start && forall|k: int|
        0 <= k < w ==> #[trigger] new.rows[ids[i].0 - 1].call.inputs[k] == if g <= k < g
            + openings[i].len() && k < 2 * g {
            Some(openings[i][k - g])
        } else {
            None
        } by {
        assert(rows_through(openings, i + 1) <= rows_through(openings, n));
        assert(rows_through(openings, i) >= 1) by {
            lemma_rows_through_mono(openings, 0, i);
        }
        assert(has_injection(openings, i));
        let pos = path_row_position(openings, i) as int;
        assert(new.rows[n0 + pos - 1] == rec[pos - 1]);
        assert(calls[pos - 1] == levels[pos - 1]);
    }
    assert(path_row_position(openings, n - 1) == levels.len() - 1);
    if openings.len() > n && openings[n].len() > 0 {
        assert(new.rows.last() == rec[calls.len() - 1]);
    }
}

/// The input limbs of every row of a binary Merkle path span the width of
/// the state.
proof fn lemma_level_calls_inputs_len(
    cfg: PermConfig,
    openings: Seq<Seq<ExprId>>,
    dirs: Seq<ExprId>,
    zero: ExprId,
    k: int,
    t: int,
)
    requires
        k >= 0,
        0 <= t < level_calls(cfg, openings, dirs, zero, k).len(),
    ensures
        level_calls(cfg, openings, dirs, zero, k)[t].inputs.len() == cfg.spec_width_ext(),
    decreases k,
{
    let prev = level_calls(cfg, openings, dirs, zero, k - 1);
    if t < prev.len() {
        lemma_level_calls_inputs_len(cfg, openings, dirs, zero, k - 1, t);
    }
}

/// A 4-to-1 Merkle path, where it succeeds, keeps the rows recorded before
/// it and appends `1 + dirs.len()` rows after them, each numbered by its
/// position, made with `cfg` and chained into the Merkle path; the op ids
/// returned are those of the appended rows, in order. The first row starts
/// the chain and absorbs the leaf into the leading limbs of the state, the
/// rest of the state empty; level `i`'s row is steered by the direction
/// bits `dirs[i]` and absorbs nothing.
pub proof fn lemma_arity4_path_op_ids(
    old: BuilderView,
    cfg: PermConfig,
    leaf: Seq<ExprId>,
    dirs: Seq<[ExprId; 2]>,
    root: Seq<ExprId>,
)
    requires
        cfg.shape_ok(),
        old.has_row_room(dirs.len() + 1),
        arity4_outcome(old, cfg, leaf, dirs, root).0 is Ok,
    ensures
        ({
            let (r, new) = arity4_outcome(old, cfg, leaf, dirs, root);
            let ids = r->Ok_0;
            let n0 = old.rows.len();
            let w = cfg.spec_width_ext();
            &&& new.rows.subrange(0, n0 as int) == old.rows
            &&& new.rows.len() == n0 + dirs.len() + 1
            &&& ids.len() == dirs.len() + 1
            &&& forall|t: int|
                0 <= t <= dirs.len() ==> #[trigger] ids[t] == new.rows[n0 + t].op_id && ids[t].0 == n0
                    + t && new.rows[n0 + t].config == cfg && new.rows[n0 + t].call.merkle_path
                    && new.rows[n0 + t].call.inputs.len() == w
            &&& new.rows[n0 as int].call.new_start
            &&& forall|k: int|
                0 <= k < w ==> #[trigger] new.rows[n0 as int].call.inputs[k] == if k < leaf.len() {
                    Some(leaf[k])
                } else {
                    None
                }
            &&& forall|i: int|
                0 <= i < dirs.len() ==> !(#[trigger] new.rows[n0 + i + 1]).call.new_start
                    && new.rows[n0 + i + 1].call.mmcs_bit == Some(dirs[i][0])
                    && new.rows[n0 + i + 1].call.mmcs_bit2 == Some(dirs[i][1])
            &&& forall|i: int, k: int|
                0 <= i < dirs.len() && 0 <= k < w ==> (#[trigger] new.rows[n0 + i
                    + 1].call.inputs[k]) is None
        }),
{
    let n0 = old.rows.len();
    let zero = ExprId(old.num_exprs as u32);
    let base = old.num_exprs + 1;
    let calls = arity4_path_calls(cfg, leaf, dirs, zero);
    let rec = recorded_rows(n0, base, cfg, calls);
    let (r, new) = arity4_outcome(old, cfg, leaf, dirs, root);
    assert(new.rows == old.rows + rec);
    assert(new.rows.subrange(0, n0 as int) =~= old.rows);
    assert forall|t: int| 0 <= t <= dirs.len() implies new.rows[n0 + t] == rec[t] && calls[t]
        == if t == 0 {
        leaf_hash_call(cfg, leaf, zero)
    } else {
        quaternary_level_call(cfg, dirs, t - 1)
    } by {}
    assert forall|i: int| 0 <= i < dirs.len() implies new.rows[n0 + i + 1] == rec[i + 1] && calls[i
        + 1] == quaternary_level_call(cfg, dirs, i) by {}
}

} // verus!
