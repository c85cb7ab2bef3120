use recursion_core::circuit::{
    CircuitBuilder, CircuitBuilderError, CircuitError, ConfigMismatch, ExprId, NonPrimitiveOpId,
    PermCall, PermConfig, PermFamily,
};
use recursion_core::mmcs::{format_openings, Dimensions};

fn dims(heights: &[usize]) -> Vec<Dimensions> {
    heights.iter().map(|&height| Dimensions { width: 1, height }).collect()
}

fn tip5() -> PermConfig {
    PermConfig::tip5_goldilocks_w16()
}

#[test]
fn format_openings_groups_by_padded_height() {
    let openings = vec![vec![10u32, 11], vec![20], vec![30, 31, 32], vec![40]];
    // Heights 8, 3 (-> 4), 7 (-> 8), 2.
    let d = dims(&[8, 3, 7, 2]);
    let r = format_openings(&openings, &d, 3, tip5());
    // 7 and 8 both round up to 8 but differ: rejected.
    assert_eq!(r, Err(CircuitError::InconsistentMatrixHeights));

    let d = dims(&[8, 3, 8, 2]);
    let r = format_openings(&openings, &d, 3, tip5()).unwrap();
    assert_eq!(r, vec![vec![10, 11, 30, 31, 32], vec![20], vec![40]]);
}

#[test]
fn format_openings_leaves_missing_heights_empty() {
    let openings = vec![vec![1u8], vec![2u8]];
    // Height 1 never lands in a level; height 4 is the top level of 2^2.
    let d = dims(&[1, 4]);
    let r = format_openings(&openings, &d, 2, tip5()).unwrap();
    assert_eq!(r, vec![vec![2u8], vec![]]);
    // No levels at all.
    let r = format_openings(&openings, &d, 0, tip5());
    assert_eq!(r, Err(CircuitError::IncorrectNonPrimitiveOpPrivateDataSize {
        op: tip5().npo_type_id(),
        expected_at_most: 0,
        got: 2,
    }));
}

#[test]
fn format_openings_rejects_too_many_openings() {
    let openings = vec![vec![0u64]; 5];
    let d = dims(&[4, 4, 4, 4, 4]);
    let r = format_openings(&openings, &d, 2, tip5());
    assert_eq!(
        r,
        Err(CircuitError::IncorrectNonPrimitiveOpPrivateDataSize {
            op: tip5().npo_type_id(),
            expected_at_most: 2,
            got: 5,
        })
    );
}

#[test]
fn format_openings_too_tall_matrix_empties_every_level() {
    let openings = vec![vec![1u16], vec![2u16]];
    // 16 does not fit under 2^3: nothing is collected.
    let d = dims(&[16, 4]);
    let r = format_openings(&openings, &d, 3, tip5()).unwrap();
    assert_eq!(r, vec![Vec::<u16>::new(), vec![], vec![]]);
}

#[test]
fn format_openings_keeps_index_order_within_a_height() {
    let openings = vec![vec![1u32], vec![2], vec![3]];
    let d = dims(&[2, 4, 2]);
    let r = format_openings(&openings, &d, 2, tip5()).unwrap();
    assert_eq!(r, vec![vec![2], vec![1, 3]]);
}

fn enabled_builder() -> CircuitBuilder {
    let mut b = CircuitBuilder::new();
    b.enable_perm(tip5());
    b
}

fn inputs(b: &mut CircuitBuilder, n: usize) -> Vec<ExprId> {
    (0..n).map(|_| b.public_input()).collect()
}

#[test]
fn binary_mmcs_with_tail_records_rows_and_binds_root() {
    let mut b = enabled_builder();
    let leaf = inputs(&mut b, 5);
    let sibling_row = inputs(&mut b, 2);
    let tail = inputs(&mut b, 5);
    let dirs = inputs(&mut b, 3);
    let root = inputs(&mut b, 5);
    let openings = vec![leaf.clone(), vec![], sibling_row.clone(), tail.clone()];
    let before = b.public_inputs().len() as u32;
    let ops = b.add_mmcs_verify(tip5(), &openings, &dirs, &root).unwrap();

    // Rows: level 0, level 1, injection at level 2, level 2, tail.
    assert_eq!(ops, vec![NonPrimitiveOpId(0), NonPrimitiveOpId(1), NonPrimitiveOpId(3)]);
    let rows = b.rows();
    assert_eq!(rows.len(), 5);
    let zero = ExprId(before);
    assert_eq!(b.constants(), &vec![(zero, 0u64)]);

    // Level 0 absorbs the leaf and starts the chain.
    assert!(rows[0].call.new_start);
    assert_eq!(rows[0].call.mmcs_bit, Some(dirs[0]));
    assert_eq!(rows[0].call.inputs[..5].to_vec(), leaf.iter().map(|&e| Some(e)).collect::<Vec<_>>());
    assert!(rows[0].call.inputs[5..].iter().all(|x| x.is_none()));
    // Level 1 has no row digest: a single compression row.
    assert!(!rows[1].call.new_start);
    assert_eq!(rows[1].call.mmcs_bit, Some(dirs[1]));
    assert!(rows[1].call.inputs.iter().all(|x| x.is_none()));
    // Level 2 injects its two-limb digest into the upper half first.
    assert_eq!(rows[2].call.mmcs_bit, Some(zero));
    assert_eq!(rows[2].call.inputs[5], Some(sibling_row[0]));
    assert_eq!(rows[2].call.inputs[6], Some(sibling_row[1]));
    assert!(rows[2].call.inputs[7..].iter().all(|x| x.is_none()));
    assert_eq!(rows[3].call.mmcs_bit, Some(dirs[2]));
    // The tail is compressed last and is the only row that exposes outputs.
    assert_eq!(rows[4].call.mmcs_bit, Some(zero));
    assert_eq!(rows[4].call.inputs[5..10].to_vec(), tail.iter().map(|&e| Some(e)).collect::<Vec<_>>());
    for r in &rows[..4] {
        assert!(r.call.out_ctl.iter().all(|&c| !c));
        assert!(r.outputs.iter().all(|o| o.is_none()));
    }
    assert_eq!(rows[4].call.out_ctl, vec![true; 5]);
    let out: Vec<ExprId> = rows[4].outputs[..5].iter().map(|o| o.unwrap()).collect();
    assert_eq!(out, (0..5).map(|k| ExprId(before + 1 + k)).collect::<Vec<_>>());
    assert!(rows[4].outputs[5..].iter().all(|o| o.is_none()));
    let expected: Vec<(ExprId, ExprId)> = out.iter().copied().zip(root.iter().copied()).collect();
    assert_eq!(b.connections(), &expected);
}

#[test]
fn binary_mmcs_without_tail_exposes_last_level() {
    let mut b = enabled_builder();
    let leaf = inputs(&mut b, 5);
    let dirs = inputs(&mut b, 2);
    let root = inputs(&mut b, 5);
    // An empty trailing entry is no tail.
    let openings = vec![leaf, vec![], vec![]];
    let ops = b.add_mmcs_verify(tip5(), &openings, &dirs, &root).unwrap();
    assert_eq!(ops, vec![NonPrimitiveOpId(0), NonPrimitiveOpId(1)]);
    let rows = b.rows();
    assert_eq!(rows.len(), 2);
    assert_eq!(rows[0].call.out_ctl, vec![false; 5]);
    assert_eq!(rows[1].call.out_ctl, vec![true; 5]);
    assert_eq!(b.connections().len(), 5);
    for (k, (o, r)) in b.connections().iter().enumerate() {
        assert_eq!(Some(*o), rows[1].outputs[k]);
        assert_eq!(*r, root[k]);
    }
}

#[test]
fn binary_mmcs_without_levels_connects_leaf_to_root() {
    let mut b = CircuitBuilder::new();
    let leaf = inputs(&mut b, 3);
    let root = inputs(&mut b, 3);
    let ops = b.add_mmcs_verify(tip5(), &[leaf.clone()], &[], &root).unwrap();
    assert!(ops.is_empty());
    assert!(b.rows().is_empty());
    let expected: Vec<(ExprId, ExprId)> = leaf.iter().copied().zip(root.iter().copied()).collect();
    assert_eq!(b.connections(), &expected);

    let mut b = CircuitBuilder::new();
    let root = inputs(&mut b, 2);
    let r = b.add_mmcs_verify(tip5(), &[], &[], &root);
    assert_eq!(r, Err(CircuitBuilderError::InvalidDimension { expected: 0, actual: 2 }));
    assert!(b.connections().is_empty());
}

#[test]
fn binary_mmcs_rejects_root_of_wrong_length() {
    let mut b = enabled_builder();
    let leaf = inputs(&mut b, 5);
    let dirs = inputs(&mut b, 1);
    let root = inputs(&mut b, 4);
    let r = b.add_mmcs_verify(tip5(), &[leaf], &dirs, &root);
    assert_eq!(r, Err(CircuitBuilderError::InvalidDimension { expected: 5, actual: 4 }));
    assert!(b.connections().is_empty());
}

#[test]
fn binary_mmcs_needs_enabled_table() {
    let mut b = CircuitBuilder::new();
    let leaf = inputs(&mut b, 5);
    let dirs = inputs(&mut b, 1);
    let root = inputs(&mut b, 5);
    let r = b.add_mmcs_verify(tip5(), &[leaf], &dirs, &root);
    assert_eq!(r, Err(CircuitBuilderError::NonPrimitiveOpNotEnabled { op: tip5().npo_type_id() }));
    assert!(b.rows().is_empty());
    assert_eq!(b.constants().len(), 1);
}

#[test]
fn arity4_mmcs_records_leaf_and_levels() {
    let cfg = PermConfig::poseidon2_koala_bear_d4_w32();
    assert!(cfg.is_arity4_shape());
    let mut b = CircuitBuilder::new();
    b.enable_perm(cfg);
    let leaf = inputs(&mut b, 6);
    let bits = inputs(&mut b, 4);
    let dirs = vec![[bits[0], bits[1]], [bits[2], bits[3]]];
    let root = inputs(&mut b, 2);
    let zero = ExprId(b.public_inputs().len() as u32);
    let ops = b.add_mmcs_verify_arity4(cfg, &leaf, &dirs, &root).unwrap();
    assert_eq!(ops, vec![NonPrimitiveOpId(0), NonPrimitiveOpId(1), NonPrimitiveOpId(2)]);
    let rows = b.rows();
    assert_eq!(rows.len(), 3);
    assert!(rows[0].call.new_start);
    assert_eq!(rows[0].call.mmcs_bit, Some(zero));
    assert_eq!(rows[0].call.mmcs_bit2, Some(zero));
    assert_eq!(rows[0].call.inputs[..6].to_vec(), leaf.iter().map(|&e| Some(e)).collect::<Vec<_>>());
    assert_eq!(rows[0].call.inputs[6..].to_vec(), vec![None, None]);
    for level in 0..2 {
        let r = &rows[level + 1];
        assert!(!r.call.new_start);
        assert_eq!(r.call.mmcs_bit, Some(dirs[level][0]));
        assert_eq!(r.call.mmcs_bit2, Some(dirs[level][1]));
        assert!(r.call.inputs.iter().all(|x| x.is_none()));
    }
    assert_eq!(rows[1].call.out_ctl, vec![false; 6]);
    assert_eq!(rows[2].call.out_ctl, vec![true; 6]);
    let expected: Vec<(ExprId, ExprId)> =
        (0..2).map(|k| (rows[2].outputs[k].unwrap(), root[k])).collect();
    assert_eq!(b.connections(), &expected);
}

#[test]
fn arity4_mmcs_shape_errors_leave_builder_unchanged() {
    let mut b = CircuitBuilder::new();
    let tip = tip5();
    let x = inputs(&mut b, 3);
    assert!(!tip.is_arity4_shape());
    assert_eq!(
        b.add_mmcs_verify_arity4(tip, &x, &[[x[0], x[1]]], &x),
        Err(CircuitBuilderError::Poseidon2ConfigMismatch {
            mismatch: ConfigMismatch::Arity4Shape { width_ext: 16, capacity_ext: 6 },
        })
    );
    let cfg = PermConfig::poseidon2_koala_bear_d4_w32();
    assert_eq!(
        b.add_mmcs_verify_arity4(cfg, &x, &[], &x),
        Err(CircuitBuilderError::Poseidon2ConfigMismatch { mismatch: ConfigMismatch::NoMerkleLevels })
    );
    let long_leaf = vec![x[0]; 7];
    assert_eq!(
        b.add_mmcs_verify_arity4(cfg, &long_leaf, &[[x[0], x[1]]], &x[..2]),
        Err(CircuitBuilderError::Poseidon2ConfigMismatch {
            mismatch: ConfigMismatch::LeafExceedsRate { leaf_len: 7, rate_ext: 6 },
        })
    );
    assert_eq!(
        b.add_mmcs_verify_arity4(cfg, &x, &[[x[0], x[1]]], &x),
        Err(CircuitBuilderError::InvalidDimension { expected: 2, actual: 3 })
    );
    assert!(b.constants().is_empty());
    assert!(b.rows().is_empty());
    assert_eq!(
        b.add_mmcs_verify_arity4(cfg, &x, &[[x[0], x[1]]], &x[..2]),
        Err(CircuitBuilderError::NonPrimitiveOpNotEnabled { op: cfg.npo_type_id() })
    );
    assert_eq!(b.constants().len(), 1);
}

#[test]
fn perm_config_shapes() {
    let t = tip5();
    assert_eq!(t.family(), PermFamily::Tip5);
    assert_eq!((t.width_ext(), t.rate_ext(), t.capacity_ext(), t.digest_ext()), (16, 10, 6, 5));
    assert!(PermConfig::poseidon2_koala_bear_d1_w32().is_arity4_shape());
    assert!(PermConfig::new(PermFamily::Poseidon2, 16, 16, 4).is_none());
    assert!(PermConfig::new(PermFamily::Poseidon2, 16, 8, 9).is_none());
    assert!(PermConfig::new(PermFamily::Poseidon2, 16, 8, 8).is_some());
}

#[test]
fn add_perm_checks_table_and_shape() {
    let mut b = CircuitBuilder::new();
    let call = || PermCall {
        new_start: true,
        merkle_path: false,
        mmcs_bit: None,
        mmcs_bit2: None,
        inputs: vec![None; 16],
        out_ctl: vec![true, false, true],
        return_all_outputs: false,
        mmcs_index_sum: None,
    };
    assert_eq!(
        b.add_perm(tip5(), call()),
        Err(CircuitBuilderError::NonPrimitiveOpNotEnabled { op: tip5().npo_type_id() })
    );
    b.enable_perm(tip5());
    b.enable_perm(tip5());
    let mut short = call();
    short.inputs.pop();
    assert_eq!(
        b.add_perm(tip5(), short),
        Err(CircuitBuilderError::InvalidDimension { expected: 16, actual: 15 })
    );
    let (id, outs) = b.add_perm(tip5(), call()).unwrap();
    assert_eq!(id, NonPrimitiveOpId(0));
    assert_eq!(outs[0], Some(ExprId(0)));
    assert_eq!(outs[1], None);
    assert_eq!(outs[2], Some(ExprId(1)));
    assert!(outs[3..].iter().all(|o| o.is_none()));
    assert_eq!(b.public_input(), ExprId(2));
}

#[test]
fn format_openings_keeps_every_row_of_height_at_least_two() {
    let openings = vec![vec![1u32, 2], vec![3], vec![4, 5, 6], vec![7]];
    let d = dims(&[8, 2, 8, 1]);
    let r = format_openings(&openings, &d, 3, tip5()).unwrap();
    assert_eq!(r, vec![vec![1, 2, 4, 5, 6], vec![], vec![3]]);
    let total: usize = r.iter().map(|l| l.len()).sum();
    // The height-1 matrix has no entry; every other row is kept once.
    assert_eq!(total, 2 + 1 + 3);
}

#[test]
fn builder_allocates_expressions_in_order() {
    let mut b = CircuitBuilder::new();
    assert_eq!(b.public_input(), ExprId(0));
    assert_eq!(b.define_const(7), ExprId(1));
    assert_eq!(b.public_input(), ExprId(2));
    assert_eq!(b.public_inputs(), &vec![ExprId(0), ExprId(2)]);
    assert_eq!(b.constants(), &vec![(ExprId(1), 7)]);
    b.connect(ExprId(0), ExprId(2));
    assert_eq!(b.connections(), &vec![(ExprId(0), ExprId(2))]);
    assert!(!b.is_enabled(tip5().npo_type_id()));
    b.enable_perm(tip5());
    assert!(b.is_enabled(tip5().npo_type_id()));
}
