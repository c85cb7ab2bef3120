use p3_baby_bear::BabyBear;
use p3_field::extension::BinomialExtensionField;
use p3_field::{BasedVectorSpace, PrimeCharacteristicRing, PrimeField64};
use p3_matrix::Matrix;
use recursion_core::circuit::WitnessId;
use recursion_core::const_air::{ConstAir, ConstTrace};

type F = BabyBear;
type EF = BinomialExtensionField<F, 4>;

fn coefficients<V: BasedVectorSpace<F>>(value: &V) -> Vec<u64> {
    value
        .as_basis_coefficients_slice()
        .iter()
        .map(|c| c.as_canonical_u64())
        .collect()
}

#[test]
fn test_const_air_base_field() {
    // Toy example used: assert(37 * x - 111 = 0)
    let const_values = vec![F::from_u64(37), F::from_u64(111), F::from_u64(0)];
    // Witness IDs these constants bind to
    let const_indices = vec![WitnessId(1), WitnessId(3), WitnessId(4)];

    // Preprocessed values are [ext_mult, index, expected] rows.
    let preprocessed_values = const_indices
        .iter()
        .zip(const_values.iter())
        .flat_map(|(idx, value)| [1u64, idx.0 as u64, value.as_canonical_u64()])
        .collect::<Vec<_>>();

    let trace = ConstTrace {
        index: const_indices.clone(),
        values: const_values.iter().map(coefficients).collect(),
    };

    let matrix = ConstAir::<1>::trace_to_matrix(&trace, 1);
    assert_eq!(matrix.width(), 1);
    // Height should be next power of two >= 3
    let height = matrix.height();
    assert_eq!(height, 4);
    // The data layout: [value] per row (no index in main trace)
    let data = &matrix.values;
    assert_eq!(data[0], 37);
    assert_eq!(data[1], 111);
    assert_eq!(data[2], 0);

    let air = ConstAir::<1>::new_with_preprocessed(height, preprocessed_values);
    let preprocessed_matrix = air.preprocessed_trace().unwrap();
    assert_eq!(preprocessed_matrix.height(), height);

    // Layout: [ext_mult, index, expected] (width=3)
    for (i, (const_idx, value)) in const_indices.iter().zip([37u64, 111, 0]).enumerate() {
        let row = preprocessed_matrix.row_slice(i).unwrap();
        assert_eq!(row[0], 1);
        assert_eq!(row[1], const_idx.0 as u64);
        assert_eq!(row[2], value);
    }
    // Check the padding row
    let last_row = preprocessed_matrix.row_slice(height - 1).unwrap();
    assert_eq!(last_row[0], 0);
    assert_eq!(last_row[1], 0);
    assert_eq!(last_row[2], 0);
}

#[test]
fn test_const_air_extension_field() {
    let const1 = EF::from_basis_coefficients_slice(&[
        F::from_u64(1),
        F::from_u64(2),
        F::from_u64(3),
        F::from_u64(4),
    ])
    .unwrap();
    let const2 = EF::from_basis_coefficients_slice(&[
        F::from_u64(5),
        F::from_u64(6),
        F::from_u64(7),
        F::from_u64(8),
    ])
    .unwrap();

    let const_values = vec![const1, const2];
    let const_indices = vec![WitnessId(10), WitnessId(20)];
    // Preprocessed values are [ext_mult, index, expected[0..D]] rows; indices are D-scaled.
    let preprocessed_values = const_indices
        .iter()
        .zip(const_values.iter())
        .flat_map(|(idx, value)| {
            let coeffs = coefficients(value);
            [1u64, idx.0 as u64 * 4, coeffs[0], coeffs[1], coeffs[2], coeffs[3]]
        })
        .collect::<Vec<_>>();

    let trace = ConstTrace {
        index: const_indices,
        values: const_values.iter().map(coefficients).collect(),
    };

    let matrix = ConstAir::<4>::trace_to_matrix(&trace, 1);
    assert_eq!(matrix.width(), 4);
    let height = matrix.height();
    assert_eq!(height, 2);

    let data = &matrix.values;
    assert_eq!(data[..4], [1, 2, 3, 4]);
    assert_eq!(data[4..8], [5, 6, 7, 8]);

    let air = ConstAir::<4>::new_with_preprocessed(height, preprocessed_values);
    let preprocessed_matrix = air.preprocessed_trace().unwrap();
    let row0 = preprocessed_matrix.row_slice(0).unwrap();
    assert_eq!(&*row0, &[1, 40, 1, 2, 3, 4]);
    let last_row = preprocessed_matrix.row_slice(height - 1).unwrap();
    assert_eq!(&*last_row, &[1, 80, 5, 6, 7, 8]);
}

#[test]
fn const_air_constructors_and_widths() {
    let air = ConstAir::<4>::new(3);
    assert_eq!(air.num_ops, 3);
    assert!(air.preprocessed.is_empty());
    assert_eq!(air.min_height, 1);
    let air = air.with_min_height(16);
    assert_eq!(air.min_height, 16);
    assert_eq!(air.num_ops, 3);
    assert_eq!(ConstAir::<4>::preprocessed_width(), 6);
    assert_eq!(air.width(), 4);
    assert!(air.main_next_row_columns().is_empty());
    assert!(air.preprocessed_next_row_columns().is_empty());
}

#[test]
fn preprocessed_trace_pads_to_min_height_with_zero_rows() {
    // One constant row, minimum height 5 -> 8 rows.
    let air = ConstAir::<1>::new_with_preprocessed(1, vec![1, 7, 42]).with_min_height(5);
    let m = air.preprocessed_trace().unwrap();
    assert_eq!(m.width(), 3);
    assert_eq!(m.height(), 8);
    assert_eq!(m.values[..3], [1, 7, 42]);
    assert!(m.values[3..].iter().all(|&v| v == 0));
}

#[test]
fn preprocessed_trace_completes_partial_row_and_empty_input() {
    // A partial last row is completed with zeros.
    let air = ConstAir::<1>::new_with_preprocessed(2, vec![1, 2, 3, 4]);
    let m = air.preprocessed_trace().unwrap();
    assert_eq!(m.height(), 2);
    assert_eq!(m.values, vec![1, 2, 3, 4, 0, 0]);
    // No values at all still give one row of zeros.
    let air = ConstAir::<1>::new(0);
    let m = air.preprocessed_trace().unwrap();
    assert_eq!(m.height(), 1);
    assert_eq!(m.values, vec![0, 0, 0]);
}

#[test]
fn trace_to_matrix_respects_min_height_and_empty_trace() {
    let trace = ConstTrace {
        index: vec![WitnessId(0), WitnessId(1), WitnessId(2)],
        values: vec![vec![9, 8], vec![7, 6], vec![5, 4]],
    };
    // 3 rows round up to 4; minimum 9 rounds up to 16.
    let m = ConstAir::<2>::trace_to_matrix(&trace, 9);
    assert_eq!(m.width(), 2);
    assert_eq!(m.height(), 16);
    assert_eq!(m.values[..6], [9, 8, 7, 6, 5, 4]);
    assert!(m.values[6..].iter().all(|&v| v == 0));

    let empty = ConstTrace { index: vec![], values: vec![] };
    let m = ConstAir::<2>::trace_to_matrix(&empty, 1);
    assert_eq!(m.height(), 1);
    assert_eq!(m.values, vec![0, 0]);
}

#[test]
fn witness_bus_message_columns() {
    let (mult, fields) = ConstAir::<4>::witness_bus_columns();
    assert_eq!(mult, 0);
    assert_eq!(fields, vec![1, 2, 3, 4, 5]);
    let (mult, fields) = ConstAir::<1>::witness_bus_columns();
    assert_eq!(mult, 0);
    assert_eq!(fields, vec![1, 2]);
}
