use esnode_core::nvml_ext::FieldValues;

#[test]
fn field_values_lookup() {
    let fv = FieldValues {
        values: vec![(1, 10), (2, -1)],
    };
    assert_eq!(fv.get(1), Some(10));
    assert_eq!(fv.get(2), Some(-1));
    assert_eq!(fv.get(3), None);
}

#[test]
fn field_values_first_answer_wins() {
    let fv = FieldValues {
        values: vec![(7, 1), (7, 2)],
    };
    assert_eq!(fv.get(7), Some(1));
}
