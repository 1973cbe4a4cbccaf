use knapsack_ga::LinReg;

#[test]
fn column_indices_pick_positions_holding_one() {
    let lr = LinReg::new();
    let indices = lr.column_indices(&vec![1u8, 0, 1, 1]);
    assert_eq!(indices, vec![0, 2, 3]);
}

#[test]
fn column_indices_of_all_zero_bitstring_are_empty() {
    let lr = LinReg::new();
    let indices = lr.column_indices(&vec![0u8, 0, 0]);
    assert!(indices.is_empty());
}

#[test]
fn column_indices_treat_only_one_as_selected() {
    let lr = LinReg::new();
    let indices = lr.column_indices(&vec![2u8, 1, 0, 1]);
    assert_eq!(indices, vec![1, 3]);
}

#[test]
fn column_indices_of_empty_bitstring_are_empty() {
    let lr = LinReg::new();
    let indices = lr.column_indices(&Vec::new());
    assert!(indices.is_empty());
}
