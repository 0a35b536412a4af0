use starky2::range_check::{range_check_u32_circuit, Target, U32Target, Wire};

#[test]
fn one_limb_for_each_value() {
    let vals = vec![
        U32Target(Target::VirtualTarget { index: 4 }),
        U32Target(Target::wire(1, 2)),
        U32Target(Target::VirtualTarget { index: 4 }),
    ];
    let check = range_check_u32_circuit(vals);
    assert_eq!(check.num_input_limbs(), 3);
    let pairs = check.gate_added(9, &[0, 1, 5]);
    assert_eq!(
        pairs,
        vec![
            (Target::wire(9, 0), Target::VirtualTarget { index: 4 }),
            (Target::wire(9, 1), Target::Wire(Wire { row: 1, column: 2 })),
            (Target::wire(9, 5), Target::VirtualTarget { index: 4 }),
        ]
    );
    assert_ne!(pairs[0].0, pairs[2].0);
}

#[test]
fn nothing_to_check() {
    let check = range_check_u32_circuit(vec![]);
    assert_eq!(check.num_input_limbs(), 0);
    assert!(check.gate_added(0, &[]).is_empty());
}
