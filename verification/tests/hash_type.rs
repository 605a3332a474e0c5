use halo2_mpt_circuits::field::Fe;
use halo2_mpt_circuits::hash_type::{HashType, Mappings};

const ALL: [HashType; 5] = [
    HashType::Empty,
    HashType::Leaf,
    HashType::Middle,
    HashType::LeafExt,
    HashType::LeafExtFinal,
];

#[test]
fn codes_are_distinct_and_middle_is_zero() {
    assert_eq!(HashType::Middle.to_u64(), 0);
    for a in ALL {
        for b in ALL {
            assert_eq!(a.to_u64() == b.to_u64(), a == b);
        }
        assert_eq!(HashType::from_u64(a.to_u64()), Some(a));
        assert_eq!(a.to_field(), Fe::from_u64(a.to_u64()));
    }
    assert_eq!(HashType::from_u64(5), None);
    assert_eq!(HashType::from_u64(u64::MAX), None);
}

#[test]
fn the_type_pairing_table_holds_the_five_pairs() {
    let maps = Mappings::new();
    assert_eq!(
        maps.op,
        vec![
            (HashType::Empty, HashType::Leaf),
            (HashType::Leaf, HashType::Leaf),
            (HashType::Middle, HashType::Middle),
            (HashType::LeafExt, HashType::Middle),
            (HashType::LeafExtFinal, HashType::Middle),
        ]
    );
    let mut allowed = 0;
    for a in ALL {
        for b in ALL {
            if maps.allows_pair(a, b) {
                allowed += 1;
                assert!(maps.op.contains(&(a, b)));
            }
        }
    }
    assert_eq!(allowed, 5);
    assert!(!maps.allows_pair(HashType::Leaf, HashType::Middle));
    assert!(maps.allows_pair(HashType::Empty, HashType::Leaf));
}

#[test]
fn the_transition_table_holds_the_nine_steps() {
    let maps = Mappings::new();
    assert_eq!(
        maps.trans,
        vec![
            (HashType::Middle, HashType::Middle),
            (HashType::Middle, HashType::Empty),
            (HashType::Middle, HashType::Leaf),
            (HashType::Middle, HashType::LeafExt),
            (HashType::Middle, HashType::LeafExtFinal),
            (HashType::LeafExt, HashType::LeafExt),
            (HashType::LeafExt, HashType::LeafExtFinal),
            (HashType::LeafExtFinal, HashType::Leaf),
            (HashType::LeafExtFinal, HashType::Empty),
        ]
    );
    let mut allowed = 0;
    for a in ALL {
        for b in ALL {
            if maps.allows_transition(a, b) {
                allowed += 1;
                assert!(maps.trans.contains(&(a, b)));
            }
        }
    }
    assert_eq!(allowed, 9);
    assert!(!maps.allows_transition(HashType::LeafExt, HashType::Middle));
    assert!(maps.allows_transition(HashType::LeafExt, HashType::LeafExtFinal));
    assert!(!maps.allows_transition(HashType::Leaf, HashType::Leaf));
    assert!(!maps.allows_transition(HashType::Empty, HashType::Middle));
}
