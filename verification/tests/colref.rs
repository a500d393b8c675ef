use mr_xlsx::{col_ref_to_index, col_to_letters, make_cell_ref};

#[test]
fn encode_concrete_values() {
    assert_eq!(col_to_letters(0), "A");
    assert_eq!(col_to_letters(25), "Z");
    assert_eq!(col_to_letters(26), "AA");
    assert_eq!(col_to_letters(701), "ZZ");
    assert_eq!(col_to_letters(702), "AAA");
}

#[test]
fn decode_concrete_values() {
    assert_eq!(col_ref_to_index("A"), 0);
    assert_eq!(col_ref_to_index("Z"), 25);
    assert_eq!(col_ref_to_index("AA"), 26);
    assert_eq!(col_ref_to_index("ZZ"), 701);
    assert_eq!(col_ref_to_index("AAA"), 702);
    assert_eq!(col_ref_to_index("C1"), 2);
    assert_eq!(col_ref_to_index("B2"), 1);
    assert_eq!(col_ref_to_index(""), 0);
    assert_eq!(col_ref_to_index("123"), 0);
}

#[test]
fn encode_decode_round_trip() {
    for n in 0u32..100_000 {
        let letters = col_to_letters(n);
        assert_eq!(col_ref_to_index(&letters), n);
    }
}

#[test]
fn cell_refs() {
    assert_eq!(make_cell_ref(1, 0), "A1");
    assert_eq!(make_cell_ref(2, 1), "B2");
    assert_eq!(make_cell_ref(10, 27), "AB10");
}
