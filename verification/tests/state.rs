use speedread::state::DocState;

#[test]
fn a_position_round_trips_through_its_record() {
    let st = DocState { identifier: String::from("x"), section_index: 3, word_index: 12 };
    let record = st.encode();
    let loaded = DocState::decode(&record).unwrap();
    assert_eq!(loaded.identifier, "x");
    assert_eq!(loaded.section_index, 3);
    assert_eq!(loaded.word_index, 12);
}

#[test]
fn the_record_layout_is_the_two_numerals_then_the_identifier() {
    let st = DocState { identifier: String::from("x"), section_index: 3, word_index: 12 };
    assert_eq!(st.encode(), "3\n12\nx");
    let zero = DocState::new(String::from("id-with-dashes"));
    assert_eq!(zero.encode(), "0\n0\nid-with-dashes");
}

#[test]
fn an_identifier_may_hold_line_breaks_and_digits() {
    let st = DocState { identifier: String::from("9\n87"), section_index: 1, word_index: 0 };
    let loaded = DocState::decode(&st.encode()).unwrap();
    assert_eq!(loaded.identifier, "9\n87");
    assert_eq!(loaded.section_index, 1);
    assert_eq!(loaded.word_index, 0);
}

#[test]
fn loading_an_absent_record_yields_the_default_position() {
    let st = DocState::load(None, String::from("unknown"));
    assert_eq!(st.identifier, "unknown");
    assert_eq!(st.section_index, 0);
    assert_eq!(st.word_index, 0);
}

#[test]
fn loading_a_corrupt_record_yields_the_default_position() {
    for garbage in ["", "abc", "3", "3\n", "3\nx\ny", "03\n1\nx", "3\n012\nx", "+3\n1\nx",
        "99999999999999999999999999\n1\nx"] {
        let st = DocState::load(Some(garbage), String::from("k"));
        assert_eq!(st.identifier, "k");
        assert_eq!(st.section_index, 0);
        assert_eq!(st.word_index, 0);
    }
}

#[test]
fn loading_a_stored_record_returns_the_identical_triple() {
    let st = DocState { identifier: String::from("x"), section_index: 3, word_index: 12 };
    let record = st.encode();
    let loaded = DocState::load(Some(&record), String::from("x"));
    assert_eq!(loaded.identifier, "x");
    assert_eq!(loaded.section_index, 3);
    assert_eq!(loaded.word_index, 12);
}

#[test]
fn decode_accepts_only_canonical_records() {
    assert!(DocState::decode("0\n0\n").is_some());
    assert!(DocState::decode("10\n2\nabc").is_some());
    assert!(DocState::decode("00\n0\n").is_none());
    assert!(DocState::decode("1\n01\n").is_none());
    assert!(DocState::decode("1 \n1\nx").is_none());
    assert!(DocState::decode("\n1\nx").is_none());
}
