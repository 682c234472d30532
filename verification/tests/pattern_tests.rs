use checkin_report::pattern::pattern_match;

#[test]
fn matches_plain_phrase() {
    assert!(pattern_match("pants off"));
}

#[test]
fn matches_uppercase() {
    assert!(pattern_match("PANTS OFF"));
}

#[test]
fn matches_mixed_case_with_gaps() {
    assert!(pattern_match("Put your PaNtS right oFF now!"));
}

#[test]
fn matches_interleaved_letters() {
    assert!(pattern_match("xpxaxnxtxsxoxfxf"));
}

#[test]
fn rejects_missing_final_letter() {
    assert!(!pattern_match("pants of"));
}

#[test]
fn rejects_empty_string() {
    assert!(!pattern_match(""));
}

#[test]
fn rejects_out_of_order_letters() {
    assert!(!pattern_match("ffostnap"));
}

#[test]
fn matches_letters_spread_over_words() {
    assert!(pattern_match("please all notes to staff on friday, friends"));
}
