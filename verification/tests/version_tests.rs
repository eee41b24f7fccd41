use repman::version::{vercmp, VerOrder};

fn v(s: &str) -> Vec<u8> {
    s.as_bytes().to_vec()
}

#[test]
fn numeric_segments_compare_numerically() {
    assert_eq!(vercmp(&v("1.2"), &v("1.10")), VerOrder::Lt);
    assert_eq!(vercmp(&v("1.10"), &v("1.9")), VerOrder::Gt);
    assert_eq!(vercmp(&v("10"), &v("9")), VerOrder::Gt);
    assert_eq!(vercmp(&v("007"), &v("7")), VerOrder::Eq);
}

#[test]
fn equal_versions_are_equal() {
    assert_eq!(vercmp(&v("1.2-1"), &v("1.2-1")), VerOrder::Eq);
    assert_eq!(vercmp(&v("1.3.4"), &v("1.3.4")), VerOrder::Eq);
    assert_eq!(vercmp(&v(""), &v("")), VerOrder::Eq);
}

#[test]
fn release_decides_when_versions_tie() {
    assert_eq!(vercmp(&v("1.2-1"), &v("1.2-2")), VerOrder::Lt);
    assert_eq!(vercmp(&v("1.2-3"), &v("1.2-2")), VerOrder::Gt);
}

#[test]
fn release_ignored_when_only_one_side_has_one() {
    assert_eq!(vercmp(&v("1.2"), &v("1.2-5")), VerOrder::Eq);
    assert_eq!(vercmp(&v("1.2-5"), &v("1.2")), VerOrder::Eq);
}

#[test]
fn epoch_dominates() {
    assert_eq!(vercmp(&v("1:0.5"), &v("2.0")), VerOrder::Gt);
    assert_eq!(vercmp(&v("1.0"), &v("1:0.1")), VerOrder::Lt);
    assert_eq!(vercmp(&v("0:1.0"), &v("1.0")), VerOrder::Eq);
}

#[test]
fn letters_lose_against_numbers() {
    // a numeric segment is newer than an alphabetic one
    assert_eq!(vercmp(&v("1.0a"), &v("1.0.1")), VerOrder::Lt);
    // a trailing alpha loses against the bare version
    assert_eq!(vercmp(&v("1.0a"), &v("1.0")), VerOrder::Lt);
    assert_eq!(vercmp(&v("1.0"), &v("1.0a")), VerOrder::Gt);
}

#[test]
fn alpha_segments_compare_lexically() {
    assert_eq!(vercmp(&v("1.0alpha"), &v("1.0beta")), VerOrder::Lt);
    assert_eq!(vercmp(&v("1.0rc"), &v("1.0rd")), VerOrder::Lt);
}

#[test]
fn separator_runs_compare_by_length() {
    assert_eq!(vercmp(&v("1..0"), &v("1.0")), VerOrder::Gt);
    assert_eq!(vercmp(&v("1.0"), &v("1..0")), VerOrder::Lt);
}

#[test]
fn trailing_separator_is_newer() {
    assert_eq!(vercmp(&v("1.0"), &v("1.0.")), VerOrder::Lt);
    assert_eq!(vercmp(&v("1.0."), &v("1.0")), VerOrder::Gt);
}

#[test]
fn example_update_pair() {
    assert_eq!(vercmp(&v("1.2-1"), &v("1.3-1")), VerOrder::Lt);
    assert_eq!(vercmp(&v("1.3-1"), &v("1.3-1")), VerOrder::Eq);
}
