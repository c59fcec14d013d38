use rid_catalog::filters::{parse_filter_request, Dim, FilterValue};

fn pair(k: &str, v: FilterValue) -> (String, FilterValue) {
    (k.to_string(), v)
}

fn items(vs: &[&str]) -> FilterValue {
    FilterValue::Items(vs.iter().map(|s| s.to_string()).collect())
}

#[test]
fn parses_all_four_dimensions() {
    let pairs = vec![
        pair("str", FilterValue::Text("patent".to_string())),
        pair("y", items(&["2021", "2022"])),
        pair("s", items(&["Informatics"])),
        pair("d", items(&["Law"])),
    ];
    let fs = parse_filter_request(&pairs).unwrap();
    assert_eq!(fs.text.as_deref(), Some("patent"));
    assert_eq!(fs.years, vec!["2021".to_string(), "2022".to_string()]);
    assert_eq!(fs.subject_areas, vec!["Informatics".to_string()]);
    assert_eq!(fs.faculties, vec!["Law".to_string()]);
}

#[test]
fn unknown_keys_are_ignored() {
    let pairs = vec![
        pair("limit", FilterValue::Text("10".to_string())),
        pair("s", items(&["Informatics"])),
        pair("weird", FilterValue::Other),
    ];
    let fs = parse_filter_request(&pairs).unwrap();
    assert_eq!(fs.subject_areas, vec!["Informatics".to_string()]);
    assert!(fs.text.is_none());
    assert!(fs.years.is_empty());
    assert!(fs.faculties.is_empty());
}

#[test]
fn absent_keys_give_empty_clauses() {
    let fs = parse_filter_request(&vec![]).unwrap();
    assert!(fs.text.is_none());
    assert!(fs.years.is_empty());
    assert!(fs.subject_areas.is_empty());
    assert!(fs.faculties.is_empty());
}

#[test]
fn scalar_for_list_key_is_malformed() {
    let pairs = vec![pair("y", FilterValue::Text("2021".to_string()))];
    assert!(matches!(parse_filter_request(&pairs), Err(Dim::Year)));
}

#[test]
fn list_for_text_key_is_malformed() {
    let pairs = vec![pair("str", items(&["a", "b"]))];
    assert!(matches!(parse_filter_request(&pairs), Err(Dim::Text)));
}

#[test]
fn empty_list_is_malformed() {
    let pairs = vec![pair("s", items(&[]))];
    assert!(matches!(parse_filter_request(&pairs), Err(Dim::SubjectArea)));
}

#[test]
fn unparseable_value_shape_is_malformed() {
    let pairs = vec![pair("d", FilterValue::Other)];
    assert!(matches!(parse_filter_request(&pairs), Err(Dim::Faculty)));
}

#[test]
fn first_malformed_pair_is_reported() {
    let pairs = vec![
        pair("y", FilterValue::Other),
        pair("d", FilterValue::Other),
    ];
    assert!(matches!(parse_filter_request(&pairs), Err(Dim::Year)));
}

#[test]
fn values_are_sanitized_on_parse() {
    let pairs = vec![
        pair("str", FilterValue::Text("pa%te_nt'".to_string())),
        pair("y", items(&["20'21; --"])),
        pair("d", items(&["La'w;"])),
    ];
    let fs = parse_filter_request(&pairs).unwrap();
    assert_eq!(fs.text.as_deref(), Some("patent"));
    assert_eq!(fs.years, vec!["2021".to_string()]);
    assert_eq!(fs.faculties, vec!["Law".to_string()]);
}

#[test]
fn duplicate_keys_keep_the_first_occurrence() {
    let pairs = vec![
        pair("y", items(&["2021"])),
        pair("y", items(&["1999"])),
    ];
    let fs = parse_filter_request(&pairs).unwrap();
    assert_eq!(fs.years, vec!["2021".to_string()]);
}

#[test]
fn later_malformed_duplicate_still_reports_the_request() {
    let pairs = vec![
        pair("y", items(&["2021"])),
        pair("y", FilterValue::Other),
    ];
    assert!(matches!(parse_filter_request(&pairs), Err(Dim::Year)));
}
