use rid_catalog::filters::{parse_filter_request, FilterSet, FilterValue};
use rid_catalog::predicate::assemble_predicate;
use rid_catalog::query::build_catalog_query;

fn pair(k: &str, v: FilterValue) -> (String, FilterValue) {
    (k.to_string(), v)
}

fn items(vs: &[&str]) -> FilterValue {
    FilterValue::Items(vs.iter().map(|s| s.to_string()).collect())
}

const BASE: &str = "select RID.name as name, RID.description as description, RID.numPotent as number, Faculty.name as faculty, Type.name as rid_type, cast(Year.year as char) as year, SubjectArea.name as sub_area, RID.link as link, group_concat(FIO.surname, ' ', FIO.name, '.', FIO.lastname, '.', ' (', AuthorCountry.name, ')' SEPARATOR ', ') as authors from RID left join Faculty on (RID.idFaculty = Faculty.id) left join Type on (RID.idType = Type.id) left join Year on (RID.idYear = Year.id) left join SubjectArea on (RID.idSubjectArea = SubjectArea.id) left join AUTHORxRID on (AUTHORxRID.idRID = RID.id) left join ConnectionAuthorCountry on (ConnectionAuthorCountry.id = AUTHORxRID.idAuthor) left join AuthorCountry on (AuthorCountry.id = ConnectionAuthorCountry.idCountry) left join FIO on (FIO.id = ConnectionAuthorCountry.idFIO)";

const TAIL: &str = " group by RID.id order by Year.year desc";

#[test]
fn empty_filter_emits_no_where_clause() {
    let fs = FilterSet::empty();
    let p = assemble_predicate(&fs);
    assert_eq!(p.sql, "");
    assert!(p.params.is_empty());
    let q = build_catalog_query(&fs);
    assert_eq!(q.sql, format!("{}{}", BASE, TAIL));
    assert!(q.params.is_empty());
}

#[test]
fn single_faculty_value_emits_one_placeholder() {
    let pairs = vec![pair("d", items(&["Law"]))];
    let fs = parse_filter_request(&pairs).unwrap();
    let p = assemble_predicate(&fs);
    assert_eq!(p.sql, " where (Faculty.name = ?)");
    assert_eq!(p.params, vec!["Law".to_string()]);
}

#[test]
fn values_within_a_dimension_are_a_disjunction() {
    let pairs = vec![pair("y", items(&["2021", "2022"]))];
    let fs = parse_filter_request(&pairs).unwrap();
    let p = assemble_predicate(&fs);
    assert_eq!(p.sql, " where (Year.year = ? or Year.year = ?)");
    assert_eq!(p.params, vec!["2021".to_string(), "2022".to_string()]);
}

#[test]
fn groups_come_in_fixed_order_joined_by_and() {
    let pairs = vec![
        pair("str", FilterValue::Text("term".to_string())),
        pair("s", items(&["Informatics"])),
        pair("y", items(&["2021"])),
        pair("d", items(&["Law"])),
    ];
    let fs = parse_filter_request(&pairs).unwrap();
    let p = assemble_predicate(&fs);
    assert_eq!(
        p.sql,
        " where (Faculty.name = ?) and (Year.year = ?) and (SubjectArea.name = ?) \
         and ((lower(RID.name) like lower(?)) or (lower(RID.description) like lower(?)))"
    );
    assert_eq!(
        p.params,
        vec![
            "Law".to_string(),
            "2021".to_string(),
            "Informatics".to_string(),
            "%term%".to_string(),
            "%term%".to_string(),
        ]
    );
}

#[test]
fn text_clause_alone_starts_with_where() {
    let pairs = vec![pair("str", FilterValue::Text("патент".to_string()))];
    let fs = parse_filter_request(&pairs).unwrap();
    let p = assemble_predicate(&fs);
    assert_eq!(
        p.sql,
        " where ((lower(RID.name) like lower(?)) or (lower(RID.description) like lower(?)))"
    );
    assert_eq!(p.params, vec!["%патент%".to_string(), "%патент%".to_string()]);
}

#[test]
fn empty_text_after_sanitization_is_a_no_op_clause() {
    let pairs = vec![pair("str", FilterValue::Text("'!;%".to_string()))];
    let fs = parse_filter_request(&pairs).unwrap();
    let p = assemble_predicate(&fs);
    assert_eq!(p.sql, "");
    assert!(p.params.is_empty());
}

#[test]
fn adversarial_values_cannot_change_query_structure() {
    let plain = parse_filter_request(&vec![pair("s", items(&["x"]))]).unwrap();
    let hostile = parse_filter_request(&vec![pair(
        "s",
        items(&["x'; DROP TABLE RID; --"]),
    )])
    .unwrap();
    let qp = build_catalog_query(&plain);
    let qh = build_catalog_query(&hostile);
    assert_eq!(qp.sql, qh.sql);
    assert_eq!(qh.params, vec!["x DROP TABLE RID ".to_string()]);
    assert!(!qh.sql.contains("DROP"));
    let ph = assemble_predicate(&hostile);
    assert_eq!(ph.sql, " where (SubjectArea.name = ?)");
    assert!(!ph.sql.contains('\''));
}

#[test]
fn full_query_wraps_predicate_between_base_and_tail() {
    let pairs = vec![pair("d", items(&["Law"]))];
    let fs = parse_filter_request(&pairs).unwrap();
    let q = build_catalog_query(&fs);
    assert_eq!(
        q.sql,
        format!("{} where (Faculty.name = ?){}", BASE, TAIL)
    );
    assert_eq!(q.params, vec!["Law".to_string()]);
}
