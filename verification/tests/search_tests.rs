use rid_catalog::catalog::{Author, Entry};
use rid_catalog::filters::{parse_filter_request, FilterValue};
use rid_catalog::project::SearchOutcome;
use rid_catalog::search::search_catalog;

fn pair(k: &str, v: FilterValue) -> (String, FilterValue) {
    (k.to_string(), v)
}

fn items(vs: &[&str]) -> FilterValue {
    FilterValue::Items(vs.iter().map(|s| s.to_string()).collect())
}

fn author(surname: &str, given: &str, patronymic: &str, country: &str) -> Author {
    Author {
        surname: surname.to_string(),
        given_name: given.to_string(),
        patronymic: patronymic.to_string(),
        country: country.to_string(),
    }
}

fn entry(
    number: i64,
    title: &str,
    description: &str,
    faculty: Option<&str>,
    year: Option<&str>,
    sub_area: Option<&str>,
    authors: Vec<Author>,
) -> Entry {
    Entry {
        number,
        title: title.to_string(),
        description: description.to_string(),
        link: None,
        faculty: faculty.map(|s| s.to_string()),
        rid_type: Some("Patent".to_string()),
        year: year.map(|s| s.to_string()),
        sub_area: sub_area.map(|s| s.to_string()),
        authors,
    }
}

fn sample_catalog() -> Vec<Entry> {
    vec![
        entry(
            1,
            "Indexing engine",
            "A search core",
            Some("Engineering"),
            Some("2021"),
            Some("Informatics"),
            vec![author("Ivanov", "I", "I", "RU")],
        ),
        entry(
            2,
            "Contract analyzer",
            "Legal texts",
            Some("Law"),
            Some("2021"),
            Some("Jurisprudence"),
            vec![],
        ),
        entry(
            3,
            "Data pipeline",
            "Streams",
            Some("Engineering"),
            Some("2022"),
            Some("Informatics"),
            vec![author("Petrov", "P", "P", "KZ"), author("Sidorov", "S", "S", "RU")],
        ),
        entry(4, "Orphan record", "No dimensions", None, None, None, vec![]),
    ]
}

fn records(outcome: SearchOutcome) -> Vec<rid_catalog::catalog::DisplayRecord> {
    match outcome {
        SearchOutcome::Records(v) => v,
        SearchOutcome::NoResults => panic!("expected records"),
    }
}

#[test]
fn single_value_filter_matches_exact_subject_area() {
    let cat = sample_catalog();
    let fs = parse_filter_request(&vec![pair("s", items(&["Informatics"]))]).unwrap();
    let recs = records(search_catalog(&cat, &fs));
    let mut numbers: Vec<i64> = recs.iter().map(|r| r.number).collect();
    numbers.sort();
    assert_eq!(numbers, vec![1, 3]);
    for r in &recs {
        assert_eq!(r.sub_area, "Informatics");
    }
}

#[test]
fn multi_value_filter_within_dimension_is_or() {
    let cat = sample_catalog();
    let fs = parse_filter_request(&vec![pair("y", items(&["2021", "2022"]))]).unwrap();
    let recs = records(search_catalog(&cat, &fs));
    let mut numbers: Vec<i64> = recs.iter().map(|r| r.number).collect();
    numbers.sort();
    assert_eq!(numbers, vec![1, 2, 3]);
}

#[test]
fn multi_dimension_filter_is_and() {
    let cat = sample_catalog();
    let fs = parse_filter_request(&vec![
        pair("y", items(&["2021"])),
        pair("d", items(&["Law"])),
    ])
    .unwrap();
    let recs = records(search_catalog(&cat, &fs));
    assert_eq!(recs.len(), 1);
    assert_eq!(recs[0].number, 2);
    assert_eq!(recs[0].faculty, "Law");
    assert_eq!(recs[0].year, "2021");
}

#[test]
fn no_matches_is_the_distinguished_empty_outcome() {
    let cat = sample_catalog();
    let fs = parse_filter_request(&vec![
        pair("y", items(&["2022"])),
        pair("d", items(&["Law"])),
    ])
    .unwrap();
    assert!(matches!(search_catalog(&cat, &fs), SearchOutcome::NoResults));
}

#[test]
fn unfiltered_search_returns_every_entry_once_newest_first() {
    let cat = sample_catalog();
    let fs = parse_filter_request(&vec![]).unwrap();
    let recs = records(search_catalog(&cat, &fs));
    assert_eq!(recs.len(), 4);
    let mut numbers: Vec<i64> = recs.iter().map(|r| r.number).collect();
    numbers.sort();
    assert_eq!(numbers, vec![1, 2, 3, 4]);
    assert_eq!(recs[0].year, "2022");
    assert_eq!(recs[0].number, 3);
    assert_eq!(recs[3].year, "");
    assert_eq!(recs[3].number, 4);
}

#[test]
fn entry_appears_once_with_all_authors_joined() {
    let cat = sample_catalog();
    let fs = parse_filter_request(&vec![pair("s", items(&["Informatics"]))]).unwrap();
    let recs = records(search_catalog(&cat, &fs));
    let hits: Vec<_> = recs.iter().filter(|r| r.number == 3).collect();
    assert_eq!(hits.len(), 1);
    assert_eq!(hits[0].authors, "Petrov P.P. (KZ), Sidorov S.S. (RU)");
}

#[test]
fn missing_authors_use_the_fixed_placeholder() {
    let cat = sample_catalog();
    let fs = parse_filter_request(&vec![pair("d", items(&["Law"]))]).unwrap();
    let recs = records(search_catalog(&cat, &fs));
    assert_eq!(recs.len(), 1);
    assert_eq!(recs[0].authors, "Авторы не указаны");
    assert_eq!(recs[0].link, "");
}

#[test]
fn text_filter_matches_title_or_description_case_insensitively() {
    let cat = sample_catalog();
    let fs =
        parse_filter_request(&vec![pair("str", FilterValue::Text("INDEX".to_string()))]).unwrap();
    let recs = records(search_catalog(&cat, &fs));
    assert_eq!(recs.len(), 1);
    assert_eq!(recs[0].number, 1);

    let fs2 =
        parse_filter_request(&vec![pair("str", FilterValue::Text("legal".to_string()))]).unwrap();
    let recs2 = records(search_catalog(&cat, &fs2));
    assert_eq!(recs2.len(), 1);
    assert_eq!(recs2[0].number, 2);
}

#[test]
fn cyrillic_text_matches_case_insensitively() {
    let mut cat = sample_catalog();
    cat.push(entry(
        5,
        "Патент на изобретение",
        "Описание",
        Some("Law"),
        Some("2020"),
        Some("Jurisprudence"),
        vec![],
    ));
    let fs =
        parse_filter_request(&vec![pair("str", FilterValue::Text("ПАТЕНТ".to_string()))]).unwrap();
    let recs = records(search_catalog(&cat, &fs));
    assert_eq!(recs.len(), 1);
    assert_eq!(recs[0].number, 5);
}

#[test]
fn entries_without_a_dimension_value_never_match_that_dimension() {
    let cat = sample_catalog();
    let fs = parse_filter_request(&vec![pair("y", items(&["2021", "2022"]))]).unwrap();
    let recs = records(search_catalog(&cat, &fs));
    assert!(recs.iter().all(|r| r.number != 4));
}
