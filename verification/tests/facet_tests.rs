use rid_catalog::catalog::{Author, Entry};
use rid_catalog::facets::{faculty_facets, subject_area_facets, year_facets, FacetValue};
use rid_catalog::project::{project_row, project_rows, RawRow, SearchOutcome};

fn entry(
    number: i64,
    faculty: Option<&str>,
    year: Option<&str>,
    sub_area: Option<&str>,
) -> Entry {
    Entry {
        number,
        title: format!("entry {}", number),
        description: String::new(),
        link: None,
        faculty: faculty.map(|s| s.to_string()),
        rid_type: None,
        year: year.map(|s| s.to_string()),
        sub_area: sub_area.map(|s| s.to_string()),
        authors: Vec::<Author>::new(),
    }
}

fn as_pairs(fs: &[FacetValue]) -> Vec<(String, usize)> {
    fs.iter().map(|f| (f.label.clone(), f.count)).collect()
}

fn sample_catalog() -> Vec<Entry> {
    vec![
        entry(1, Some("Engineering"), Some("2021"), Some("Informatics")),
        entry(2, Some("Law"), Some("2021"), Some("Jurisprudence")),
        entry(3, Some("Engineering"), Some("2022"), Some("Informatics")),
        entry(4, Some("Engineering"), Some("2020"), Some("Informatics")),
        entry(5, None, None, None),
    ]
}

#[test]
fn subject_area_counts_order_by_count_descending() {
    let cat = sample_catalog();
    let fs = subject_area_facets(&cat);
    assert_eq!(
        as_pairs(&fs),
        vec![
            ("Informatics".to_string(), 3),
            ("Jurisprudence".to_string(), 1),
        ]
    );
}

#[test]
fn faculty_counts_order_by_count_descending() {
    let cat = sample_catalog();
    let fs = faculty_facets(&cat);
    assert_eq!(
        as_pairs(&fs),
        vec![("Engineering".to_string(), 3), ("Law".to_string(), 1)]
    );
}

#[test]
fn year_facet_orders_by_year_descending() {
    let cat = sample_catalog();
    let fs = year_facets(&cat);
    assert_eq!(
        as_pairs(&fs),
        vec![
            ("2022".to_string(), 1),
            ("2021".to_string(), 2),
            ("2020".to_string(), 1),
        ]
    );
}

#[test]
fn facet_counts_sum_to_entries_with_a_present_value() {
    let cat = sample_catalog();
    let with_sub_area = cat.iter().filter(|e| e.sub_area.is_some()).count();
    let sum: usize = subject_area_facets(&cat).iter().map(|f| f.count).sum();
    assert_eq!(sum, with_sub_area);

    let with_year = cat.iter().filter(|e| e.year.is_some()).count();
    let ysum: usize = year_facets(&cat).iter().map(|f| f.count).sum();
    assert_eq!(ysum, with_year);

    let with_faculty = cat.iter().filter(|e| e.faculty.is_some()).count();
    let fsum: usize = faculty_facets(&cat).iter().map(|f| f.count).sum();
    assert_eq!(fsum, with_faculty);
}

#[test]
fn absent_values_form_no_bucket() {
    let cat = sample_catalog();
    for f in subject_area_facets(&cat) {
        assert!(!f.label.is_empty());
    }
    assert_eq!(subject_area_facets(&cat).len(), 2);
}

#[test]
fn empty_catalog_has_empty_facets() {
    let cat: Vec<Entry> = Vec::new();
    assert!(subject_area_facets(&cat).is_empty());
    assert!(year_facets(&cat).is_empty());
    assert!(faculty_facets(&cat).is_empty());
}

#[test]
fn raw_row_projection_fills_absent_fields() {
    let row = RawRow {
        name: "Indexing engine".to_string(),
        description: "A search core".to_string(),
        number: 7,
        faculty: Some("Engineering".to_string()),
        rid_type: None,
        year: None,
        sub_area: Some("Informatics".to_string()),
        link: None,
        authors: None,
    };
    let rec = project_row(&row);
    assert_eq!(rec.number, 7);
    assert_eq!(rec.title, "Indexing engine");
    assert_eq!(rec.faculty, "Engineering");
    assert_eq!(rec.rid_type, "");
    assert_eq!(rec.year, "");
    assert_eq!(rec.link, "");
    assert_eq!(rec.authors, "Авторы не указаны");
}

#[test]
fn zero_rows_project_to_the_empty_outcome() {
    let rows: Vec<RawRow> = Vec::new();
    assert!(matches!(project_rows(&rows), SearchOutcome::NoResults));
}

#[test]
fn rows_project_one_record_each_in_order() {
    let rows = vec![
        RawRow {
            name: "A".to_string(),
            description: "d1".to_string(),
            number: 1,
            faculty: None,
            rid_type: None,
            year: Some("2021".to_string()),
            sub_area: None,
            link: Some("https://example.org/a".to_string()),
            authors: Some("Ivanov I.I. (RU)".to_string()),
        },
        RawRow {
            name: "B".to_string(),
            description: "d2".to_string(),
            number: 2,
            faculty: None,
            rid_type: None,
            year: None,
            sub_area: None,
            link: None,
            authors: None,
        },
    ];
    match project_rows(&rows) {
        SearchOutcome::Records(v) => {
            assert_eq!(v.len(), 2);
            assert_eq!(v[0].title, "A");
            assert_eq!(v[0].link, "https://example.org/a");
            assert_eq!(v[0].authors, "Ivanov I.I. (RU)");
            assert_eq!(v[1].title, "B");
            assert_eq!(v[1].link, "");
            assert_eq!(v[1].authors, "Авторы не указаны");
        }
        SearchOutcome::NoResults => panic!("expected records"),
    }
}
