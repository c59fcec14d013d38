//! Projection of joined, aggregated store rows into display records.
//!
//! One display record per returned row; an absent link becomes an
//! empty string, an absent author list the fixed placeholder.  Zero
//! rows is a valid, distinct outcome, kept apart from a store failure
//! by the caller.

use vstd::prelude::*;
use crate::catalog::{no_authors_text, opt_text, DisplayModel, DisplayRecord};

verus! {

/// One row as the store returns it: the entry columns, the dimension
/// names (null when the entry lacks the dimension), and the aggregated
/// author list (null when the entry has no author).
pub struct RawRow {
    pub name: String,
    pub description: String,
    pub number: i64,
    pub faculty: Option<String>,
    pub rid_type: Option<String>,
    pub year: Option<String>,
    pub sub_area: Option<String>,
    pub link: Option<String>,
    pub authors: Option<String>,
}

/// The display record a raw row projects to.
pub open spec fn spec_row_model(row: RawRow) -> DisplayModel {
    DisplayModel {
        number: row.number as int,
        title: row.name@,
        description: row.description@,
        faculty: opt_text(row.faculty),
        rid_type: opt_text(row.rid_type),
        year: opt_text(row.year),
        sub_area: opt_text(row.sub_area),
        link: opt_text(row.link),
        authors: match row.authors {
            Some(s) => s@,
            None => no_authors_text(),
        },
    }
}

/// The outcome of a search: either the matched display records, or the
/// distinguished empty outcome.  An empty match set is not an error.
pub enum SearchOutcome {
    NoResults,
    Records(Vec<DisplayRecord>),
}

/// The display string of an optional value: a copy, or empty.
fn opt_display(o: &Option<String>) -> (r: String)
    ensures
        r@ == opt_text(*o),
{
    match o {
        Some(s) => s.clone(),
        None => String::new(),
    }
}

/// Projects one raw row into a display record.
pub fn project_row(row: &RawRow) -> (r: DisplayRecord)
    ensures
        r@ == spec_row_model(*row),
{
    let authors = match &row.authors {
        Some(s) => s.clone(),
        None => String::from_str("Авторы не указаны"),
    };
    DisplayRecord {
        number: row.number,
        title: row.name.clone(),
        description: row.description.clone(),
        faculty: opt_display(&row.faculty),
        rid_type: opt_display(&row.rid_type),
        year: opt_display(&row.year),
        sub_area: opt_display(&row.sub_area),
        link: opt_display(&row.link),
        authors,
    }
}

/// Projects the returned rows: one display record per row, in row
/// order; zero rows becomes the distinguished empty outcome.
pub fn project_rows(rows: &Vec<RawRow>) -> (r: SearchOutcome)
    ensures
        (r is NoResults) == (rows@.len() == 0),
        r matches SearchOutcome::Records(v) ==> v@.len() == rows@.len() && (forall|i: int|
            0 <= i < rows@.len() ==> #[trigger] v@[i]@ == spec_row_model(rows@[i])),
{
    if rows.len() == 0 {
        return SearchOutcome::NoResults;
    }
    let mut v: Vec<DisplayRecord> = Vec::new();
    let mut i: usize = 0;
    while i < rows.len()
        invariant
            i <= rows@.len(),
            v@.len() == i,
            forall|j: int| 0 <= j < i ==> #[trigger] v@[j]@ == spec_row_model(rows@[j]),
        decreases rows@.len() - i,
    {
        v.push(project_row(&rows[i]));
        i = i + 1;
    }
    SearchOutcome::Records(v)
}

} // verus!
