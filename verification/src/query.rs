//! Composition of the full catalog query.
//!
//! The query projects each entry with its dimension names and its
//! aggregated author list, through left joins so that an entry lacking
//! a dimension value or lacking authors is kept with a null, groups the
//! multiplied author rows back to one row per entry by the entry's
//! identifier, and orders by year descending.  The filter predicate is
//! spliced in as placeholder text; the values travel separately as
//! parameters.

use vstd::prelude::*;
use crate::filters::{FilterModel, FilterSet};
use crate::predicate::{assemble_predicate, where_params, where_text};

verus! {

/// The projection and join part of the query, before any predicate.
pub open spec fn base_query_text() -> Seq<char> {
    "select RID.name as name, RID.description as description, RID.numPotent as number, Faculty.name as faculty, Type.name as rid_type, cast(Year.year as char) as year, SubjectArea.name as sub_area, RID.link as link, group_concat(FIO.surname, ' ', FIO.name, '.', FIO.lastname, '.', ' (', AuthorCountry.name, ')' SEPARATOR ', ') as authors from RID left join Faculty on (RID.idFaculty = Faculty.id) left join Type on (RID.idType = Type.id) left join Year on (RID.idYear = Year.id) left join SubjectArea on (RID.idSubjectArea = SubjectArea.id) left join AUTHORxRID on (AUTHORxRID.idRID = RID.id) left join ConnectionAuthorCountry on (ConnectionAuthorCountry.id = AUTHORxRID.idAuthor) left join AuthorCountry on (AuthorCountry.id = ConnectionAuthorCountry.idCountry) left join FIO on (FIO.id = ConnectionAuthorCountry.idFIO)"@
}

/// The grouping and ordering part: one row per entry identifier, years
/// descending.
pub open spec fn tail_query_text() -> Seq<char> {
    " group by RID.id order by Year.year desc"@
}

/// The whole query text a filter set yields.
pub open spec fn catalog_query_text(m: FilterModel) -> Seq<char> {
    base_query_text() + where_text(m) + tail_query_text()
}

/// A composed catalog query: its text, with `?` placeholders, and the
/// values to bind, in placeholder order.
pub struct CatalogQuery {
    pub sql: String,
    pub params: Vec<String>,
}

/// Composes the full catalog query for a filter set: base projection
/// and joins, the assembled predicate, grouping by the entry
/// identifier, and ordering by year descending.
pub fn build_catalog_query(f: &FilterSet) -> (r: CatalogQuery)
    ensures
        r.sql@ == catalog_query_text(f@),
        r.params.deep_view() == where_params(f@),
{
    let p = assemble_predicate(f);
    let mut sql = String::new();
    sql.append(
        "select RID.name as name, RID.description as description, RID.numPotent as number, Faculty.name as faculty, Type.name as rid_type, cast(Year.year as char) as year, SubjectArea.name as sub_area, RID.link as link, group_concat(FIO.surname, ' ', FIO.name, '.', FIO.lastname, '.', ' (', AuthorCountry.name, ')' SEPARATOR ', ') as authors from RID left join Faculty on (RID.idFaculty = Faculty.id) left join Type on (RID.idType = Type.id) left join Year on (RID.idYear = Year.id) left join SubjectArea on (RID.idSubjectArea = SubjectArea.id) left join AUTHORxRID on (AUTHORxRID.idRID = RID.id) left join ConnectionAuthorCountry on (ConnectionAuthorCountry.id = AUTHORxRID.idAuthor) left join AuthorCountry on (AuthorCountry.id = ConnectionAuthorCountry.idCountry) left join FIO on (FIO.id = ConnectionAuthorCountry.idFIO)",
    );
    sql.append(p.sql.as_str());
    sql.append(" group by RID.id order by Year.year desc");
    proof {
        assert(sql@ =~= catalog_query_text(f@));
    }
    CatalogQuery { sql, params: p.params }
}

} // verus!
