//! The in-memory model of the catalog: entries, authors, display
//! records, the author-list formatting, and the meaning of a filter
//! set over an entry.
//!
//! An entry references at most one value per dimension; absence is a
//! `None` and must survive into the display record as an empty name,
//! never as a dropped entry.  The author relationship is many-valued
//! and is displayed as one concatenated string.

use vstd::prelude::*;
use crate::filters::{FilterModel, FilterSet};
use crate::predicate::{faculty_present, subject_present, text_present, year_present};
use crate::strings::{contains_ci, contains_ci_exec, str_eq};

verus! {

/// An author: a person with a country, linked to entries many-to-many.
pub struct Author {
    pub surname: String,
    pub given_name: String,
    pub patronymic: String,
    pub country: String,
}

/// One catalog entry with its dimension values and its authors.  A
/// `None` dimension value models a null reference.
pub struct Entry {
    pub number: i64,
    pub title: String,
    pub description: String,
    pub link: Option<String>,
    pub faculty: Option<String>,
    pub rid_type: Option<String>,
    pub year: Option<String>,
    pub sub_area: Option<String>,
    pub authors: Vec<Author>,
}

/// One display row of the result listing: every field a plain string,
/// an absent link or dimension an empty one, an absent author list the
/// fixed placeholder.
pub struct DisplayRecord {
    pub number: i64,
    pub title: String,
    pub description: String,
    pub faculty: String,
    pub rid_type: String,
    pub year: String,
    pub sub_area: String,
    pub link: String,
    pub authors: String,
}

/// The mathematical content of a display record.
pub struct DisplayModel {
    pub number: int,
    pub title: Seq<char>,
    pub description: Seq<char>,
    pub faculty: Seq<char>,
    pub rid_type: Seq<char>,
    pub year: Seq<char>,
    pub sub_area: Seq<char>,
    pub link: Seq<char>,
    pub authors: Seq<char>,
}

impl View for DisplayRecord {
    type V = DisplayModel;

    open spec fn view(&self) -> DisplayModel {
        DisplayModel {
            number: self.number as int,
            title: self.title@,
            description: self.description@,
            faculty: self.faculty@,
            rid_type: self.rid_type@,
            year: self.year@,
            sub_area: self.sub_area@,
            link: self.link@,
            authors: self.authors@,
        }
    }
}

/// One formatted author: surname, given name and patronymic
/// abbreviated by periods, country in parentheses.
pub open spec fn spec_format_author(a: Author) -> Seq<char> {
    a.surname@ + " "@ + a.given_name@ + "."@ + a.patronymic@ + "."@ + " ("@ + a.country@ + ")"@
}

/// The author list of an entry: each author formatted, joined by a
/// comma and a space.
pub open spec fn spec_join_authors(s: Seq<Author>) -> Seq<char>
    decreases s.len(),
{
    if s.len() == 0 {
        Seq::empty()
    } else if s.len() == 1 {
        spec_format_author(s[0])
    } else {
        spec_join_authors(s.drop_last()) + ", "@ + spec_format_author(s.last())
    }
}

/// The fixed placeholder shown when an entry has no author.
pub open spec fn no_authors_text() -> Seq<char> {
    "Авторы не указаны"@
}

/// The display name of an optional dimension value: empty when absent.
pub open spec fn opt_text(o: Option<String>) -> Seq<char> {
    match o {
        Some(s) => s@,
        None => Seq::empty(),
    }
}

/// The display record an entry projects to.
pub open spec fn spec_display_model(e: Entry) -> DisplayModel {
    DisplayModel {
        number: e.number as int,
        title: e.title@,
        description: e.description@,
        faculty: opt_text(e.faculty),
        rid_type: opt_text(e.rid_type),
        year: opt_text(e.year),
        sub_area: opt_text(e.sub_area),
        link: opt_text(e.link),
        authors: if e.authors@.len() == 0 {
            no_authors_text()
        } else {
            spec_join_authors(e.authors@)
        },
    }
}

/// Whether an optional dimension value equals one of the filter's
/// values; an absent value matches nothing.
pub open spec fn opt_matches(v: Option<String>, vals: Seq<Seq<char>>) -> bool {
    exists|k: int| 0 <= k < vals.len() && (v matches Some(s) && s@ == #[trigger] vals[k])
}

/// Whether an entry satisfies a filter set: every present dimension
/// group must accept it (conjunction); within a group any value may
/// match (disjunction); the text term matches case-insensitively as a
/// substring of the title or of the description.
pub open spec fn entry_matches(e: Entry, m: FilterModel) -> bool {
    &&& (faculty_present(m) ==> opt_matches(e.faculty, m.faculties))
    &&& (year_present(m) ==> opt_matches(e.year, m.years))
    &&& (subject_present(m) ==> opt_matches(e.sub_area, m.subject_areas))
    &&& (text_present(m) ==> (contains_ci(e.title@, m.text->0) || contains_ci(
        e.description@,
        m.text->0,
    )))
}

/// Formats one author.
pub fn format_author(a: &Author) -> (r: String)
    ensures
        r@ == spec_format_author(*a),
{
    let mut s = String::new();
    s.append(a.surname.as_str());
    s.append(" ");
    s.append(a.given_name.as_str());
    s.append(".");
    s.append(a.patronymic.as_str());
    s.append(".");
    s.append(" (");
    s.append(a.country.as_str());
    s.append(")");
    proof {
        assert(s@ =~= spec_format_author(*a));
    }
    s
}

/// Formats and joins the author list of an entry.
pub fn join_authors(authors: &Vec<Author>) -> (r: String)
    ensures
        r@ == spec_join_authors(authors@),
{
    let mut s = String::new();
    let mut i: usize = 0;
    while i < authors.len()
        invariant
            i <= authors@.len(),
            s@ == spec_join_authors(authors@.take(i as int)),
        decreases authors@.len() - i,
    {
        proof {
            assert(authors@.take(i + 1).drop_last() =~= authors@.take(i as int));
            assert(authors@.take(i + 1).last() == authors@[i as int]);
        }
        if i > 0 {
            s.append(", ");
        }
        let piece = format_author(&authors[i]);
        s.append(piece.as_str());
        proof {
            if i == 0 {
                assert(s@ =~= spec_join_authors(authors@.take(1)));
            } else {
                assert(s@ =~= spec_join_authors(authors@.take(i + 1)));
            }
        }
        i = i + 1;
    }
    proof {
        assert(authors@.take(authors@.len() as int) =~= authors@);
    }
    s
}

/// The display string of an optional value: a copy, or empty.
fn opt_string(o: &Option<String>) -> (r: String)
    ensures
        r@ == opt_text(*o),
{
    match o {
        Some(s) => s.clone(),
        None => String::new(),
    }
}

/// Projects an entry into its display record: names of absent
/// dimension values and an absent link become empty strings, an empty
/// author list becomes the fixed placeholder.
pub fn project_entry(e: &Entry) -> (r: DisplayRecord)
    ensures
        r@ == spec_display_model(*e),
{
    let authors = if e.authors.len() == 0 {
        String::from_str("Авторы не указаны")
    } else {
        join_authors(&e.authors)
    };
    DisplayRecord {
        number: e.number,
        title: e.title.clone(),
        description: e.description.clone(),
        faculty: opt_string(&e.faculty),
        rid_type: opt_string(&e.rid_type),
        year: opt_string(&e.year),
        sub_area: opt_string(&e.sub_area),
        link: opt_string(&e.link),
        authors,
    }
}

/// Whether an optional dimension value equals one of the given values.
fn opt_in_list(v: &Option<String>, vals: &Vec<String>) -> (r: bool)
    ensures
        r == opt_matches(*v, vals.deep_view()),
{
    match v {
        None => {
            proof {
                assert(!opt_matches(*v, vals.deep_view()));
            }
            false
        },
        Some(s) => {
            let mut k: usize = 0;
            while k < vals.len()
                invariant
                    k <= vals@.len(),
                    v matches Some(s2) && s2 == s,
                    forall|k2: int| 0 <= k2 < k ==> s@ != #[trigger] vals@[k2]@,
                decreases vals@.len() - k,
            {
                if str_eq(s.as_str(), vals[k].as_str()) {
                    proof {
                        assert(vals.deep_view()[k as int] == vals@[k as int]@);
                    }
                    return true;
                }
                k = k + 1;
            }
            proof {
                assert forall|k2: int| 0 <= k2 < vals.deep_view().len() implies s@
                    != vals.deep_view()[k2] by {
                    assert(vals.deep_view()[k2] == vals@[k2]@);
                }
            }
            false
        },
    }
}

/// Decides whether an entry satisfies a filter set.
pub fn entry_satisfies(e: &Entry, f: &FilterSet) -> (r: bool)
    ensures
        r == entry_matches(*e, f@),
{
    if f.faculties.len() > 0 {
        if !opt_in_list(&e.faculty, &f.faculties) {
            return false;
        }
    }
    if f.years.len() > 0 {
        if !opt_in_list(&e.year, &f.years) {
            return false;
        }
    }
    if f.subject_areas.len() > 0 {
        if !opt_in_list(&e.sub_area, &f.subject_areas) {
            return false;
        }
    }
    match &f.text {
        Some(t) => {
            if !t.as_str().is_empty() {
                if contains_ci_exec(e.title.as_str(), t.as_str()) {
                    return true;
                }
                return contains_ci_exec(e.description.as_str(), t.as_str());
            }
        },
        None => {},
    }
    true
}

} // verus!
