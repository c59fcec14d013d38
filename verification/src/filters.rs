//! Typed filter clauses parsed from a semi-structured filter request.
//!
//! A request arrives as an unordered list of key/value pairs.  The four
//! known keys select a dimension each: `"d"` faculty labels, `"y"` year
//! tokens, `"s"` subject-area labels, `"str"` one free-text term.
//! Unknown keys are ignored.  A known key whose value has the wrong
//! shape is a malformed request, reported as an error, never a crash.
//! Every accepted literal passes through the sanitizer.

use vstd::prelude::*;
use crate::sanitize::{spec_sanitize_label, spec_sanitize_numeric, sanitize_label, sanitize_numeric};
use crate::strings::str_eq;

verus! {

/// One value of the incoming request mapping, already reduced to the
/// shapes the parser distinguishes: a single string, a list of strings,
/// or anything else.
#[derive(Debug)]
pub enum FilterValue {
    Text(String),
    Items(Vec<String>),
    Other,
}

/// A filterable dimension of the catalog, in the fixed order the
/// predicate assembler emits groups.
#[derive(Debug, Clone, Copy, PartialEq, Eq, Structural)]
pub enum Dim {
    Faculty,
    Year,
    SubjectArea,
    Text,
}

/// The typed, sanitized clauses of one filter request.  An absent
/// dimension is an empty clause: `None` text, an empty list elsewhere.
#[derive(Debug)]
pub struct FilterSet {
    pub text: Option<String>,
    pub years: Vec<String>,
    pub subject_areas: Vec<String>,
    pub faculties: Vec<String>,
}

/// The mathematical content of a `FilterSet`.
pub struct FilterModel {
    pub text: Option<Seq<char>>,
    pub years: Seq<Seq<char>>,
    pub subject_areas: Seq<Seq<char>>,
    pub faculties: Seq<Seq<char>>,
}

impl View for FilterSet {
    type V = FilterModel;

    open spec fn view(&self) -> FilterModel {
        FilterModel {
            text: match self.text {
                Some(t) => Some(t@),
                None => None,
            },
            years: self.years.deep_view(),
            subject_areas: self.subject_areas.deep_view(),
            faculties: self.faculties.deep_view(),
        }
    }
}

impl FilterSet {
    /// A filter set with every clause empty: the unfiltered listing.
    pub fn empty() -> (r: FilterSet)
        ensures
            r@ == (FilterModel {
                text: None::<Seq<char>>,
                years: Seq::<Seq<char>>::empty(),
                subject_areas: Seq::<Seq<char>>::empty(),
                faculties: Seq::<Seq<char>>::empty(),
            }),
    {
        let r = FilterSet { text: None, years: Vec::new(), subject_areas: Vec::new(), faculties: Vec::new() };
        proof {
            assert(r.years.deep_view() =~= Seq::<Seq<char>>::empty());
            assert(r.subject_areas.deep_view() =~= Seq::<Seq<char>>::empty());
            assert(r.faculties.deep_view() =~= Seq::<Seq<char>>::empty());
        }
        r
    }
}

/// The dimension a request key selects, if any.
pub open spec fn key_dim(k: Seq<char>) -> Option<Dim> {
    if k == "d"@ {
        Some(Dim::Faculty)
    } else if k == "y"@ {
        Some(Dim::Year)
    } else if k == "s"@ {
        Some(Dim::SubjectArea)
    } else if k == "str"@ {
        Some(Dim::Text)
    } else {
        None
    }
}

/// Whether a value has the shape its dimension requires: one string
/// for the text dimension, a non-empty list of strings elsewhere.
pub open spec fn shape_ok(d: Dim, v: FilterValue) -> bool {
    match d {
        Dim::Text => v is Text,
        _ => v matches FilterValue::Items(items) && items.len() > 0,
    }
}

/// The dimension of the first pair whose key is known but whose value
/// has the wrong shape, if one exists.
pub open spec fn first_bad(pairs: Seq<(String, FilterValue)>) -> Option<Dim>
    decreases pairs.len(),
{
    if pairs.len() == 0 {
        None
    } else {
        let prior = first_bad(pairs.drop_last());
        if prior is Some {
            prior
        } else {
            match key_dim(pairs.last().0@) {
                Some(d) => if !shape_ok(d, pairs.last().1) {
                    Some(d)
                } else {
                    None
                },
                None => None,
            }
        }
    }
}

/// The value of the first pair whose key selects dimension `d`.
pub open spec fn find_dim(pairs: Seq<(String, FilterValue)>, d: Dim) -> Option<FilterValue>
    decreases pairs.len(),
{
    if pairs.len() == 0 {
        None
    } else {
        let prior = find_dim(pairs.drop_last(), d);
        if prior is Some {
            prior
        } else if key_dim(pairs.last().0@) == Some(d) {
            Some(pairs.last().1)
        } else {
            None
        }
    }
}

/// The sanitized text clause a request yields.
pub open spec fn text_clause(pairs: Seq<(String, FilterValue)>) -> Option<Seq<char>> {
    match find_dim(pairs, Dim::Text) {
        Some(FilterValue::Text(t)) => Some(spec_sanitize_label(t@)),
        _ => None,
    }
}

/// The sanitized year clause a request yields.
pub open spec fn years_clause(pairs: Seq<(String, FilterValue)>) -> Seq<Seq<char>> {
    match find_dim(pairs, Dim::Year) {
        Some(FilterValue::Items(items)) => items.deep_view().map_values(
            |s: Seq<char>| spec_sanitize_numeric(s),
        ),
        _ => Seq::empty(),
    }
}

/// The sanitized subject-area clause a request yields.
pub open spec fn subject_areas_clause(pairs: Seq<(String, FilterValue)>) -> Seq<Seq<char>> {
    match find_dim(pairs, Dim::SubjectArea) {
        Some(FilterValue::Items(items)) => items.deep_view().map_values(
            |s: Seq<char>| spec_sanitize_label(s),
        ),
        _ => Seq::empty(),
    }
}

/// The sanitized faculty clause a request yields.
pub open spec fn faculties_clause(pairs: Seq<(String, FilterValue)>) -> Seq<Seq<char>> {
    match find_dim(pairs, Dim::Faculty) {
        Some(FilterValue::Items(items)) => items.deep_view().map_values(
            |s: Seq<char>| spec_sanitize_label(s),
        ),
        _ => Seq::empty(),
    }
}

/// What parsing a request returns: the typed clauses, or the dimension
/// of the first malformed value.
pub open spec fn spec_parse(pairs: Seq<(String, FilterValue)>) -> Result<FilterModel, Dim> {
    match first_bad(pairs) {
        Some(d) => Err(d),
        None => Ok(
            FilterModel {
                text: text_clause(pairs),
                years: years_clause(pairs),
                subject_areas: subject_areas_clause(pairs),
                faculties: faculties_clause(pairs),
            },
        ),
    }
}

/// Once a prefix holds a malformed pair, the whole request does, with
/// the same dimension reported.
proof fn lemma_first_bad_extends(pairs: Seq<(String, FilterValue)>, j: int)
    requires
        0 <= j <= pairs.len(),
        first_bad(pairs.take(j)) is Some,
    ensures
        first_bad(pairs) == first_bad(pairs.take(j)),
    decreases pairs.len() - j,
{
    if j == pairs.len() {
        assert(pairs.take(j) =~= pairs);
    } else {
        assert(pairs.take(j + 1).drop_last() =~= pairs.take(j));
        lemma_first_bad_extends(pairs, j + 1);
    }
}

/// Maps a request key to its dimension.
fn key_dim_exec(k: &str) -> (r: Option<Dim>)
    ensures
        r == key_dim(k@),
{
    if str_eq(k, "d") {
        Some(Dim::Faculty)
    } else if str_eq(k, "y") {
        Some(Dim::Year)
    } else if str_eq(k, "s") {
        Some(Dim::SubjectArea)
    } else if str_eq(k, "str") {
        Some(Dim::Text)
    } else {
        None
    }
}

/// Sanitizes every label of a list.
fn sanitize_labels(items: &Vec<String>) -> (r: Vec<String>)
    ensures
        r.deep_view() == items.deep_view().map_values(|s: Seq<char>| spec_sanitize_label(s)),
{
    let mut r: Vec<String> = Vec::new();
    let mut i: usize = 0;
    while i < items.len()
        invariant
            i <= items.len(),
            r@.len() == i,
            forall|j: int| 0 <= j < i ==> r@[j]@ == spec_sanitize_label(#[trigger] items@[j]@),
        decreases items.len() - i,
    {
        r.push(sanitize_label(items[i].as_str()));
        i = i + 1;
    }
    proof {
        assert(r.deep_view() =~= items.deep_view().map_values(
            |s: Seq<char>| spec_sanitize_label(s),
        ));
    }
    r
}

/// Sanitizes every numeric token of a list.
fn sanitize_numerics(items: &Vec<String>) -> (r: Vec<String>)
    ensures
        r.deep_view() == items.deep_view().map_values(|s: Seq<char>| spec_sanitize_numeric(s)),
{
    let mut r: Vec<String> = Vec::new();
    let mut i: usize = 0;
    while i < items.len()
        invariant
            i <= items.len(),
            r@.len() == i,
            forall|j: int| 0 <= j < i ==> r@[j]@ == spec_sanitize_numeric(#[trigger] items@[j]@),
        decreases items.len() - i,
    {
        r.push(sanitize_numeric(items[i].as_str()));
        i = i + 1;
    }
    proof {
        assert(r.deep_view() =~= items.deep_view().map_values(
            |s: Seq<char>| spec_sanitize_numeric(s),
        ));
    }
    r
}

/// Parses a filter request into its typed, sanitized clauses.
///
/// The first pair carrying each known key decides that dimension's
/// clause; unknown keys are ignored.  A known key whose value has the
/// wrong shape makes the whole request malformed, and the dimension of
/// the first such pair is returned as the error.
pub fn parse_filter_request(pairs: &Vec<(String, FilterValue)>) -> (r: Result<FilterSet, Dim>)
    ensures
        ({
            let m = spec_parse(pairs@);
            match r {
                Ok(fs) => m is Ok && fs@ == m->Ok_0,
                Err(d) => m is Err && d == m->Err_0,
            }
        }),
{
    let mut text: Option<String> = None;
    let mut years: Option<Vec<String>> = None;
    let mut subject_areas: Option<Vec<String>> = None;
    let mut faculties: Option<Vec<String>> = None;
    let mut i: usize = 0;
    while i < pairs.len()
        invariant
            i <= pairs.len(),
            first_bad(pairs@.take(i as int)) is None,
            match text {
                Some(t) => find_dim(pairs@.take(i as int), Dim::Text) is Some && text_clause(
                    pairs@.take(i as int),
                ) == Some(t@),
                None => find_dim(pairs@.take(i as int), Dim::Text) is None,
            },
            match years {
                Some(v) => find_dim(pairs@.take(i as int), Dim::Year) is Some && v.deep_view()
                    == years_clause(pairs@.take(i as int)),
                None => find_dim(pairs@.take(i as int), Dim::Year) is None,
            },
            match subject_areas {
                Some(v) => find_dim(pairs@.take(i as int), Dim::SubjectArea) is Some
                    && v.deep_view() == subject_areas_clause(pairs@.take(i as int)),
                None => find_dim(pairs@.take(i as int), Dim::SubjectArea) is None,
            },
            match faculties {
                Some(v) => find_dim(pairs@.take(i as int), Dim::Faculty) is Some && v.deep_view()
                    == faculties_clause(pairs@.take(i as int)),
                None => find_dim(pairs@.take(i as int), Dim::Faculty) is None,
            },
        decreases pairs.len() - i,
    {
        proof {
            assert(pairs@.take(i + 1).drop_last() =~= pairs@.take(i as int));
            assert(pairs@.take(i + 1).last() == pairs@[i as int]);
        }
        let pair = &pairs[i];
        match key_dim_exec(pair.0.as_str()) {
            None => {},
            Some(Dim::Text) => {
                match &pair.1 {
                    FilterValue::Text(t) => {
                        if text.is_none() {
                            text = Some(sanitize_label(t.as_str()));
                        }
                    },
                    _ => {
                        proof {
                            lemma_first_bad_extends(pairs@, i + 1);
                        }
                        return Err(Dim::Text);
                    },
                }
            },
            Some(Dim::Year) => {
                match &pair.1 {
                    FilterValue::Items(items) => {
                        if items.len() == 0 {
                            proof {
                                lemma_first_bad_extends(pairs@, i + 1);
                            }
                            return Err(Dim::Year);
                        }
                        if years.is_none() {
                            years = Some(sanitize_numerics(items));
                        }
                    },
                    _ => {
                        proof {
                            lemma_first_bad_extends(pairs@, i + 1);
                        }
                        return Err(Dim::Year);
                    },
                }
            },
            Some(Dim::SubjectArea) => {
                match &pair.1 {
                    FilterValue::Items(items) => {
                        if items.len() == 0 {
                            proof {
                                lemma_first_bad_extends(pairs@, i + 1);
                            }
                            return Err(Dim::SubjectArea);
                        }
                        if subject_areas.is_none() {
                            subject_areas = Some(sanitize_labels(items));
                        }
                    },
                    _ => {
                        proof {
                            lemma_first_bad_extends(pairs@, i + 1);
                        }
                        return Err(Dim::SubjectArea);
                    },
                }
            },
            Some(Dim::Faculty) => {
                match &pair.1 {
                    FilterValue::Items(items) => {
                        if items.len() == 0 {
                            proof {
                                lemma_first_bad_extends(pairs@, i + 1);
                            }
                            return Err(Dim::Faculty);
                        }
                        if faculties.is_none() {
                            faculties = Some(sanitize_labels(items));
                        }
                    },
                    _ => {
                        proof {
                            lemma_first_bad_extends(pairs@, i + 1);
                        }
                        return Err(Dim::Faculty);
                    },
                }
            },
        }
        i = i + 1;
    }
    proof {
        assert(pairs@.take(pairs@.len() as int) =~= pairs@);
    }
    let years_v: Vec<String> = match years {
        Some(v) => v,
        None => Vec::new(),
    };
    let subject_areas_v: Vec<String> = match subject_areas {
        Some(v) => v,
        None => Vec::new(),
    };
    let faculties_v: Vec<String> = match faculties {
        Some(v) => v,
        None => Vec::new(),
    };
    proof {
        assert(years_v.deep_view() =~= years_clause(pairs@));
        assert(subject_areas_v.deep_view() =~= subject_areas_clause(pairs@));
        assert(faculties_v.deep_view() =~= faculties_clause(pairs@));
    }
    Ok(FilterSet { text, years: years_v, subject_areas: subject_areas_v, faculties: faculties_v })
}

} // verus!
