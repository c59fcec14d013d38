//! Assembly of the filter predicate as parameterized query text.
//!
//! The predicate is a conjunction of per-dimension groups, emitted in
//! the fixed order faculty, year, subject area, text; an empty clause
//! contributes no group.  Within a group the values are a disjunction
//! of equality comparisons; the text group is a disjunction of two
//! case-insensitive substring matches.  User values never enter the
//! query text: every value becomes a `?` placeholder and a parameter,
//! so the text's structure depends only on how many values each clause
//! holds.

use vstd::prelude::*;
use crate::filters::{Dim, FilterModel, FilterSet};

verus! {

/// `piece` repeated `n` times.
pub open spec fn or_rep(piece: Seq<char>, n: nat) -> Seq<char>
    decreases n,
{
    if n == 0 {
        Seq::empty()
    } else {
        or_rep(piece, (n - 1) as nat) + piece
    }
}

/// The faculty group: one placeholder equality per value, joined by
/// `or`.
pub open spec fn faculty_group_text(n: nat) -> Seq<char> {
    if n == 0 {
        Seq::empty()
    } else {
        " (Faculty.name = ?"@ + or_rep(" or Faculty.name = ?"@, (n - 1) as nat) + ")"@
    }
}

/// The year group: one placeholder equality per value, joined by `or`.
pub open spec fn year_group_text(n: nat) -> Seq<char> {
    if n == 0 {
        Seq::empty()
    } else {
        " (Year.year = ?"@ + or_rep(" or Year.year = ?"@, (n - 1) as nat) + ")"@
    }
}

/// The subject-area group: one placeholder equality per value, joined
/// by `or`.
pub open spec fn subject_group_text(n: nat) -> Seq<char> {
    if n == 0 {
        Seq::empty()
    } else {
        " (SubjectArea.name = ?"@ + or_rep(" or SubjectArea.name = ?"@, (n - 1) as nat) + ")"@
    }
}

/// The text group: the term is matched case-insensitively against the
/// title and the description, through two placeholders.
pub open spec fn text_group_text() -> Seq<char> {
    " ((lower(RID.name) like lower(?)) or (lower(RID.description) like lower(?)))"@
}

/// Whether each dimension contributes a group.
pub open spec fn faculty_present(m: FilterModel) -> bool {
    m.faculties.len() > 0
}

pub open spec fn year_present(m: FilterModel) -> bool {
    m.years.len() > 0
}

pub open spec fn subject_present(m: FilterModel) -> bool {
    m.subject_areas.len() > 0
}

pub open spec fn text_present(m: FilterModel) -> bool {
    m.text matches Some(t) && t.len() > 0
}

/// The separator put before a group: `where` before the first, `and`
/// before every later one.
pub open spec fn sep_text(first: bool) -> Seq<char> {
    if first {
        " where"@
    } else {
        " and"@
    }
}

/// The pattern a text term is wrapped in for a substring match.
pub open spec fn like_pattern(t: Seq<char>) -> Seq<char> {
    "%"@ + t + "%"@
}

/// The predicate text after considering the faculty group.
pub open spec fn after_faculty_text(m: FilterModel) -> Seq<char> {
    if faculty_present(m) {
        sep_text(true) + faculty_group_text(m.faculties.len())
    } else {
        Seq::empty()
    }
}

pub open spec fn after_faculty_first(m: FilterModel) -> bool {
    !faculty_present(m)
}

/// The predicate text after considering the year group.
pub open spec fn after_year_text(m: FilterModel) -> Seq<char> {
    if year_present(m) {
        after_faculty_text(m) + sep_text(after_faculty_first(m)) + year_group_text(m.years.len())
    } else {
        after_faculty_text(m)
    }
}

pub open spec fn after_year_first(m: FilterModel) -> bool {
    after_faculty_first(m) && !year_present(m)
}

/// The predicate text after considering the subject-area group.
pub open spec fn after_subject_text(m: FilterModel) -> Seq<char> {
    if subject_present(m) {
        after_year_text(m) + sep_text(after_year_first(m)) + subject_group_text(
            m.subject_areas.len(),
        )
    } else {
        after_year_text(m)
    }
}

pub open spec fn after_subject_first(m: FilterModel) -> bool {
    after_year_first(m) && !subject_present(m)
}

/// The whole predicate text: empty when no group is present.
pub open spec fn where_text(m: FilterModel) -> Seq<char> {
    if text_present(m) {
        after_subject_text(m) + sep_text(after_subject_first(m)) + text_group_text()
    } else {
        after_subject_text(m)
    }
}

/// The parameters bound to the placeholders, in placeholder order.
pub open spec fn where_params(m: FilterModel) -> Seq<Seq<char>> {
    m.faculties + m.years + m.subject_areas + (if text_present(m) {
        seq![like_pattern(m.text->0), like_pattern(m.text->0)]
    } else {
        Seq::empty()
    })
}

/// Whether a dimension contributes a group.
pub open spec fn dim_present(m: FilterModel, d: Dim) -> bool {
    match d {
        Dim::Faculty => faculty_present(m),
        Dim::Year => year_present(m),
        Dim::SubjectArea => subject_present(m),
        Dim::Text => text_present(m),
    }
}

/// The group text a dimension contributes.
pub open spec fn group_text_of(m: FilterModel, d: Dim) -> Seq<char> {
    match d {
        Dim::Faculty => faculty_group_text(m.faculties.len()),
        Dim::Year => year_group_text(m.years.len()),
        Dim::SubjectArea => subject_group_text(m.subject_areas.len()),
        Dim::Text => text_group_text(),
    }
}

/// The parameters a dimension's group binds.
pub open spec fn group_params_of(m: FilterModel, d: Dim) -> Seq<Seq<char>> {
    match d {
        Dim::Faculty => m.faculties,
        Dim::Year => m.years,
        Dim::SubjectArea => m.subject_areas,
        Dim::Text => seq![like_pattern(m.text->0), like_pattern(m.text->0)],
    }
}

/// The dimensions that contribute a group, in the fixed emission
/// order: faculty, year, subject area, text; an empty clause is
/// omitted.
pub open spec fn present_dims(m: FilterModel) -> Seq<Dim> {
    (if faculty_present(m) {
        seq![Dim::Faculty]
    } else {
        Seq::empty()
    }) + (if year_present(m) {
        seq![Dim::Year]
    } else {
        Seq::empty()
    }) + (if subject_present(m) {
        seq![Dim::SubjectArea]
    } else {
        Seq::empty()
    }) + (if text_present(m) {
        seq![Dim::Text]
    } else {
        Seq::empty()
    })
}

/// A list of groups joined into predicate text: `where` before the
/// first group, `and` before every later one.
pub open spec fn joined_groups(m: FilterModel, dims: Seq<Dim>, first: bool) -> Seq<char>
    decreases dims.len(),
{
    if dims.len() == 0 {
        Seq::empty()
    } else {
        sep_text(first) + group_text_of(m, dims[0]) + joined_groups(m, dims.drop_first(), false)
    }
}

/// The parameters of a list of groups, concatenated in group order.
pub open spec fn joined_params(m: FilterModel, dims: Seq<Dim>) -> Seq<Seq<char>>
    decreases dims.len(),
{
    if dims.len() == 0 {
        Seq::empty()
    } else {
        group_params_of(m, dims[0]) + joined_params(m, dims.drop_first())
    }
}

/// Appending one more group to a joined list appends its separator and
/// text.
#[verifier::rlimit(50)]
proof fn lemma_joined_groups_push(m: FilterModel, dims: Seq<Dim>, d: Dim, first: bool)
    ensures
        joined_groups(m, dims.push(d), first) == joined_groups(m, dims, first) + sep_text(
            first && dims.len() == 0,
        ) + group_text_of(m, d),
    decreases dims.len(),
{
    reveal_with_fuel(joined_groups, 3);
    if dims.len() == 0 {
        assert(dims.push(d)[0] == d);
        assert(dims.push(d).drop_first() =~= Seq::<Dim>::empty());
        assert(joined_groups(m, dims.push(d), first) == sep_text(first) + group_text_of(m, d)
            + Seq::<char>::empty());
        assert(sep_text(first) + group_text_of(m, d) + Seq::<char>::empty() =~= Seq::<
            char,
        >::empty() + sep_text(first) + group_text_of(m, d));
    } else {
        let tail = dims.drop_first();
        assert(dims.push(d)[0] == dims[0]);
        assert(dims.push(d).drop_first() =~= tail.push(d));
        lemma_joined_groups_push(m, tail, d, false);
        assert(joined_groups(m, dims.push(d), first) == sep_text(first) + group_text_of(
            m,
            dims[0],
        ) + (joined_groups(m, tail, false) + sep_text(false) + group_text_of(m, d)));
        assert(sep_text(first) + group_text_of(m, dims[0]) + (joined_groups(m, tail, false)
            + sep_text(false) + group_text_of(m, d)) =~= (sep_text(first) + group_text_of(
            m,
            dims[0],
        ) + joined_groups(m, tail, false)) + sep_text(false) + group_text_of(m, d));
    }
}

/// Appending one more group to a joined list appends its parameters.
#[verifier::rlimit(50)]
proof fn lemma_joined_params_push(m: FilterModel, dims: Seq<Dim>, d: Dim)
    ensures
        joined_params(m, dims.push(d)) == joined_params(m, dims) + group_params_of(m, d),
    decreases dims.len(),
{
    reveal_with_fuel(joined_params, 3);
    if dims.len() == 0 {
        assert(dims.push(d)[0] == d);
        assert(dims.push(d).drop_first() =~= Seq::<Dim>::empty());
        assert(joined_params(m, dims.push(d)) == group_params_of(m, d) + Seq::<Seq<char>>::empty());
        assert(group_params_of(m, d) + Seq::<Seq<char>>::empty() =~= Seq::<Seq<char>>::empty()
            + group_params_of(m, d));
    } else {
        let tail = dims.drop_first();
        assert(dims.push(d)[0] == dims[0]);
        assert(dims.push(d).drop_first() =~= tail.push(d));
        lemma_joined_params_push(m, tail, d);
        assert(joined_params(m, dims.push(d)) == group_params_of(m, dims[0]) + (joined_params(
            m,
            tail,
        ) + group_params_of(m, d)));
        assert(group_params_of(m, dims[0]) + (joined_params(m, tail) + group_params_of(m, d)) =~= (
        group_params_of(m, dims[0]) + joined_params(m, tail)) + group_params_of(m, d));
    }
}

/// The predicate emits exactly the present dimension groups, in the
/// fixed order faculty, year, subject area, text, `where` before the
/// first and `and` between them, and emits nothing when no group is
/// present; the parameters follow the same group order.
pub proof fn lemma_predicate_group_order(m: FilterModel)
    ensures
        where_text(m) == joined_groups(m, present_dims(m), true),
        where_params(m) == joined_params(m, present_dims(m)),
        present_dims(m).len() == 0 ==> where_text(m) == Seq::<char>::empty(),
        forall|d: Dim| #[trigger] present_dims(m).contains(d) <==> dim_present(m, d),
{
    let e0 = Seq::<Dim>::empty();
    let e1 = if faculty_present(m) {
        e0.push(Dim::Faculty)
    } else {
        e0
    };
    let e2 = if year_present(m) {
        e1.push(Dim::Year)
    } else {
        e1
    };
    let e3 = if subject_present(m) {
        e2.push(Dim::SubjectArea)
    } else {
        e2
    };
    let e4 = if text_present(m) {
        e3.push(Dim::Text)
    } else {
        e3
    };
    assert(e4 =~= present_dims(m));

    if faculty_present(m) {
        lemma_joined_groups_push(m, e0, Dim::Faculty, true);
        lemma_joined_params_push(m, e0, Dim::Faculty);
        assert(joined_groups(m, e1, true) =~= after_faculty_text(m));
    }
    assert(joined_groups(m, e1, true) == after_faculty_text(m));
    assert((e1.len() == 0) == after_faculty_first(m));

    if year_present(m) {
        lemma_joined_groups_push(m, e1, Dim::Year, true);
        lemma_joined_params_push(m, e1, Dim::Year);
        assert(joined_groups(m, e2, true) =~= after_year_text(m));
    }
    assert(joined_groups(m, e2, true) == after_year_text(m));
    assert((e2.len() == 0) == after_year_first(m));

    if subject_present(m) {
        lemma_joined_groups_push(m, e2, Dim::SubjectArea, true);
        lemma_joined_params_push(m, e2, Dim::SubjectArea);
        assert(joined_groups(m, e3, true) =~= after_subject_text(m));
    }
    assert(joined_groups(m, e3, true) == after_subject_text(m));
    assert((e3.len() == 0) == after_subject_first(m));

    if text_present(m) {
        lemma_joined_groups_push(m, e3, Dim::Text, true);
        lemma_joined_params_push(m, e3, Dim::Text);
        assert(joined_groups(m, e4, true) =~= where_text(m));
    }
    assert(joined_groups(m, e4, true) == where_text(m));

    assert(joined_params(m, e4) =~= where_params(m));

    assert forall|d: Dim| #[trigger] present_dims(m).contains(d) <==> dim_present(m, d) by {
        if dim_present(m, d) {
            match d {
                Dim::Faculty => {
                    assert(present_dims(m)[0] == Dim::Faculty);
                },
                Dim::Year => {
                    let i = if faculty_present(m) {
                        1int
                    } else {
                        0int
                    };
                    assert(present_dims(m)[i] == Dim::Year);
                },
                Dim::SubjectArea => {
                    let i = (if faculty_present(m) {
                        1int
                    } else {
                        0int
                    }) + (if year_present(m) {
                        1int
                    } else {
                        0int
                    });
                    assert(present_dims(m)[i] == Dim::SubjectArea);
                },
                Dim::Text => {
                    let i = (if faculty_present(m) {
                        1int
                    } else {
                        0int
                    }) + (if year_present(m) {
                        1int
                    } else {
                        0int
                    }) + (if subject_present(m) {
                        1int
                    } else {
                        0int
                    });
                    assert(present_dims(m)[i] == Dim::Text);
                },
            }
        }
    }
}

/// The query text never depends on the values a filter holds, only on
/// how many values each clause holds: two filter sets of the same
/// shape yield character-for-character the same predicate text.  A
/// value can therefore never alter the query's structural boundaries.
pub proof fn lemma_predicate_text_value_independent(m1: FilterModel, m2: FilterModel)
    requires
        m1.faculties.len() == m2.faculties.len(),
        m1.years.len() == m2.years.len(),
        m1.subject_areas.len() == m2.subject_areas.len(),
        text_present(m1) == text_present(m2),
    ensures
        where_text(m1) == where_text(m2),
{
}

/// An assembled predicate: the `where` text with `?` placeholders, and
/// the values to bind to them, in order.
pub struct Predicate {
    pub sql: String,
    pub params: Vec<String>,
}

/// Builds `head` followed by `k - 1` separator pieces and a closing
/// parenthesis: an `or` group over `k` placeholders.
fn or_group(head: &str, piece: &str, k: usize) -> (r: String)
    requires
        k > 0,
    ensures
        r@ == head@ + or_rep(piece@, (k - 1) as nat) + ")"@,
{
    let mut s = String::new();
    s.append(head);
    proof {
        assert(Seq::<char>::empty() + head@ =~= head@);
        assert(head@ + or_rep(piece@, 0) =~= head@);
    }
    let mut j: usize = 1;
    while j < k
        invariant
            1 <= j <= k,
            s@ == head@ + or_rep(piece@, (j - 1) as nat),
        decreases k - j,
    {
        s.append(piece);
        proof {
            assert(head@ + or_rep(piece@, (j - 1) as nat) + piece@ =~= head@ + (or_rep(
                piece@,
                (j - 1) as nat,
            ) + piece@));
        }
        j = j + 1;
    }
    s.append(")");
    s
}

/// Appends a copy of every value of `vals` to `params`.
fn push_params(params: &mut Vec<String>, vals: &Vec<String>)
    ensures
        final(params)@.len() == old(params)@.len() + vals@.len(),
        forall|j: int|
            0 <= j < old(params)@.len() ==> final(params)@[j] == #[trigger] old(params)@[j],
        forall|j: int|
            0 <= j < vals@.len() ==> final(params)@[old(params)@.len() + j] == #[trigger] vals@[j],
{
    let mut i: usize = 0;
    while i < vals.len()
        invariant
            i <= vals@.len(),
            params@.len() == old(params)@.len() + i,
            forall|j: int|
                0 <= j < old(params)@.len() ==> params@[j] == #[trigger] old(params)@[j],
            forall|j: int| 0 <= j < i ==> params@[old(params)@.len() + j] == #[trigger] vals@[j],
        decreases vals@.len() - i,
    {
        params.push(vals[i].clone());
        i = i + 1;
    }
}

/// The `%`-wrapped pattern for a case-insensitive substring match.
fn build_like_pattern(t: &str) -> (r: String)
    ensures
        r@ == like_pattern(t@),
{
    let mut s = String::new();
    s.append("%");
    s.append(t);
    s.append("%");
    proof {
        assert(Seq::<char>::empty() + "%"@ =~= "%"@);
        assert("%"@ + t@ + "%"@ =~= ("%"@ + t@) + "%"@);
    }
    s
}

/// Assembles the filter predicate: the `where` text (empty when every
/// clause is empty) and the parameters for its placeholders, with the
/// dimension groups in the fixed order faculty, year, subject area,
/// text.
pub fn assemble_predicate(f: &FilterSet) -> (r: Predicate)
    ensures
        r.sql@ == where_text(f@),
        r.params.deep_view() == where_params(f@),
{
    let mut sql = String::new();
    let mut params: Vec<String> = Vec::new();
    let mut first: bool = true;
    let ghost m = f@;

    if f.faculties.len() > 0 {
        sql.append(" where");
        let g = or_group(" (Faculty.name = ?", " or Faculty.name = ?", f.faculties.len());
        sql.append(g.as_str());
        push_params(&mut params, &f.faculties);
        first = false;
    }
    proof {
        assert(sql@ =~= after_faculty_text(m));
        assert(first == after_faculty_first(m));
        assert(params.deep_view() =~= m.faculties);
    }

    if f.years.len() > 0 {
        if first {
            sql.append(" where");
        } else {
            sql.append(" and");
        }
        let g = or_group(" (Year.year = ?", " or Year.year = ?", f.years.len());
        sql.append(g.as_str());
        push_params(&mut params, &f.years);
        first = false;
    }
    proof {
        assert(sql@ =~= after_year_text(m));
        assert(first == after_year_first(m));
        assert(params.deep_view() =~= m.faculties + m.years);
    }

    if f.subject_areas.len() > 0 {
        if first {
            sql.append(" where");
        } else {
            sql.append(" and");
        }
        let g = or_group(" (SubjectArea.name = ?", " or SubjectArea.name = ?", f.subject_areas.len());
        sql.append(g.as_str());
        push_params(&mut params, &f.subject_areas);
        first = false;
    }
    proof {
        assert(sql@ =~= after_subject_text(m));
        assert(first == after_subject_first(m));
        assert(params.deep_view() =~= m.faculties + m.years + m.subject_areas);
    }

    match &f.text {
        Some(t) => {
            if !t.as_str().is_empty() {
                if first {
                    sql.append(" where");
                } else {
                    sql.append(" and");
                }
                sql.append(
                    " ((lower(RID.name) like lower(?)) or (lower(RID.description) like lower(?)))",
                );
                let p = build_like_pattern(t.as_str());
                let p2 = p.clone();
                params.push(p);
                params.push(p2);
            }
        },
        None => {},
    }
    proof {
        assert(sql@ =~= where_text(m));
        assert(params.deep_view() =~= where_params(m));
    }

    Predicate { sql, params }
}

} // verus!
