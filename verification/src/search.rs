//! The reference evaluation of a filter set over an in-memory catalog:
//! which entries match, projected to display records, ordered by year
//! newest first.  Each catalog entry yields at most one record, so an
//! entry is never duplicated however many authors it has.

use vstd::prelude::*;
use vstd::seq_lib::group_to_multiset_ensures;
use vstd::multiset::group_multiset_axioms;
use crate::catalog::{
    entry_matches, entry_satisfies, project_entry, spec_display_model, spec_join_authors,
    DisplayModel, DisplayRecord, Entry,
};
use crate::filters::{FilterModel, FilterSet};
use crate::project::SearchOutcome;
use crate::strings::{lemma_lex_total, lemma_lex_trans, lex_le, lex_le_exec};

verus! {

/// The models of a record list, in order.
pub open spec fn rec_models(s: Seq<DisplayRecord>) -> Seq<DisplayModel> {
    s.map_values(|r: DisplayRecord| r@)
}

/// The display records of the entries a filter set matches, in catalog
/// order.
pub open spec fn matching_models(cat: Seq<Entry>, m: FilterModel) -> Seq<DisplayModel> {
    cat.filter(|e: Entry| entry_matches(e, m)).map_values(|e: Entry| spec_display_model(e))
}

/// Records ordered by year, newest first.
pub open spec fn sorted_by_year_desc(s: Seq<DisplayModel>) -> bool {
    forall|i: int, j: int|
        0 <= i <= j < s.len() ==> lex_le(#[trigger] s[j].year, #[trigger] s[i].year)
}

/// One step of matching a catalog prefix: the next entry appends its
/// record exactly when it matches.
proof fn lemma_matching_take_step(cat: Seq<Entry>, m: FilterModel, i: int)
    requires
        0 <= i < cat.len(),
    ensures
        matching_models(cat.take(i + 1), m) == if entry_matches(cat[i], m) {
            matching_models(cat.take(i), m).push(spec_display_model(cat[i]))
        } else {
            matching_models(cat.take(i), m)
        },
{
    reveal(Seq::filter);
    assert(cat.take(i + 1).drop_last() =~= cat.take(i));
    assert(cat.take(i + 1).last() == cat[i]);
    if entry_matches(cat[i], m) {
        assert(matching_models(cat.take(i + 1), m) =~= matching_models(cat.take(i), m).push(
            spec_display_model(cat[i]),
        ));
    } else {
        assert(matching_models(cat.take(i + 1), m) =~= matching_models(cat.take(i), m));
    }
}

/// Inserts a record into a list sorted by year descending, keeping it
/// sorted; the records' models gain exactly the new record's model.
fn insert_by_year_desc(v: &mut Vec<DisplayRecord>, rec: DisplayRecord)
    requires
        sorted_by_year_desc(rec_models(old(v)@)),
    ensures
        sorted_by_year_desc(rec_models(final(v)@)),
        rec_models(final(v)@).to_multiset() == rec_models(old(v)@).to_multiset().insert(rec@),
        final(v)@.len() == old(v)@.len() + 1,
{
    broadcast use group_to_multiset_ensures;

    let mut j: usize = 0;
    while j < v.len()
        invariant_except_break
            j <= v@.len(),
            v@ == old(v)@,
            forall|j2: int| 0 <= j2 < j ==> !lex_le(#[trigger] v@[j2]@.year, rec@.year),
        ensures
            j <= v@.len(),
            v@ == old(v)@,
            forall|j2: int| 0 <= j2 < j ==> !lex_le(#[trigger] v@[j2]@.year, rec@.year),
            j < v@.len() ==> lex_le(v@[j as int]@.year, rec@.year),
        decreases v@.len() - j,
    {
        if lex_le_exec(v[j].year.as_str(), rec.year.as_str()) {
            break ;
        }
        j = j + 1;
    }
    let ghost s_old = rec_models(old(v)@);
    let ghost jj = j as int;
    v.insert(j, rec);
    proof {
        assert(rec_models(v@) =~= s_old.insert(jj, rec@));
        let s_new = rec_models(v@);
        assert forall|a: int, b: int| 0 <= a <= b < s_new.len() implies lex_le(
            #[trigger] s_new[b].year,
            #[trigger] s_new[a].year,
        ) by {
            if a == b {
                lemma_lex_total(s_new[a].year, s_new[a].year);
            } else if b < jj {
                assert(s_new[a] == s_old[a] && s_new[b] == s_old[b]);
            } else if a > jj {
                assert(s_new[a] == s_old[a - 1] && s_new[b] == s_old[b - 1]);
            } else if a < jj && b == jj {
                assert(!lex_le(s_old[a].year, rec@.year));
                lemma_lex_total(s_old[a].year, rec@.year);
            } else if a == jj && b > jj {
                assert(lex_le(s_old[jj].year, rec@.year));
                assert(lex_le(s_old[b - 1].year, s_old[jj].year));
                lemma_lex_trans(s_old[b - 1].year, s_old[jj].year, rec@.year);
            } else {
                assert(a < jj && b > jj);
                assert(s_new[a] == s_old[a] && s_new[b] == s_old[b - 1]);
                assert(lex_le(s_old[jj].year, rec@.year));
                assert(lex_le(s_old[b - 1].year, s_old[jj].year));
                lemma_lex_trans(s_old[b - 1].year, s_old[jj].year, rec@.year);
                lemma_lex_total(s_old[a].year, rec@.year);
                lemma_lex_trans(s_old[b - 1].year, rec@.year, s_old[a].year);
            }
        }
    }
}

/// Evaluates a filter set over a catalog: the matched entries,
/// projected and ordered by year newest first; no matches is the
/// distinguished empty outcome.  Each matching entry contributes
/// exactly one record.
pub fn search_catalog(catalog: &Vec<Entry>, f: &FilterSet) -> (r: SearchOutcome)
    ensures
        (r is NoResults) == (matching_models(catalog@, f@).len() == 0),
        r matches SearchOutcome::Records(v) ==> rec_models(v@).to_multiset() == matching_models(
            catalog@,
            f@,
        ).to_multiset() && sorted_by_year_desc(rec_models(v@)) && v@.len() > 0,
{
    broadcast use group_to_multiset_ensures;

    let ghost pred = |e: Entry| entry_matches(e, f@);
    let mut recs: Vec<DisplayRecord> = Vec::new();
    proof {
        reveal(Seq::filter);
        assert(catalog@.take(0) =~= Seq::<Entry>::empty());
        assert(rec_models(recs@) =~= matching_models(catalog@.take(0), f@));
    }
    let mut i: usize = 0;
    while i < catalog.len()
        invariant
            i <= catalog@.len(),
            sorted_by_year_desc(rec_models(recs@)),
            rec_models(recs@).to_multiset() == matching_models(catalog@.take(i as int), f@)
                .to_multiset(),
            recs@.len() <= i,
        decreases catalog@.len() - i,
    {
        proof {
            lemma_matching_take_step(catalog@, f@, i as int);
        }
        if entry_satisfies(&catalog[i], f) {
            let ghost before = rec_models(recs@).to_multiset();
            let rec = project_entry(&catalog[i]);
            insert_by_year_desc(&mut recs, rec);
            proof {
                broadcast use group_to_multiset_ensures;

                assert(rec@ == spec_display_model(catalog@[i as int]));
                assert(rec_models(recs@).to_multiset() == before.insert(rec@));
                assert(matching_models(catalog@.take(i + 1), f@).to_multiset() == matching_models(
                    catalog@.take(i as int),
                    f@,
                ).to_multiset().insert(spec_display_model(catalog@[i as int])));
            }
        }
        i = i + 1;
    }
    proof {
        assert(catalog@.take(catalog@.len() as int) =~= catalog@);
    }
    if recs.len() == 0 {
        proof {
            assert(rec_models(recs@) =~= Seq::<DisplayModel>::empty());
            assert(rec_models(recs@).to_multiset().len() == 0);
            assert(matching_models(catalog@, f@).to_multiset().len() == 0);
        }
        SearchOutcome::NoResults
    } else {
        proof {
            assert(rec_models(recs@).len() == recs@.len());
            assert(matching_models(catalog@, f@).to_multiset().len() > 0);
        }
        SearchOutcome::Records(recs)
    }
}

/// Entry identifiers are distinct across the catalog.
pub open spec fn distinct_numbers(cat: Seq<Entry>) -> bool {
    forall|i: int, j: int|
        0 <= i < j < cat.len() ==> #[trigger] cat[i].number != #[trigger] cat[j].number
}

/// No record of an absent identifier is ever produced.
proof fn lemma_matching_absent(cat: Seq<Entry>, m: FilterModel, dm: DisplayModel)
    requires
        forall|i: int| 0 <= i < cat.len() ==> (#[trigger] cat[i].number as int) != dm.number,
    ensures
        matching_models(cat, m).to_multiset().count(dm) == 0,
    decreases cat.len(),
{
    broadcast use group_to_multiset_ensures, group_multiset_axioms;

    reveal(Seq::filter);
    let pred = |e: Entry| entry_matches(e, m);
    if cat.len() == 0 {
        assert(matching_models(cat, m) =~= Seq::<DisplayModel>::empty());
        assert(!matching_models(cat, m).contains(dm));
    } else {
        lemma_matching_absent(cat.drop_last(), m, dm);
        if pred(cat.last()) {
            assert(matching_models(cat, m) =~= matching_models(cat.drop_last(), m).push(
                spec_display_model(cat.last()),
            ));
            assert(spec_display_model(cat.last()).number != dm.number);
        } else {
            assert(matching_models(cat, m) =~= matching_models(cat.drop_last(), m));
        }
    }
}

/// An entry that satisfies a filter set appears exactly once among the
/// matched records, whatever other entries the catalog holds, provided
/// entry identifiers are distinct; its author field is the join of its
/// formatted authors.
pub proof fn lemma_matched_entry_appears_once(cat: Seq<Entry>, m: FilterModel, idx: int)
    requires
        0 <= idx < cat.len(),
        distinct_numbers(cat),
        entry_matches(cat[idx], m),
    ensures
        matching_models(cat, m).to_multiset().count(spec_display_model(cat[idx])) == 1,
        cat[idx].authors@.len() > 0 ==> spec_display_model(cat[idx]).authors == spec_join_authors(
            cat[idx].authors@,
        ),
    decreases cat.len(),
{
    broadcast use group_to_multiset_ensures, group_multiset_axioms;

    reveal(Seq::filter);
    let pred = |e: Entry| entry_matches(e, m);
    let dm = spec_display_model(cat[idx]);
    if idx == cat.len() - 1 {
        lemma_matching_absent(cat.drop_last(), m, dm);
        assert(pred(cat.last()));
        assert(matching_models(cat, m) =~= matching_models(cat.drop_last(), m).push(dm));
    } else {
        lemma_matched_entry_appears_once(cat.drop_last(), m, idx);
        assert(cat.drop_last()[idx] == cat[idx]);
        if pred(cat.last()) {
            assert(matching_models(cat, m) =~= matching_models(cat.drop_last(), m).push(
                spec_display_model(cat.last()),
            ));
            assert(cat.last().number != cat[idx].number);
            assert(spec_display_model(cat.last()).number != dm.number);
        } else {
            assert(matching_models(cat, m) =~= matching_models(cat.drop_last(), m));
        }
    }
}

} // verus!
