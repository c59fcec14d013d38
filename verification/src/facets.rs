//! Facet counting over the catalog's categorical dimensions.
//!
//! For a dimension, every entry carrying a value is counted under that
//! value exactly once; entries without a value are left out, never
//! shown as an empty bucket.  Counts always reflect the whole catalog,
//! not a filtered part of it.  Subject-area and faculty facets come
//! ordered by count descending, the year facet by year value
//! descending (years compare as text).

use vstd::prelude::*;
use crate::catalog::Entry;
use crate::strings::{lemma_lex_total, lemma_lex_trans, lex_le, lex_le_exec, str_eq};

verus! {

/// One facet bucket: a dimension value and how many entries carry it.
pub struct FacetValue {
    pub label: String,
    pub count: usize,
}

/// How many of the values equal the label.
pub open spec fn count_value(vals: Seq<Option<String>>, label: Seq<char>) -> nat
    decreases vals.len(),
{
    if vals.len() == 0 {
        0
    } else {
        count_value(vals.drop_last(), label) + (if vals.last() matches Some(s) && s@ == label {
            1nat
        } else {
            0nat
        })
    }
}

/// How many of the values are present at all.
pub open spec fn num_present(vals: Seq<Option<String>>) -> nat
    decreases vals.len(),
{
    if vals.len() == 0 {
        0
    } else {
        num_present(vals.drop_last()) + (if vals.last() is Some {
            1nat
        } else {
            0nat
        })
    }
}

/// The sum of the buckets' counts.
pub open spec fn facet_sum(fs: Seq<FacetValue>) -> nat
    decreases fs.len(),
{
    if fs.len() == 0 {
        0
    } else {
        facet_sum(fs.drop_last()) + fs.last().count as nat
    }
}

/// No two buckets share a label.
pub open spec fn labels_distinct(fs: Seq<FacetValue>) -> bool {
    forall|i: int, j: int|
        #![trigger fs[i].label, fs[j].label]
        0 <= i < j < fs.len() ==> fs[i].label@ != fs[j].label@
}

/// Some bucket carries the label.
pub open spec fn has_label(fs: Seq<FacetValue>, l: Seq<char>) -> bool {
    exists|i: int| 0 <= i < fs.len() && (#[trigger] fs[i].label)@ == l
}

/// Every bucket's count is the number of values equal to its label,
/// and no bucket is empty.
pub open spec fn counts_correct(fs: Seq<FacetValue>, vals: Seq<Option<String>>) -> bool {
    forall|i: int|
        #![trigger fs[i].label]
        #![trigger fs[i].count]
        0 <= i < fs.len() ==> fs[i].count as nat == count_value(vals, fs[i].label@) && fs[i].count
            > 0
}

/// Every present value has a bucket.
pub open spec fn covers(fs: Seq<FacetValue>, vals: Seq<Option<String>>) -> bool {
    forall|k: int|
        0 <= k < vals.len() ==> ((#[trigger] vals[k]) matches Some(s) ==> has_label(fs, s@))
}

/// Buckets ordered by count, largest first.
pub open spec fn sorted_by_count_desc(fs: Seq<FacetValue>) -> bool {
    forall|i: int, j: int|
        #![trigger fs[i].count, fs[j].count]
        0 <= i <= j < fs.len() ==> fs[j].count <= fs[i].count
}

/// Buckets ordered by label, lexicographically largest first.
pub open spec fn sorted_by_label_desc(fs: Seq<FacetValue>) -> bool {
    forall|i: int, j: int|
        #![trigger fs[i].label, fs[j].label]
        0 <= i <= j < fs.len() ==> lex_le(fs[j].label@, fs[i].label@)
}

/// A value count never exceeds the number of values.
proof fn lemma_count_le_len(vals: Seq<Option<String>>, label: Seq<char>)
    ensures
        count_value(vals, label) <= vals.len(),
    decreases vals.len(),
{
    if vals.len() > 0 {
        lemma_count_le_len(vals.drop_last(), label);
    }
}

/// A positive count names a present value.
proof fn lemma_count_pos(vals: Seq<Option<String>>, label: Seq<char>)
    requires
        count_value(vals, label) > 0,
    ensures
        exists|k: int|
            0 <= k < vals.len() && ((#[trigger] vals[k]) matches Some(s) && s@ == label),
    decreases vals.len(),
{
    if vals.last() matches Some(s) && s@ == label {
        assert(vals[vals.len() - 1] matches Some(s) && s@ == label);
    } else {
        lemma_count_pos(vals.drop_last(), label);
        let k = choose|k: int|
            0 <= k < vals.drop_last().len() && ((#[trigger] vals.drop_last()[k]) matches Some(s)
                && s@ == label);
        assert(vals[k] == vals.drop_last()[k]);
    }
}

/// One step of counting a prefix of the values.
proof fn lemma_vals_take_step(vals: Seq<Option<String>>, i: int)
    requires
        0 <= i < vals.len(),
    ensures
        forall|l: Seq<char>|
            #[trigger] count_value(vals.take(i + 1), l) == count_value(vals.take(i), l) + (
            if vals[i] matches Some(s) && s@ == l {
                1nat
            } else {
                0nat
            }),
        num_present(vals.take(i + 1)) == num_present(vals.take(i)) + (if vals[i] is Some {
            1nat
        } else {
            0nat
        }),
{
    assert(vals.take(i + 1).drop_last() =~= vals.take(i));
    assert(vals.take(i + 1).last() == vals[i]);
}

/// Updating one bucket moves the sum by the difference of the counts.
proof fn lemma_facet_sum_update(fs: Seq<FacetValue>, i: int, x: FacetValue)
    requires
        0 <= i < fs.len(),
    ensures
        facet_sum(fs.update(i, x)) + fs[i].count == facet_sum(fs) + x.count,
    decreases fs.len(),
{
    if i == fs.len() - 1 {
        assert(fs.update(i, x).drop_last() =~= fs.drop_last());
        assert(fs.update(i, x).last() == x);
    } else {
        assert(fs.update(i, x).drop_last() =~= fs.drop_last().update(i, x));
        assert(fs.update(i, x).last() == fs.last());
        lemma_facet_sum_update(fs.drop_last(), i, x);
    }
}

/// Appending a bucket adds its count to the sum.
proof fn lemma_facet_sum_push(fs: Seq<FacetValue>, x: FacetValue)
    ensures
        facet_sum(fs.push(x)) == facet_sum(fs) + x.count,
{
    assert(fs.push(x).drop_last() =~= fs);
    assert(fs.push(x).last() == x);
}

/// Inserting a bucket adds its count to the sum.
proof fn lemma_facet_sum_insert(fs: Seq<FacetValue>, j: int, x: FacetValue)
    requires
        0 <= j <= fs.len(),
    ensures
        facet_sum(fs.insert(j, x)) == facet_sum(fs) + x.count,
    decreases fs.len(),
{
    if j == fs.len() {
        assert(fs.insert(j, x) =~= fs.push(x));
        lemma_facet_sum_push(fs, x);
    } else {
        assert(fs.insert(j, x).drop_last() =~= fs.drop_last().insert(j, x));
        assert(fs.insert(j, x).last() == fs.last());
        lemma_facet_sum_insert(fs.drop_last(), j, x);
    }
}

/// Counts the distinct present values of a dimension: one bucket per
/// distinct value, its count the number of values equal to it, the sum
/// of all counts the number of present values.
fn count_values(vals: &Vec<Option<String>>) -> (acc: Vec<FacetValue>)
    ensures
        labels_distinct(acc@),
        counts_correct(acc@, vals@),
        covers(acc@, vals@),
        facet_sum(acc@) == num_present(vals@),
{
    let mut acc: Vec<FacetValue> = Vec::new();
    proof {
        assert(vals@.take(0) =~= Seq::<Option<String>>::empty());
    }
    let mut i: usize = 0;
    while i < vals.len()
        invariant
            i <= vals@.len(),
            labels_distinct(acc@),
            counts_correct(acc@, vals@.take(i as int)),
            covers(acc@, vals@.take(i as int)),
            facet_sum(acc@) == num_present(vals@.take(i as int)),
        decreases vals@.len() - i,
    {
        proof {
            lemma_vals_take_step(vals@, i as int);
            assert(vals@.take(i + 1).take(i as int) =~= vals@.take(i as int));
        }
        match &vals[i] {
            None => {
                proof {
                    assert forall|k: int|
                        0 <= k < vals@.take(i + 1).len() implies ((#[trigger] vals@.take(i + 1)[k])
                        matches Some(s2) ==> has_label(acc@, s2@)) by {
                        if k < i {
                            assert(vals@.take(i + 1)[k] == vals@.take(i as int)[k]);
                        } else {
                            assert(vals@.take(i + 1)[k] == vals@[i as int]);
                        }
                    }
                }
            },
            Some(s) => {
                let mut idx: usize = 0;
                let n0 = acc.len();
                while idx < n0
                    invariant_except_break
                        n0 == acc@.len(),
                        idx <= n0,
                        forall|k2: int| 0 <= k2 < idx ==> (#[trigger] acc@[k2].label)@ != s@,
                    ensures
                        n0 == acc@.len(),
                        idx <= n0,
                        forall|k2: int| 0 <= k2 < idx ==> (#[trigger] acc@[k2].label)@ != s@,
                        idx < n0 ==> acc@[idx as int].label@ == s@,
                    decreases n0 - idx,
                {
                    if str_eq(acc[idx].label.as_str(), s.as_str()) {
                        break ;
                    }
                    idx = idx + 1;
                }
                if idx < acc.len() {
                    proof {
                        lemma_count_le_len(vals@.take(i as int), s@);
                    }
                    let ghost before = acc@;
                    let fv = acc.remove(idx);
                    let bumped = FacetValue { label: fv.label, count: fv.count + 1 };
                    acc.insert(idx, bumped);
                    proof {
                        assert(acc@ =~= before.update(idx as int, bumped));
                        lemma_facet_sum_update(before, idx as int, bumped);
                        assert forall|j: int| 0 <= j < acc@.len() implies acc@[j].count as nat
                            == count_value(vals@.take(i + 1), acc@[j].label@) && acc@[j].count
                            > 0 by {
                            if j != idx {
                                assert(acc@[j] == before[j]);
                                assert(before[j].label@ != s@);
                            }
                        }
                        assert forall|t: int| 0 <= t < acc@.len() implies (#[trigger] acc@[t].label)
                            == before[t].label by {
                            if t != idx {
                                assert(acc@[t] == before[t]);
                            }
                        }
                        assert(acc@[idx as int].label@ == s@);
                        assert forall|k: int|
                            0 <= k < vals@.take(i + 1).len() implies ((#[trigger] vals@.take(i + 1)[k])
                            matches Some(s2) ==> has_label(acc@, s2@)) by {
                            if k < i {
                                assert(vals@.take(i + 1)[k] == vals@.take(i as int)[k]);
                                if vals@.take(i as int)[k] is Some {
                                    let s0 = vals@.take(i as int)[k]->0;
                                    assert(has_label(before, s0@));
                                    let w = choose|w: int|
                                        0 <= w < before.len() && (#[trigger] before[w].label)@
                                            == s0@;
                                    assert(acc@[w].label@ == s0@);
                                }
                            } else {
                                assert(vals@.take(i + 1)[k] == vals@[i as int]);
                            }
                        }
                    }
                } else {
                    proof {
                        if count_value(vals@.take(i as int), s@) > 0 {
                            lemma_count_pos(vals@.take(i as int), s@);
                            let k0 = choose|k0: int|
                                0 <= k0 < vals@.take(i as int).len() && ((#[trigger] vals@.take(
                                    i as int,
                                )[k0]) matches Some(s1) && s1@ == s@);
                            assert(has_label(acc@, s@));
                            let w = choose|w: int|
                                0 <= w < acc@.len() && (#[trigger] acc@[w].label)@ == s@;
                            assert(false);
                        }
                    }
                    let ghost before = acc@;
                    let fresh = FacetValue { label: s.clone(), count: 1 };
                    proof {
                        lemma_facet_sum_push(before, fresh);
                    }
                    acc.push(fresh);
                    proof {
                        assert(acc@ == before.push(fresh));
                        assert(acc@[before.len() as int].label@ == s@);
                        assert forall|k: int|
                            0 <= k < vals@.take(i + 1).len() implies ((#[trigger] vals@.take(i + 1)[k])
                            matches Some(s2) ==> has_label(acc@, s2@)) by {
                            if k < i {
                                assert(vals@.take(i + 1)[k] == vals@.take(i as int)[k]);
                                if vals@.take(i as int)[k] is Some {
                                    let s0 = vals@.take(i as int)[k]->0;
                                    assert(has_label(before, s0@));
                                    let w = choose|w: int|
                                        0 <= w < before.len() && (#[trigger] before[w].label)@
                                            == s0@;
                                    assert(acc@[w].label@ == s0@);
                                }
                            } else {
                                assert(vals@.take(i + 1)[k] == vals@[i as int]);
                            }
                        }
                    }
                }
            },
        }
        i = i + 1;
    }
    proof {
        assert(vals@.take(vals@.len() as int) =~= vals@);
    }
    acc
}

/// Inserts a bucket into a list sorted by count descending, keeping
/// every bucket property.
fn insert_by_count_desc(out: &mut Vec<FacetValue>, x: FacetValue, Ghost(vals): Ghost<
    Seq<Option<String>>,
>)
    requires
        sorted_by_count_desc(old(out)@),
        labels_distinct(old(out)@),
        counts_correct(old(out)@, vals),
        x.count as nat == count_value(vals, x.label@),
        x.count > 0,
        forall|i: int| 0 <= i < old(out)@.len() ==> (#[trigger] old(out)@[i].label)@ != x.label@,
    ensures
        sorted_by_count_desc(final(out)@),
        labels_distinct(final(out)@),
        counts_correct(final(out)@, vals),
        facet_sum(final(out)@) == facet_sum(old(out)@) + x.count,
        forall|i: int|
            0 <= i < old(out)@.len() ==> has_label(final(out)@, (#[trigger] old(out)@[i].label)@),
        has_label(final(out)@, x.label@),
        forall|i: int|
            0 <= i < final(out)@.len() ==> (#[trigger] final(out)@[i]) == x || (exists|j2: int|
                0 <= j2 < old(out)@.len() && final(out)@[i] == #[trigger] old(out)@[j2]),
{
    let mut j: usize = 0;
    while j < out.len()
        invariant_except_break
            j <= out@.len(),
            out@ == old(out)@,
            forall|j2: int| 0 <= j2 < j ==> (#[trigger] out@[j2].count) > x.count,
        ensures
            j <= out@.len(),
            out@ == old(out)@,
            forall|j2: int| 0 <= j2 < j ==> (#[trigger] out@[j2].count) > x.count,
            j < out@.len() ==> out@[j as int].count <= x.count,
        decreases out@.len() - j,
    {
        if out[j].count <= x.count {
            break ;
        }
        j = j + 1;
    }
    let ghost before = out@;
    let ghost jj = j as int;
    out.insert(j, x);
    proof {
        assert(out@ =~= before.insert(jj, x));
        lemma_facet_sum_insert(before, jj, x);
        assert forall|i: int| 0 <= i < before.len() implies has_label(
            out@,
            (#[trigger] before[i].label)@,
        ) by {
            if i < jj {
                assert(out@[i] == before[i]);
            } else {
                assert(out@[i + 1] == before[i]);
            }
        }
        assert(out@[jj] == x);
        assert forall|i: int| 0 <= i < out@.len() implies (#[trigger] out@[i]) == x || (exists|
            j2: int,
        | 0 <= j2 < before.len() && out@[i] == #[trigger] before[j2]) by {
            if i < jj {
                assert(out@[i] == before[i]);
            } else if i > jj {
                assert(out@[i] == before[i - 1]);
            }
        }
    }
}

/// Inserts a bucket into a list sorted by label descending, keeping
/// every bucket property.
fn insert_by_label_desc(out: &mut Vec<FacetValue>, x: FacetValue, Ghost(vals): Ghost<
    Seq<Option<String>>,
>)
    requires
        sorted_by_label_desc(old(out)@),
        labels_distinct(old(out)@),
        counts_correct(old(out)@, vals),
        x.count as nat == count_value(vals, x.label@),
        x.count > 0,
        forall|i: int| 0 <= i < old(out)@.len() ==> (#[trigger] old(out)@[i].label)@ != x.label@,
    ensures
        sorted_by_label_desc(final(out)@),
        labels_distinct(final(out)@),
        counts_correct(final(out)@, vals),
        facet_sum(final(out)@) == facet_sum(old(out)@) + x.count,
        forall|i: int|
            0 <= i < old(out)@.len() ==> has_label(final(out)@, (#[trigger] old(out)@[i].label)@),
        has_label(final(out)@, x.label@),
        forall|i: int|
            0 <= i < final(out)@.len() ==> (#[trigger] final(out)@[i]) == x || (exists|j2: int|
                0 <= j2 < old(out)@.len() && final(out)@[i] == #[trigger] old(out)@[j2]),
{
    let mut j: usize = 0;
    while j < out.len()
        invariant_except_break
            j <= out@.len(),
            out@ == old(out)@,
            forall|j2: int| 0 <= j2 < j ==> !lex_le(#[trigger] out@[j2].label@, x.label@),
        ensures
            j <= out@.len(),
            out@ == old(out)@,
            forall|j2: int| 0 <= j2 < j ==> !lex_le(#[trigger] out@[j2].label@, x.label@),
            j < out@.len() ==> lex_le(out@[j as int].label@, x.label@),
        decreases out@.len() - j,
    {
        if lex_le_exec(out[j].label.as_str(), x.label.as_str()) {
            break ;
        }
        j = j + 1;
    }
    let ghost before = out@;
    let ghost jj = j as int;
    out.insert(j, x);
    proof {
        assert(out@ =~= before.insert(jj, x));
        lemma_facet_sum_insert(before, jj, x);
        assert forall|a: int, b: int| 0 <= a <= b < out@.len() implies lex_le(
            #[trigger] out@[b].label@,
            #[trigger] out@[a].label@,
        ) by {
            if a == b {
                lemma_lex_total(out@[a].label@, out@[a].label@);
            } else if b < jj {
                assert(out@[a] == before[a] && out@[b] == before[b]);
            } else if a > jj {
                assert(out@[a] == before[a - 1] && out@[b] == before[b - 1]);
            } else if a < jj && b == jj {
                assert(!lex_le(before[a].label@, x.label@));
                lemma_lex_total(before[a].label@, x.label@);
            } else if a == jj && b > jj {
                assert(lex_le(before[jj].label@, x.label@));
                assert(lex_le(before[b - 1].label@, before[jj].label@));
                lemma_lex_trans(before[b - 1].label@, before[jj].label@, x.label@);
            } else {
                assert(a < jj && b > jj);
                assert(lex_le(before[jj].label@, x.label@));
                assert(lex_le(before[b - 1].label@, before[jj].label@));
                lemma_lex_trans(before[b - 1].label@, before[jj].label@, x.label@);
                lemma_lex_total(before[a].label@, x.label@);
                lemma_lex_trans(before[b - 1].label@, x.label@, before[a].label@);
            }
        }
        assert forall|i: int| 0 <= i < before.len() implies has_label(
            out@,
            (#[trigger] before[i].label)@,
        ) by {
            if i < jj {
                assert(out@[i] == before[i]);
            } else {
                assert(out@[i + 1] == before[i]);
            }
        }
        assert(out@[jj] == x);
        assert forall|i: int| 0 <= i < out@.len() implies (#[trigger] out@[i]) == x || (exists|
            j2: int,
        | 0 <= j2 < before.len() && out@[i] == #[trigger] before[j2]) by {
            if i < jj {
                assert(out@[i] == before[i]);
            } else if i > jj {
                assert(out@[i] == before[i - 1]);
            }
        }
    }
}

/// The facet buckets of a dimension's values, ordered by count
/// descending.  Every bucket property holds: distinct labels, exact
/// counts, full coverage, and the counts summing to the number of
/// entries with a present value.
pub fn facet_by_count_desc(vals: &Vec<Option<String>>) -> (r: Vec<FacetValue>)
    ensures
        labels_distinct(r@),
        counts_correct(r@, vals@),
        covers(r@, vals@),
        facet_sum(r@) == num_present(vals@),
        sorted_by_count_desc(r@),
{
    let mut acc = count_values(vals);
    let ghost orig = acc@;
    let mut out: Vec<FacetValue> = Vec::new();
    while acc.len() > 0
        invariant
            sorted_by_count_desc(out@),
            labels_distinct(out@),
            labels_distinct(acc@),
            counts_correct(out@, vals@),
            counts_correct(acc@, vals@),
            forall|i: int, j: int|
                #![trigger out@[i].label, acc@[j].label]
                0 <= i < out@.len() && 0 <= j < acc@.len() ==> out@[i].label@ != acc@[j].label@,
            facet_sum(out@) + facet_sum(acc@) == facet_sum(orig),
            forall|i: int|
                0 <= i < orig.len() ==> has_label(out@, (#[trigger] orig[i].label)@) || has_label(
                    acc@,
                    orig[i].label@,
                ),
        decreases acc@.len(),
    {
        let ghost acc_before = acc@;
        let x = match acc.pop() {
            Some(x) => x,
            None => {
                proof {
                    assert(false);
                }
                FacetValue { label: String::new(), count: 1 }
            },
        };
        proof {
            assert(acc@ =~= acc_before.drop_last());
            assert(x == acc_before.last());
            assert forall|t: int| 0 <= t < acc@.len() implies (#[trigger] acc@[t])
                == acc_before[t] by {}
            assert forall|i: int| 0 <= i < out@.len() implies (#[trigger] out@[i].label)@
                != x.label@ by {
                assert(out@[i].label@ != acc_before[acc_before.len() - 1].label@);
            }
        }
        let ghost out_before = out@;
        insert_by_count_desc(&mut out, x, Ghost(vals@));
        proof {
            assert forall|i: int, j: int|
                0 <= i < out@.len() && 0 <= j < acc@.len() implies (#[trigger] out@[i].label)@ != (
            #[trigger] acc@[j].label)@ by {
                assert(acc@[j] == acc_before[j]);
                if out@[i] == x {
                    assert(acc_before[j].label@ != acc_before[acc_before.len() - 1].label@);
                } else {
                    let w = choose|w: int|
                        0 <= w < out_before.len() && out@[i] == #[trigger] out_before[w];
                    assert(out_before[w].label@ != acc_before[j].label@);
                }
            }
            assert forall|i: int| 0 <= i < orig.len() implies has_label(
                out@,
                (#[trigger] orig[i].label)@,
            ) || has_label(acc@, orig[i].label@) by {
                if has_label(acc_before, orig[i].label@) {
                    let w = choose|w: int|
                        0 <= w < acc_before.len() && (#[trigger] acc_before[w].label)@
                            == orig[i].label@;
                    if w < acc_before.len() - 1 {
                        assert(acc@[w] == acc_before[w]);
                    }
                }
            }
        }
    }
    proof {
        assert forall|k: int|
            0 <= k < vals@.len() implies ((#[trigger] vals@[k]) matches Some(s) ==> has_label(
            out@,
            s@,
        )) by {
            if vals@[k] is Some {
                let s0 = vals@[k]->0;
                assert(has_label(orig, s0@));
                let w = choose|w: int| 0 <= w < orig.len() && (#[trigger] orig[w].label)@ == s0@;
                assert(has_label(out@, orig[w].label@));
            }
        }
    }
    out
}

/// The facet buckets of a dimension's values, ordered by label
/// descending; for year values, whose labels are numeric text, this is
/// year descending.
pub fn facet_by_label_desc(vals: &Vec<Option<String>>) -> (r: Vec<FacetValue>)
    ensures
        labels_distinct(r@),
        counts_correct(r@, vals@),
        covers(r@, vals@),
        facet_sum(r@) == num_present(vals@),
        sorted_by_label_desc(r@),
{
    let mut acc = count_values(vals);
    let ghost orig = acc@;
    let mut out: Vec<FacetValue> = Vec::new();
    while acc.len() > 0
        invariant
            sorted_by_label_desc(out@),
            labels_distinct(out@),
            labels_distinct(acc@),
            counts_correct(out@, vals@),
            counts_correct(acc@, vals@),
            forall|i: int, j: int|
                #![trigger out@[i].label, acc@[j].label]
                0 <= i < out@.len() && 0 <= j < acc@.len() ==> out@[i].label@ != acc@[j].label@,
            facet_sum(out@) + facet_sum(acc@) == facet_sum(orig),
            forall|i: int|
                0 <= i < orig.len() ==> has_label(out@, (#[trigger] orig[i].label)@) || has_label(
                    acc@,
                    orig[i].label@,
                ),
        decreases acc@.len(),
    {
        let ghost acc_before = acc@;
        let x = match acc.pop() {
            Some(x) => x,
            None => {
                proof {
                    assert(false);
                }
                FacetValue { label: String::new(), count: 1 }
            },
        };
        proof {
            assert(acc@ =~= acc_before.drop_last());
            assert(x == acc_before.last());
            assert forall|t: int| 0 <= t < acc@.len() implies (#[trigger] acc@[t])
                == acc_before[t] by {}
            assert forall|i: int| 0 <= i < out@.len() implies (#[trigger] out@[i].label)@
                != x.label@ by {
                assert(out@[i].label@ != acc_before[acc_before.len() - 1].label@);
            }
        }
        let ghost out_before = out@;
        insert_by_label_desc(&mut out, x, Ghost(vals@));
        proof {
            assert forall|i: int, j: int|
                0 <= i < out@.len() && 0 <= j < acc@.len() implies (#[trigger] out@[i].label)@ != (
            #[trigger] acc@[j].label)@ by {
                assert(acc@[j] == acc_before[j]);
                if out@[i] == x {
                    assert(acc_before[j].label@ != acc_before[acc_before.len() - 1].label@);
                } else {
                    let w = choose|w: int|
                        0 <= w < out_before.len() && out@[i] == #[trigger] out_before[w];
                    assert(out_before[w].label@ != acc_before[j].label@);
                }
            }
            assert forall|i: int| 0 <= i < orig.len() implies has_label(
                out@,
                (#[trigger] orig[i].label)@,
            ) || has_label(acc@, orig[i].label@) by {
                if has_label(acc_before, orig[i].label@) {
                    let w = choose|w: int|
                        0 <= w < acc_before.len() && (#[trigger] acc_before[w].label)@
                            == orig[i].label@;
                    if w < acc_before.len() - 1 {
                        assert(acc@[w] == acc_before[w]);
                    }
                }
            }
        }
    }
    proof {
        assert forall|k: int|
            0 <= k < vals@.len() implies ((#[trigger] vals@[k]) matches Some(s) ==> has_label(
            out@,
            s@,
        )) by {
            if vals@[k] is Some {
                let s0 = vals@[k]->0;
                assert(has_label(orig, s0@));
                let w = choose|w: int| 0 <= w < orig.len() && (#[trigger] orig[w].label)@ == s0@;
                assert(has_label(out@, orig[w].label@));
            }
        }
    }
    out
}

/// The subject-area values of the catalog's entries, in order.
pub open spec fn sub_area_values(cat: Seq<Entry>) -> Seq<Option<String>> {
    cat.map_values(|e: Entry| e.sub_area)
}

/// The year values of the catalog's entries, in order.
pub open spec fn year_values(cat: Seq<Entry>) -> Seq<Option<String>> {
    cat.map_values(|e: Entry| e.year)
}

/// The faculty values of the catalog's entries, in order.
pub open spec fn faculty_values(cat: Seq<Entry>) -> Seq<Option<String>> {
    cat.map_values(|e: Entry| e.faculty)
}

/// A copy of an optional value.
fn opt_dup(o: &Option<String>) -> (r: Option<String>)
    ensures
        r == *o,
{
    match o {
        Some(s) => Some(s.clone()),
        None => None,
    }
}

/// The subject-area facet of the catalog, ordered by count descending.
/// Every entry with a subject area is counted exactly once under it;
/// the counts sum to the number of entries having one.
pub fn subject_area_facets(cat: &Vec<Entry>) -> (r: Vec<FacetValue>)
    ensures
        labels_distinct(r@),
        counts_correct(r@, sub_area_values(cat@)),
        covers(r@, sub_area_values(cat@)),
        facet_sum(r@) == num_present(sub_area_values(cat@)),
        sorted_by_count_desc(r@),
{
    let mut vals: Vec<Option<String>> = Vec::new();
    let mut i: usize = 0;
    while i < cat.len()
        invariant
            i <= cat@.len(),
            vals@.len() == i,
            forall|j: int| 0 <= j < i ==> vals@[j] == (#[trigger] cat@[j]).sub_area,
        decreases cat@.len() - i,
    {
        vals.push(opt_dup(&cat[i].sub_area));
        i = i + 1;
    }
    proof {
        assert(vals@ =~= sub_area_values(cat@));
    }
    facet_by_count_desc(&vals)
}

/// The year facet of the catalog, ordered by year descending.
pub fn year_facets(cat: &Vec<Entry>) -> (r: Vec<FacetValue>)
    ensures
        labels_distinct(r@),
        counts_correct(r@, year_values(cat@)),
        covers(r@, year_values(cat@)),
        facet_sum(r@) == num_present(year_values(cat@)),
        sorted_by_label_desc(r@),
{
    let mut vals: Vec<Option<String>> = Vec::new();
    let mut i: usize = 0;
    while i < cat.len()
        invariant
            i <= cat@.len(),
            vals@.len() == i,
            forall|j: int| 0 <= j < i ==> vals@[j] == (#[trigger] cat@[j]).year,
        decreases cat@.len() - i,
    {
        vals.push(opt_dup(&cat[i].year));
        i = i + 1;
    }
    proof {
        assert(vals@ =~= year_values(cat@));
    }
    facet_by_label_desc(&vals)
}

/// The faculty facet of the catalog, ordered by count descending.
pub fn faculty_facets(cat: &Vec<Entry>) -> (r: Vec<FacetValue>)
    ensures
        labels_distinct(r@),
        counts_correct(r@, faculty_values(cat@)),
        covers(r@, faculty_values(cat@)),
        facet_sum(r@) == num_present(faculty_values(cat@)),
        sorted_by_count_desc(r@),
{
    let mut vals: Vec<Option<String>> = Vec::new();
    let mut i: usize = 0;
    while i < cat.len()
        invariant
            i <= cat@.len(),
            vals@.len() == i,
            forall|j: int| 0 <= j < i ==> vals@[j] == (#[trigger] cat@[j]).faculty,
        decreases cat@.len() - i,
    {
        vals.push(opt_dup(&cat[i].faculty));
        i = i + 1;
    }
    proof {
        assert(vals@ =~= faculty_values(cat@));
    }
    facet_by_count_desc(&vals)
}

} // verus!
