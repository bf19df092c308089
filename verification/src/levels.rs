//! The level index of a table: the levels that its charts use, each once,
//! in level order.

use vstd::prelude::*;
use itertools::Itertools;
use crate::order::{level_before, level_number, order_carries_over};
use crate::sorting::{
    in_level_order, lemma_in_level_order, lemma_in_level_order_contains,
    lemma_in_level_order_throughout, sort_levels, stepwise_ordered,
};
use crate::table::{DifficultTableElement, Entry};

verus! {

/// `labels` without repetition: of each label its first occurrence stays.
pub open spec fn distinct(labels: Seq<Seq<char>>) -> Seq<Seq<char>>
    decreases labels.len(),
{
    if labels.len() == 0 {
        Seq::empty()
    } else {
        let before = distinct(labels.drop_last());
        if before.contains(labels.last()) {
            before
        } else {
            before.push(labels.last())
        }
    }
}

/// The levels of the charts `contents`, one for each chart.
pub open spec fn levels_of(contents: Seq<Entry>) -> Seq<Seq<char>> {
    contents.map_values(|entry: Entry| entry.level)
}

/// The level index of `contents`: its distinct levels in level order.
pub open spec fn level_index(contents: Seq<Entry>) -> Seq<Seq<char>> {
    in_level_order(distinct(levels_of(contents)))
}

/// `Itertools::unique` on the labels, collected again: it hands on each
/// label that it has not handed on before, in the order of `labels`, so of
/// equal labels the first stays and the others are left out.
#[verifier::external_body]
fn unique_labels(labels: Vec<String>) -> (r: Vec<String>)
    ensures
        r.deep_view() == distinct(labels.deep_view()),
{
    labels.into_iter().unique().collect()
}

/// The level index of the charts `contents`: every level that a chart has,
/// once, in level order.
pub fn derive_levels(contents: &Vec<DifficultTableElement>) -> (levels: Vec<String>)
    ensures
        levels.deep_view() == level_index(contents.deep_view()),
{
    let mut labels: Vec<String> = Vec::new();
    let mut i: usize = 0;
    while i < contents.len()
        invariant
            i <= contents.len(),
            labels.deep_view() == levels_of(contents.deep_view()).take(i as int),
        decreases contents.len() - i,
    {
        let label = contents[i].level.clone();
        let ghost before = labels.deep_view();
        assert(levels_of(contents.deep_view())[i as int] == label@);
        labels.push(label);
        assert(labels.deep_view() == before.push(label@));
        assert(levels_of(contents.deep_view()).take(i + 1) == levels_of(
            contents.deep_view(),
        ).take(i as int).push(label@));
        i += 1;
    }
    assert(levels_of(contents.deep_view()).take(i as int) == levels_of(contents.deep_view()));
    sort_levels(unique_labels(labels))
}

/// Whether `place` is where `label` first stands in `labels`.
pub open spec fn is_first_place(labels: Seq<Seq<char>>, label: Seq<char>, place: int) -> bool {
    &&& 0 <= place < labels.len()
    &&& labels[place] == label
    &&& forall|k: int| 0 <= k < place ==> #[trigger] labels[k] != label
}

/// `distinct` keeps the labels in the order in which they first stand in
/// `labels`: `places` holds, for each label that it keeps, the place where
/// that label first stands, and these places go up.
pub proof fn lemma_distinct_keeps_the_order(labels: Seq<Seq<char>>) -> (places: Seq<int>)
    ensures
        places.len() == distinct(labels).len(),
        forall|i: int|
            0 <= i < places.len() ==> is_first_place(labels, distinct(labels)[i], #[trigger] places[i]),
        forall|i: int, j: int|
            0 <= i < j < places.len() ==> #[trigger] places[i] < #[trigger] places[j],
    decreases labels.len(),
{
    if labels.len() == 0 {
        Seq::<int>::empty()
    } else {
        let rest = labels.drop_last();
        let last = labels.last();
        let before = distinct(rest);
        let earlier = lemma_distinct_keeps_the_order(rest);
        lemma_distinct(rest);
        assert forall|i: int| 0 <= i < earlier.len() implies is_first_place(
            labels,
            before[i],
            #[trigger] earlier[i],
        ) by {
            assert(is_first_place(rest, before[i], earlier[i]));
            assert forall|k: int| 0 <= k < earlier[i] implies #[trigger] labels[k] != before[i] by {
                assert(rest[k] == labels[k]);
            }
        }
        if before.contains(last) {
            earlier
        } else {
            let places = earlier.push(labels.len() - 1);
            assert forall|k: int| 0 <= k < labels.len() - 1 implies #[trigger] labels[k] != last by {
                if labels[k] == last {
                    assert(rest[k] == last);
                    assert(rest.contains(last));
                }
            }
            assert forall|i: int| 0 <= i < places.len() implies is_first_place(
                labels,
                distinct(labels)[i],
                #[trigger] places[i],
            ) by {
                if i < earlier.len() {
                    assert(places[i] == earlier[i] && distinct(labels)[i] == before[i]);
                }
            }
            assert forall|i: int, j: int| 0 <= i < j < places.len() implies #[trigger] places[i]
                < #[trigger] places[j] by {
                assert(is_first_place(labels, before[i], earlier[i]));
                if j < earlier.len() {
                    assert(earlier[i] < earlier[j]);
                }
            }
            places
        }
    }
}

/// `distinct` keeps every label, each once, and nothing else.
pub proof fn lemma_distinct(labels: Seq<Seq<char>>)
    ensures
        distinct(labels).no_duplicates(),
        forall|label: Seq<char>| distinct(labels).contains(label) <==> labels.contains(label),
        distinct(labels).len() <= labels.len(),
        labels.len() > 0 ==> distinct(labels).len() > 0,
    decreases labels.len(),
{
    if labels.len() > 0 {
        let rest = labels.drop_last();
        let last = labels.last();
        let before = distinct(rest);
        lemma_distinct(rest);
        assert forall|label: Seq<char>| distinct(labels).contains(label) <==> labels.contains(
            label,
        ) by {
            if labels.contains(label) {
                let i = choose|i: int| 0 <= i < labels.len() && labels[i] == label;
                if i < rest.len() {
                    assert(rest[i] == label);
                    assert(rest.contains(label));
                    assert(before.contains(label));
                    let k = choose|k: int| 0 <= k < before.len() && before[k] == label;
                    assert(distinct(labels)[k] == label);
                } else if !before.contains(last) {
                    assert(distinct(labels)[before.len() as int] == label);
                }
            }
            if distinct(labels).contains(label) {
                let k = choose|k: int| 0 <= k < distinct(labels).len() && distinct(labels)[k]
                    == label;
                if k < before.len() {
                    assert(before[k] == label);
                    assert(rest.contains(label));
                    let i = choose|i: int| 0 <= i < rest.len() && rest[i] == label;
                    assert(labels[i] == label);
                } else {
                    assert(labels[labels.len() - 1] == label);
                }
            }
        }
    }
}

/// The level index holds each level of the charts once and no other label,
/// and in it no level stands before the level in front of it; it is empty
/// exactly if there are no charts.
pub proof fn lemma_level_index(contents: Seq<Entry>)
    ensures
        level_index(contents).no_duplicates(),
        forall|label: Seq<char>|
            level_index(contents).contains(label) <==> levels_of(contents).contains(label),
        stepwise_ordered(level_index(contents)),
        level_index(contents).len() <= contents.len(),
        level_index(contents).len() > 0 <==> contents.len() > 0,
{
    let labels = distinct(levels_of(contents));
    lemma_distinct(levels_of(contents));
    lemma_in_level_order(labels);
    labels.lemma_multiset_has_no_duplicates();
    level_index(contents).lemma_multiset_has_no_duplicates_conv();
    assert forall|label: Seq<char>| level_index(contents).contains(label) <==> levels_of(
        contents,
    ).contains(label) by {
        lemma_in_level_order_contains(labels, label);
    }
}

/// Where the order carries over among the levels of the charts, the level
/// index is in order throughout: no level stands before any level in front
/// of it.
pub proof fn lemma_level_index_throughout(contents: Seq<Entry>)
    requires
        order_carries_over(levels_of(contents)),
    ensures
        forall|i: int, j: int|
            0 <= i < j < level_index(contents).len() ==> !level_before(
                #[trigger] level_index(contents)[j],
                #[trigger] level_index(contents)[i],
            ),
{
    let labels = distinct(levels_of(contents));
    lemma_distinct(levels_of(contents));
    lemma_in_level_order(labels);
    lemma_in_level_order_throughout(labels);
}

/// Where every chart's level writes a number, the level index goes up by
/// number: `9` stands before `10`, which as text it would not.
pub proof fn lemma_numbers_ascend(contents: Seq<Entry>)
    requires
        forall|k: int| 0 <= k < contents.len() ==> level_number(#[trigger] contents[k].level) is Some,
    ensures
        forall|i: int, j: int|
            0 <= i < j < level_index(contents).len() ==> level_number(
                #[trigger] level_index(contents)[i],
            )->0 <= level_number(#[trigger] level_index(contents)[j])->0,
{
    let labels = distinct(levels_of(contents));
    let index = level_index(contents);
    lemma_distinct(levels_of(contents));
    lemma_in_level_order(labels);
    assert forall|label: Seq<char>| labels.contains(label) implies level_number(
        label,
    ) is Some by {
        assert(levels_of(contents).contains(label));
        let k = choose|k: int| 0 <= k < contents.len() && levels_of(contents)[k] == label;
        assert(contents[k].level == label);
    }
    lemma_in_level_order_throughout(labels);
    assert forall|i: int, j: int| 0 <= i < j < index.len() implies level_number(
        #[trigger] index[i],
    )->0 <= level_number(#[trigger] index[j])->0 by {
        assert(index.contains(index[i]) && index.contains(index[j]));
        lemma_in_level_order_contains(labels, index[i]);
        lemma_in_level_order_contains(labels, index[j]);
        assert(!level_before(index[j], index[i]));
    }
}

} // verus!
