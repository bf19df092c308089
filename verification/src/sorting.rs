//! Labels in level order: what the order is of a whole list, and the two
//! ways of bringing a list into it.

use vstd::prelude::*;
use itertools::Itertools;
use crate::order::{
    compare_levels, lemma_level_before_one_way, lemma_order_carries_over, level_before,
    numbers_agree, order_carries_over, precedes,
};

verus! {

/// `ordered` with `label` put in from its end: `label` passes every label
/// that it stands before, and stops at the first that it does not.
pub open spec fn placed(ordered: Seq<Seq<char>>, label: Seq<char>) -> Seq<Seq<char>>
    decreases ordered.len(),
{
    if ordered.len() > 0 && level_before(label, ordered.last()) {
        placed(ordered.drop_last(), label).push(ordered.last())
    } else {
        ordered.push(label)
    }
}

/// `labels` in level order: each label in turn is put in from the end, so
/// labels of which neither stands before the other keep their order.
pub open spec fn in_level_order(labels: Seq<Seq<char>>) -> Seq<Seq<char>>
    decreases labels.len(),
{
    if labels.len() == 0 {
        Seq::empty()
    } else {
        placed(in_level_order(labels.drop_last()), labels.last())
    }
}

/// Whether no label of `labels` stands before the label in front of it.
pub open spec fn stepwise_ordered(labels: Seq<Seq<char>>) -> bool {
    forall|i: int| 0 < i < labels.len() ==> !level_before(#[trigger] labels[i], labels[i - 1])
}

/// Whether `arranged` is `labels` as a stable sort leaves them, `from[i]`
/// being the place in `labels` of the label at `i` of `arranged`: every
/// place is taken once, no label stands before a label in front of it, and
/// two labels of which neither stands before the other keep their order.
pub open spec fn is_stable_sort(
    arranged: Seq<Seq<char>>,
    labels: Seq<Seq<char>>,
    from: Seq<int>,
) -> bool {
    &&& arranged.len() == labels.len()
    &&& from.len() == labels.len()
    &&& forall|i: int|
        0 <= i < from.len() ==> 0 <= #[trigger] from[i] < labels.len() && arranged[i]
            == labels[from[i]]
    &&& forall|i: int, j: int| 0 <= i < j < from.len() ==> #[trigger] from[i] != #[trigger] from[j]
    &&& forall|i: int, j: int|
        0 <= i < j < arranged.len() ==> !level_before(
            #[trigger] arranged[j],
            #[trigger] arranged[i],
        )
    &&& forall|i: int, j: int|
        #![trigger from[i], from[j]]
        0 <= i < j < from.len() && !level_before(arranged[i], arranged[j]) ==> from[i] < from[j]
}

/// Putting `label` in at `at` is what `placed` does, where `label` stands
/// before every label from `at` on and not before the one in front of `at`.
proof fn lemma_placed_at(ordered: Seq<Seq<char>>, label: Seq<char>, at: int)
    requires
        0 <= at <= ordered.len(),
        forall|j: int| at <= j < ordered.len() ==> level_before(label, #[trigger] ordered[j]),
        at > 0 ==> !level_before(label, ordered[at - 1]),
    ensures
        placed(ordered, label) == ordered.insert(at, label),
    decreases ordered.len() - at,
{
    if at < ordered.len() {
        lemma_placed_at(ordered.drop_last(), label, at);
        assert(ordered.drop_last().insert(at, label).push(ordered.last()) == ordered.insert(
            at,
            label,
        ));
    } else {
        assert(ordered.push(label) == ordered.insert(at, label));
    }
}

/// Puts `labels` in level order, one label after the other.
pub fn place_levels(labels: Vec<String>) -> (r: Vec<String>)
    ensures
        r.deep_view() == in_level_order(labels.deep_view()),
{
    let mut ordered: Vec<String> = Vec::new();
    let mut i: usize = 0;
    assert(labels.deep_view().take(0) == Seq::<Seq<char>>::empty());
    while i < labels.len()
        invariant
            i <= labels.len(),
            ordered.deep_view() == in_level_order(labels.deep_view().take(i as int)),
        decreases labels.len() - i,
    {
        let label = labels[i].clone();
        let mut at: usize = ordered.len();
        while at > 0 && precedes(label.as_str(), ordered[at - 1].as_str())
            invariant
                at <= ordered.len(),
                forall|j: int|
                    at <= j < ordered.len() ==> level_before(
                        label@,
                        #[trigger] ordered.deep_view()[j],
                    ),
            decreases at,
        {
            at -= 1;
        }
        proof {
            lemma_placed_at(ordered.deep_view(), label@, at as int);
            assert(labels.deep_view().take(i + 1).drop_last() == labels.deep_view().take(
                i as int,
            ));
        }
        let ghost before = ordered.deep_view();
        ordered.insert(at, label);
        assert(ordered.deep_view() == before.insert(at as int, label@));
        i += 1;
    }
    assert(labels.deep_view().take(i as int) == labels.deep_view());
    ordered
}

/// `Itertools::sorted_by` with `compare_levels`, collected again. It sorts
/// with `slice::sort_by` of the standard library, a stable sort, which may
/// panic where the comparison is no total order: so the order must carry
/// over among the labels. Of the result this says what the two promise: it
/// holds the labels, each from a place of its own in `labels`; no label
/// stands before a label in front of it; and labels of which neither stands
/// before the other keep their order.
#[verifier::external_body]
fn stable_sorted(labels: Vec<String>) -> (r: Vec<String>)
    requires
        order_carries_over(labels.deep_view()),
    ensures
        exists|from: Seq<int>| is_stable_sort(r.deep_view(), labels.deep_view(), from),
{
    labels.into_iter().sorted_by(|a, b| compare_levels(a, b)).collect()
}

/// Puts `labels` in level order.
///
/// Where the numbers of the labels agree with the text, this is a stable
/// sort, and the standard library's does it. Where they do not, the order
/// turns in a circle somewhere, which that sort need not bear: the labels
/// are then put in place one after the other.
pub fn sort_levels(labels: Vec<String>) -> (r: Vec<String>)
    ensures
        r.deep_view() == in_level_order(labels.deep_view()),
{
    if numbers_agree(&labels) {
        let ghost given = labels.deep_view();
        proof {
            lemma_order_carries_over(given);
        }
        let sorted = stable_sorted(labels);
        proof {
            let from = choose|from: Seq<int>| is_stable_sort(sorted.deep_view(), given, from);
            lemma_stable_sort_is_in_level_order(sorted.deep_view(), given, from);
        }
        sorted
    } else {
        place_levels(labels)
    }
}

/// Where `placed` puts a label: at an index with every label behind it one
/// that the new label stands before, and in front of it one that it does not.
proof fn lemma_placed_is_insert(ordered: Seq<Seq<char>>, label: Seq<char>) -> (at: int)
    ensures
        0 <= at <= ordered.len(),
        placed(ordered, label) == ordered.insert(at, label),
        forall|j: int| at <= j < ordered.len() ==> level_before(label, #[trigger] ordered[j]),
        at > 0 ==> !level_before(label, ordered[at - 1]),
    decreases ordered.len(),
{
    if ordered.len() > 0 && level_before(label, ordered.last()) {
        let at = lemma_placed_is_insert(ordered.drop_last(), label);
        assert(ordered.drop_last().insert(at, label).push(ordered.last()) == ordered.insert(
            at,
            label,
        ));
        assert forall|j: int| at <= j < ordered.len() implies level_before(
            label,
            #[trigger] ordered[j],
        ) by {
            if j < ordered.len() - 1 {
                assert(ordered.drop_last()[j] == ordered[j]);
            }
        }
        if at > 0 {
            assert(ordered.drop_last()[at - 1] == ordered[at - 1]);
        }
        at
    } else {
        assert(ordered.push(label) == ordered.insert(ordered.len() as int, label));
        ordered.len() as int
    }
}

/// `in_level_order` rearranges and neither adds nor drops a label, and in
/// its result no label stands before the label in front of it.
pub proof fn lemma_in_level_order(labels: Seq<Seq<char>>)
    ensures
        in_level_order(labels).to_multiset() == labels.to_multiset(),
        in_level_order(labels).len() == labels.len(),
        stepwise_ordered(in_level_order(labels)),
    decreases labels.len(),
{
    if labels.len() > 0 {
        let rest = labels.drop_last();
        let last = labels.last();
        let ordered = in_level_order(rest);
        lemma_in_level_order(rest);
        let at = lemma_placed_is_insert(ordered, last);
        let result = ordered.insert(at, last);
        vstd::seq_lib::to_multiset_insert(ordered, at, last);
        vstd::seq_lib::to_multiset_build(rest, last);
        assert(rest.push(last) == labels);
        assert forall|i: int| 0 < i < result.len() implies !level_before(
            #[trigger] result[i],
            result[i - 1],
        ) by {
            if i < at {
                assert(result[i] == ordered[i] && result[i - 1] == ordered[i - 1]);
            } else if i == at {
                assert(result[i] == last && result[i - 1] == ordered[at - 1]);
            } else if i == at + 1 {
                assert(result[i] == ordered[at] && result[i - 1] == last);
                lemma_level_before_one_way(last, ordered[at]);
            } else {
                assert(result[i] == ordered[i - 1] && result[i - 1] == ordered[i - 2]);
            }
        }
    } else {
        assert(labels == Seq::<Seq<char>>::empty());
    }
}

/// A label stands in `in_level_order(labels)` exactly if it stands in `labels`.
pub proof fn lemma_in_level_order_contains(labels: Seq<Seq<char>>, label: Seq<char>)
    ensures
        in_level_order(labels).contains(label) <==> labels.contains(label),
{
    lemma_in_level_order(labels);
    vstd::seq_lib::to_multiset_contains(in_level_order(labels), label);
    vstd::seq_lib::to_multiset_contains(labels, label);
}

/// Where the order carries over among the labels, stepwise order is order
/// throughout: the label at `j` is not before the label at `i` in front of it.
proof fn lemma_ordered_pair(ordered: Seq<Seq<char>>, i: int, j: int)
    requires
        order_carries_over(ordered),
        stepwise_ordered(ordered),
        0 <= i < j < ordered.len(),
    ensures
        !level_before(ordered[j], ordered[i]),
    decreases j - i,
{
    if i + 1 < j {
        lemma_ordered_pair(ordered, i, j - 1);
        assert(ordered.contains(ordered[i]));
        assert(ordered.contains(ordered[j - 1]));
        assert(ordered.contains(ordered[j]));
        assert(!level_before(ordered[j], ordered[j - 1]));
    }
}

/// Where the order carries over among the labels of `labels`, they stand
/// in order throughout `in_level_order(labels)`.
pub proof fn lemma_in_level_order_throughout(labels: Seq<Seq<char>>)
    requires
        order_carries_over(labels),
    ensures
        forall|i: int, j: int|
            0 <= i < j < labels.len() ==> !level_before(
                #[trigger] in_level_order(labels)[j],
                #[trigger] in_level_order(labels)[i],
            ),
{
    let ordered = in_level_order(labels);
    lemma_in_level_order(labels);
    assert(order_carries_over(ordered)) by {
        assert forall|a: Seq<char>, b: Seq<char>, c: Seq<char>|
            #![trigger level_before(b, a), level_before(c, b)]
            ordered.contains(a) && ordered.contains(b) && ordered.contains(c) && !level_before(b, a)
                && !level_before(c, b) implies !level_before(c, a) by {
            lemma_in_level_order_contains(labels, a);
            lemma_in_level_order_contains(labels, b);
            lemma_in_level_order_contains(labels, c);
        }
    }
    assert forall|i: int, j: int| 0 <= i < j < labels.len() implies !level_before(
        #[trigger] ordered[j],
        #[trigger] ordered[i],
    ) by {
        lemma_ordered_pair(ordered, i, j);
    }
}

/// Where `n` places are taken once each by `n` entries, the last place is taken.
proof fn lemma_last_place_is_taken(from: Seq<int>) -> (k: int)
    requires
        from.len() > 0,
        forall|i: int| 0 <= i < from.len() ==> 0 <= #[trigger] from[i] < from.len(),
        forall|i: int, j: int| 0 <= i < j < from.len() ==> #[trigger] from[i] != #[trigger] from[j],
    ensures
        0 <= k < from.len(),
        from[k] == from.len() - 1,
{
    let n = from.len() as int;
    let places = vstd::set_lib::set_int_range(0, n);
    assert(from.no_duplicates()) by {
        assert forall|i: int, j: int|
            0 <= i < from.len() && 0 <= j < from.len() && i != j implies from[i] != from[j] by {
            if i < j {
                assert(from[i] != from[j]);
            } else {
                assert(from[j] != from[i]);
            }
        }
    }
    from.unique_seq_to_set();
    vstd::set_lib::lemma_int_range(0, n);
    assert(from.to_set().subset_of(places)) by {
        assert forall|place: int| from.to_set().contains(place) implies places.contains(place) by {
            let i = choose|i: int| 0 <= i < from.len() && from[i] == place;
            assert(0 <= from[i] < n);
        }
    }
    vstd::set_lib::lemma_set_subset_finite(places, from.to_set());
    vstd::set_lib::lemma_subset_equality(from.to_set(), places);
    assert(places.contains(n - 1));
    assert(from.contains(n - 1));
    choose|k: int| 0 <= k < from.len() && from[k] == n - 1
}

/// What a stable sort leaves of `labels` is `in_level_order(labels)`.
pub proof fn lemma_stable_sort_is_in_level_order(
    arranged: Seq<Seq<char>>,
    labels: Seq<Seq<char>>,
    from: Seq<int>,
)
    requires
        is_stable_sort(arranged, labels, from),
    ensures
        arranged == in_level_order(labels),
    decreases labels.len(),
{
    if labels.len() == 0 {
        assert(arranged == Seq::<Seq<char>>::empty());
    } else {
        let n = labels.len() as int;
        let k = lemma_last_place_is_taken(from);
        let last = labels.last();
        let rest = labels.drop_last();
        let shorter = arranged.remove(k);
        let places = from.remove(k);
        assert(arranged[k] == last);
        assert forall|i: int| 0 <= i < places.len() implies 0 <= #[trigger] places[i] < rest.len()
            && shorter[i] == rest[places[i]] by {
            let old = if i < k {
                i
            } else {
                i + 1
            };
            assert(places[i] == from[old] && shorter[i] == arranged[old]);
            if old < k {
                assert(from[old] != from[k]);
            } else {
                assert(from[k] != from[old]);
            }
        }
        assert forall|i: int, j: int| 0 <= i < j < places.len() implies #[trigger] places[i]
            != #[trigger] places[j] by {
            let i_old = if i < k {
                i
            } else {
                i + 1
            };
            let j_old = if j < k {
                j
            } else {
                j + 1
            };
            assert(from[i_old] != from[j_old]);
        }
        assert forall|i: int, j: int| 0 <= i < j < shorter.len() implies !level_before(
            #[trigger] shorter[j],
            #[trigger] shorter[i],
        ) by {
            let i_old = if i < k {
                i
            } else {
                i + 1
            };
            let j_old = if j < k {
                j
            } else {
                j + 1
            };
            assert(!level_before(arranged[j_old], arranged[i_old]));
        }
        assert forall|i: int, j: int|
            #![trigger places[i], places[j]]
            0 <= i < j < places.len() && !level_before(shorter[i], shorter[j]) implies places[i]
                < places[j] by {
            let i_old = if i < k {
                i
            } else {
                i + 1
            };
            let j_old = if j < k {
                j
            } else {
                j + 1
            };
            assert(shorter[i] == arranged[i_old] && shorter[j] == arranged[j_old]);
            assert(from[i_old] < from[j_old]);
        }
        lemma_stable_sort_is_in_level_order(shorter, rest, places);
        assert forall|j: int| k <= j < shorter.len() implies level_before(
            last,
            #[trigger] shorter[j],
        ) by {
            assert(shorter[j] == arranged[j + 1]);
            assert(!level_before(arranged[j + 1], arranged[k]));
            if !level_before(arranged[k], arranged[j + 1]) {
                assert(from[k] < from[j + 1]);
            }
        }
        if k > 0 {
            assert(shorter[k - 1] == arranged[k - 1]);
            assert(!level_before(arranged[k], arranged[k - 1]));
        }
        lemma_placed_at(shorter, last, k);
        assert(shorter.insert(k, last) == arranged);
    }
}

/// What stands in a sequence without its last label stands in the sequence.
proof fn lemma_drop_last_contains(labels: Seq<Seq<char>>, label: Seq<char>)
    requires
        labels.len() > 0,
        labels.drop_last().contains(label),
    ensures
        labels.contains(label),
{
    let i = choose|i: int| 0 <= i < labels.drop_last().len() && labels.drop_last()[i] == label;
    assert(labels[i] == label);
}

/// Where the order carries over among the labels of `labels`,
/// `in_level_order(labels)` is what a stable sort leaves of them.
pub proof fn lemma_in_level_order_is_stable_sort(labels: Seq<Seq<char>>) -> (from: Seq<int>)
    requires
        order_carries_over(labels),
    ensures
        is_stable_sort(in_level_order(labels), labels, from),
    decreases labels.len(),
{
    if labels.len() == 0 {
        Seq::<int>::empty()
    } else {
        let n = labels.len() as int;
        let rest = labels.drop_last();
        let last = labels.last();
        assert(order_carries_over(rest)) by {
            assert forall|a: Seq<char>, b: Seq<char>, c: Seq<char>|
                #![trigger level_before(b, a), level_before(c, b)]
                rest.contains(a) && rest.contains(b) && rest.contains(c) && !level_before(b, a)
                    && !level_before(c, b) implies !level_before(c, a) by {
                lemma_drop_last_contains(labels, a);
                lemma_drop_last_contains(labels, b);
                lemma_drop_last_contains(labels, c);
            }
        }
        let places = lemma_in_level_order_is_stable_sort(rest);
        let ordered = in_level_order(rest);
        let at = lemma_placed_is_insert(ordered, last);
        let arranged = ordered.insert(at, last);
        let from = places.insert(at, n - 1);
        lemma_in_level_order(labels);
        lemma_in_level_order_throughout(labels);
        assert forall|i: int| 0 <= i < from.len() implies 0 <= #[trigger] from[i] < labels.len()
            && arranged[i] == labels[from[i]] by {
            if i < at {
                assert(from[i] == places[i] && arranged[i] == ordered[i]);
            } else if i > at {
                assert(from[i] == places[i - 1] && arranged[i] == ordered[i - 1]);
            }
        }
        assert forall|i: int, j: int| 0 <= i < j < from.len() implies #[trigger] from[i]
            != #[trigger] from[j] by {
            let i_old = if i < at {
                i
            } else {
                i - 1
            };
            let j_old = if j < at {
                j
            } else {
                j - 1
            };
            if i != at && j != at {
                assert(from[i] == places[i_old] && from[j] == places[j_old]);
                assert(places[i_old] != places[j_old]);
            } else if i == at {
                assert(from[j] == places[j_old]);
            } else {
                assert(from[i] == places[i_old]);
            }
        }
        assert forall|i: int, j: int|
            #![trigger from[i], from[j]]
            0 <= i < j < from.len() && !level_before(arranged[i], arranged[j]) implies from[i]
                < from[j] by {
            let i_old = if i < at {
                i
            } else {
                i - 1
            };
            let j_old = if j < at {
                j
            } else {
                j - 1
            };
            if i != at && j != at {
                assert(from[i] == places[i_old] && from[j] == places[j_old]);
                assert(arranged[i] == ordered[i_old] && arranged[j] == ordered[j_old]);
                assert(places[i_old] < places[j_old]);
            } else if i == at {
                assert(arranged[j] == ordered[j - 1]);
                assert(level_before(last, ordered[j - 1]));
            } else {
                assert(from[i] == places[i_old]);
            }
        }
        from
    }
}

} // verus!
