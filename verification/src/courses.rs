//! Courses on the wire and in memory: a table's document holds them as
//! groups within one list, the table as one flat list.

use vstd::prelude::*;

verus! {

/// The groups `groups`, each as the sequence of what it holds.
pub open spec fn groups_view<T>(groups: Seq<Vec<T>>) -> Seq<Seq<T>> {
    groups.map_values(|group: Vec<T>| group@)
}

/// The flat list of all that `groups` hold: group after group, each in its
/// own order.
pub fn unlift<T>(groups: Vec<Vec<T>>) -> (flat: Vec<T>)
    ensures
        flat@ == groups_view(groups@).flatten(),
{
    let ghost all = groups_view(groups@);
    let mut groups = groups;
    let mut flat: Vec<T> = Vec::new();
    assert(all.skip(all.len() as int) == Seq::<Seq<T>>::empty());
    while groups.len() > 0
        invariant
            groups.len() <= all.len(),
            groups_view(groups@) == all.take(groups.len() as int),
            flat@ == all.skip(groups.len() as int).flatten(),
        decreases groups.len(),
    {
        let ghost n = groups.len() - 1;
        let mut group = groups.pop().unwrap();
        assert(group@ == all[n]) by {
            assert(all[n] == all.take(n + 1)[n]);
        }
        assert(all.skip(n).drop_first() == all.skip(n + 1));
        group.append(&mut flat);
        flat = group;
        assert(groups_view(groups@) == all.take(n));
    }
    assert(all.skip(0) == all);
    flat
}

/// `flat` as the wire holds it: one group within the list.
pub fn lift<T>(flat: Vec<T>) -> (groups: Vec<Vec<T>>)
    ensures
        groups_view(groups@) == seq![flat@],
{
    let mut groups: Vec<Vec<T>> = Vec::new();
    groups.push(flat);
    assert(groups_view(groups@) == seq![flat@]);
    groups
}

/// A flat list that is lifted and flattened again is what it was.
pub proof fn lemma_unlift_lift<T>(flat: Seq<T>)
    ensures
        seq![flat].flatten() == flat,
{
    seq![flat].lemma_flatten_one_element();
}

/// Flattening keeps the order: what the last group holds comes last, in the
/// group's own order, behind all that the groups before it hold.
pub proof fn lemma_unlift_keeps_order<T>(groups: Seq<Seq<T>>, last: Seq<T>)
    ensures
        groups.push(last).flatten() == groups.flatten() + last,
    decreases groups.len(),
{
    if groups.len() == 0 {
        groups.push(last).lemma_flatten_one_element();
        assert(groups.flatten() + last == last);
    } else {
        lemma_unlift_keeps_order(groups.drop_first(), last);
        assert(groups.push(last).drop_first() == groups.drop_first().push(last));
        assert(groups.push(last).flatten() == groups.first() + (groups.drop_first().flatten()
            + last));
    }
}

} // verus!
