//! Character sequences: the model of every string in this crate, and the
//! searches the other modules are built from.

use vstd::prelude::*;

verus! {

/// The characters of `s`, in order.
pub fn chars_of(s: &str) -> (v: Vec<char>)
    ensures
        v@ == s@,
{
    let mut v: Vec<char> = Vec::new();
    for c in it: s.chars()
        invariant
            it.seq() == s@,
            v@ == it.seq().take(it.index() as int),
    {
        v.push(c);
    }
    v
}

/// Whether `pat` stands in `hay` at index `i`.
pub open spec fn occurs_at(hay: Seq<char>, pat: Seq<char>, i: int) -> bool {
    &&& 0 <= i
    &&& i + pat.len() <= hay.len()
    &&& hay.subrange(i, i + pat.len()) == pat
}

/// The least index at or after `from` at which `pat` stands in `hay`.
pub open spec fn first_occurrence_from(hay: Seq<char>, pat: Seq<char>, from: int) -> Option<int>
    decreases hay.len() - from + 1,
{
    if from < 0 || from + pat.len() > hay.len() {
        None
    } else if occurs_at(hay, pat, from) {
        Some(from)
    } else {
        first_occurrence_from(hay, pat, from + 1)
    }
}

/// The least index at which `pat` stands in `hay`.
pub open spec fn first_occurrence(hay: Seq<char>, pat: Seq<char>) -> Option<int> {
    first_occurrence_from(hay, pat, 0)
}

/// Whether `pat` stands in `hay` at index `i`.
pub fn matches_at(hay: &Vec<char>, pat: &Vec<char>, i: usize) -> (r: bool)
    ensures
        r == occurs_at(hay@, pat@, i as int),
{
    if pat.len() > hay.len() || i > hay.len() - pat.len() {
        return false;
    }
    let mut k: usize = 0;
    while k < pat.len()
        invariant
            i + pat.len() <= hay.len(),
            k <= pat.len(),
            forall|j: int| 0 <= j < k ==> hay@[i + j] == pat@[j],
        decreases pat.len() - k,
    {
        if hay[i + k] != pat[k] {
            assert(hay@.subrange(i as int, i + pat.len())[k as int] == hay@[i + k]);
            return false;
        }
        k += 1;
    }
    assert(hay@.subrange(i as int, i + pat.len()) =~= pat@);
    true
}

/// The least index at or after `from` at which `pat` stands in `hay`.
pub fn find_from(hay: &Vec<char>, pat: &Vec<char>, from: usize) -> (r: Option<usize>)
    ensures
        match r {
            Some(i) => first_occurrence_from(hay@, pat@, from as int) == Some(i as int),
            None => first_occurrence_from(hay@, pat@, from as int).is_none(),
        },
{
    if pat.len() > hay.len() {
        return None;
    }
    let last: usize = hay.len() - pat.len();
    let mut i: usize = from;
    while i <= last
        invariant
            last + pat.len() == hay.len(),
            from <= i,
            first_occurrence_from(hay@, pat@, from as int) == first_occurrence_from(
                hay@,
                pat@,
                i as int,
            ),
        decreases last - i,
    {
        if matches_at(hay, pat, i) {
            return Some(i);
        }
        if i == last {
            assert(first_occurrence_from(hay@, pat@, i + 1).is_none());
            return None;
        }
        i += 1;
    }
    None
}

/// Whether `hay` begins with `pat`.
pub fn has_prefix(hay: &Vec<char>, pat: &Vec<char>) -> (r: bool)
    ensures
        r == pat@.is_prefix_of(hay@),
{
    matches_at(hay, pat, 0)
}

/// Whether `hay` ends with `pat`.
pub fn has_suffix(hay: &Vec<char>, pat: &Vec<char>) -> (r: bool)
    ensures
        r == pat@.is_suffix_of(hay@),
{
    if pat.len() > hay.len() {
        return false;
    }
    matches_at(hay, pat, hay.len() - pat.len())
}

/// What `first_occurrence_from` finds is an occurrence with none between
/// `from` and it; where it finds nothing, there is none at or after `from`.
pub proof fn lemma_first_occurrence_from(hay: Seq<char>, pat: Seq<char>, from: int)
    requires
        0 <= from,
    ensures
        match first_occurrence_from(hay, pat, from) {
            Some(i) => from <= i && occurs_at(hay, pat, i) && forall|j: int|
                from <= j < i ==> !occurs_at(hay, pat, j),
            None => forall|j: int| from <= j ==> !occurs_at(hay, pat, j),
        },
    decreases hay.len() - from + 1,
{
    if from + pat.len() <= hay.len() && !occurs_at(hay, pat, from) {
        lemma_first_occurrence_from(hay, pat, from + 1);
    }
}

} // verus!
