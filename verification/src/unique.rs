//! Removal of repeated items from a run, keeping each where it first stands.

use vstd::prelude::*;
use vstd::hash_set::StringHashSet;

verus! {

/// The items of `s` in order, each kept at its first occurrence only.
pub open spec fn first_occurrences<A>(s: Seq<A>) -> Seq<A>
    decreases s.len(),
{
    if s.len() == 0 {
        Seq::empty()
    } else {
        let before = first_occurrences(s.drop_last());
        if before.contains(s.last()) {
            before
        } else {
            before.push(s.last())
        }
    }
}

/// Keeping first occurrences neither adds nor loses an item.
pub proof fn lemma_first_occurrences_members<A>(s: Seq<A>)
    ensures
        forall|x: A| first_occurrences(s).contains(x) <==> s.contains(x),
    decreases s.len(),
{
    if s.len() > 0 {
        let init = s.drop_last();
        let before = first_occurrences(init);
        lemma_first_occurrences_members(init);
        assert forall|x: A| first_occurrences(s).contains(x) <==> s.contains(x) by {
            if s.contains(x) {
                let i = choose|i: int| 0 <= i < s.len() && s[i] == x;
                if i < s.len() - 1 {
                    assert(init[i] == x);
                    assert(init.contains(x));
                    assert(before.contains(x));
                }
                if !before.contains(s.last()) {
                    let after = before.push(s.last());
                    assert(after[before.len() as int] == s.last());
                    if before.contains(x) {
                        let j = choose|j: int| 0 <= j < before.len() && before[j] == x;
                        assert(after[j] == x);
                    }
                }
            }
            if first_occurrences(s).contains(x) {
                let j = choose|j: int|
                    0 <= j < first_occurrences(s).len() && first_occurrences(s)[j] == x;
                if j < before.len() {
                    assert(before[j] == x);
                    assert(before.contains(x));
                    assert(init.contains(x));
                    let i = choose|i: int| 0 <= i < init.len() && init[i] == x;
                    assert(s[i] == x);
                } else {
                    assert(x == s.last());
                    assert(s[s.len() - 1] == x);
                }
            }
        }
    }
}

/// No item stands twice among the first occurrences.
pub proof fn lemma_first_occurrences_distinct<A>(s: Seq<A>)
    ensures
        first_occurrences(s).no_duplicates(),
    decreases s.len(),
{
    if s.len() > 0 {
        lemma_first_occurrences_distinct(s.drop_last());
    }
}

/// The strings of `items` in order, each kept at its first occurrence only.
pub fn dedup(items: &Vec<String>) -> (out: Vec<String>)
    ensures
        out.deep_view() == first_occurrences(items.deep_view()),
{
    let ghost all = items.deep_view();
    let mut out: Vec<String> = Vec::new();
    let mut seen = StringHashSet::new();
    let mut i: usize = 0;
    proof {
        assert(all.take(0) =~= Seq::<Seq<char>>::empty());
        assert(out.deep_view() =~= Seq::<Seq<char>>::empty());
    }
    while i < items.len()
        invariant
            i <= items.len(),
            all == items.deep_view(),
            out.deep_view() == first_occurrences(all.take(i as int)),
            forall|x: Seq<char>| seen@.contains(x) <==> out.deep_view().contains(x),
        decreases items.len() - i,
    {
        let item = &items[i];
        proof {
            assert(all.take(i + 1).drop_last() =~= all.take(i as int));
            assert(all.take(i + 1).last() == item@);
        }
        if !seen.contains(item.as_str()) {
            let ghost before = out.deep_view();
            seen.insert(item.clone());
            out.push(item.clone());
            proof {
                assert(out.deep_view() =~= before.push(item@));
                assert forall|x: Seq<char>| seen@.contains(x) <==> out.deep_view().contains(
                    x,
                ) by {
                    if before.contains(x) {
                        let j = choose|j: int| 0 <= j < before.len() && before[j] == x;
                        assert(out.deep_view()[j] == x);
                    }
                    assert(out.deep_view()[before.len() as int] == item@);
                }
            }
        }
        i = i + 1;
    }
    proof {
        assert(all.take(i as int) =~= all);
    }
    out
}

} // verus!
