//! What becomes of each slot that renders a preview.

use vstd::prelude::*;

use crate::previews;

verus! {

proof fn lemma_slots_stay(slots: Seq<Option<usize>>, needed: Seq<usize>)
    ensures
        previews::with_previews(slots, needed).len() == slots.len(),
        forall|s: int|
            0 <= s < slots.len() && (#[trigger] slots[s]) is Some ==> previews::with_previews(
                slots,
                needed,
            )[s] == slots[s],
        forall|s: int|
            0 <= s < slots.len() && slots[s] is None ==> match (
                #[trigger] previews::with_previews(slots, needed)[s]
            ) {
                Some(p) => needed.contains(p),
                None => true,
            },
    decreases needed.len(),
{
    if needed.len() > 0 {
        let fewer = needed.drop_last();
        lemma_slots_stay(slots, fewer);
        let before = previews::with_previews(slots, fewer);
        let after = previews::with_previews(slots, needed);
        previews::lemma_first_free(before);
        assert forall|s: int| 0 <= s < slots.len() && slots[s] is None implies match (
            #[trigger] after[s]
        ) {
            Some(p) => needed.contains(p),
            None => true,
        } by {
            if after[s] is Some {
                let p = after[s]->0;
                if before[s] == after[s] {
                    assert(fewer.contains(p));
                    assert(needed[fewer.index_of(p)] == p);
                } else {
                    assert(needed[needed.len() - 1] == p);
                }
            }
        }
    }
}

/// A slot whose preview stays in sight keeps it, and after all no slot renders a
/// preview that is out of sight.
pub proof fn law_slots_keep_what_is_in_sight(slots: Seq<Option<usize>>, needed: Seq<usize>, s: int)
    requires
        0 <= s < slots.len(),
    ensures
        ({
            let after = previews::with_previews(previews::freed(slots, needed), needed);
            &&& slots[s] matches Some(p) ==> (needed.contains(p) ==> after[s] == Some(p))
            &&& after[s] matches Some(p) ==> needed.contains(p)
        }),
{
    let start = previews::freed(slots, needed);
    let after = previews::with_previews(start, needed);
    lemma_slots_stay(start, needed);
    assert(start[s] is Some ==> after[s] == start[s]);
    if after[s] is Some && start[s] is Some {
        assert(needed.contains(after[s]->0));
    }
}

/// The place of a new preview is told, and it is the first that was free.
pub proof fn law_new_previews_are_told(slots: Seq<Option<usize>>, needed: Seq<usize>, i: int)
    requires
        0 <= i < previews::assignments(slots, needed).len(),
        slots.len() <= usize::MAX,
    ensures
        ({
            let (s, p) = previews::assignments(slots, needed)[i];
            let after = previews::with_previews(slots, needed);
            &&& s < slots.len()
            &&& slots[s as int] is None
            &&& after[s as int] == Some(p)
            &&& needed.contains(p)
            &&& forall|k: int| 0 <= k < s ==> (#[trigger] after[k]) is Some
        }),
    decreases needed.len(),
{
    let fewer = needed.drop_last();
    let told = previews::assignments(slots, fewer);
    let before = previews::with_previews(slots, fewer);
    let after = previews::with_previews(slots, needed);
    lemma_slots_stay(slots, fewer);
    lemma_slots_stay(slots, needed);
    lemma_slots_stay(before, seq![needed.last()]);
    previews::lemma_first_free(before);
    let (s, p) = previews::assignments(slots, needed)[i];
    if i < told.len() {
        law_new_previews_are_told(slots, fewer, i);
        assert(needed[fewer.index_of(p)] == p);
        assert forall|k: int| 0 <= k < s implies (#[trigger] after[k]) is Some by {
            assert(before[k] is Some);
        }
    } else {
        assert(needed[needed.len() - 1] == p);
        let at = previews::first_free(before);
        assert(s == at);
        assert(slots[at] is None) by {
            if slots[at] is Some {
                assert(before[at] == slots[at]);
            }
        }
        assert forall|k: int| 0 <= k < s implies (#[trigger] after[k]) is Some by {
            assert(before[k] is Some);
        }
    }
}

} // verus!
