//! What is read from the table of a file.

use vstd::prelude::*;

use crate::exchange;
use crate::exchange::{SectionModel, TableModel};

verus! {

/// An oriented shell stands for the shell that it refers to, and any other number
/// for itself.
pub proof fn law_oriented_shells_are_followed(t: TableModel, id: u64, target: u64)
    ensures
        t.oriented.contains_key(id) && t.oriented[id] == Some(target) ==> exchange::resolved(t, id)
            == target,
        !t.oriented.contains_key(id) ==> exchange::resolved(t, id) == id,
{
}

/// The outer shell of a solid belongs to it, and so does each of its voids,
/// whether they are referred to directly or as oriented shells. Of several
/// solids the one with the largest number counts.
pub proof fn law_shells_belong_to_solids(
    owners: Map<u64, u64>,
    t: TableModel,
    solid: u64,
    id: u64,
    shell: u64,
    i: int,
)
    requires
        exchange::owns_shells(owners, t),
        t.solids.contains_key(solid),
        t.solids[solid].outer == Some(id) || (0 <= i < t.solids[solid].voids.len()
            && t.solids[solid].voids[i] == Some(id)),
        shell == id && !t.oriented.contains_key(id) || t.oriented.contains_key(id)
            && t.oriented[id] == Some(shell),
    ensures
        owners.contains_key(shell),
        owners[shell] >= solid,
{
    assert(exchange::resolved(t, id) == shell);
    assert(exchange::bounds(t, solid, shell));
    assert(owners.dom().contains(shell));
}

/// A shell has an owner only if that is a solid that refers to it.
pub proof fn law_owners_refer_to_their_shells(owners: Map<u64, u64>, t: TableModel, shell: u64)
    requires
        exchange::owns_shells(owners, t),
        owners.contains_key(shell),
    ensures
        t.solids.contains_key(owners[shell]),
        exists|id: u64|
            refers_to(t, owners[shell], id) && (#[trigger] exchange::resolved(t, id)) == shell,
{
    assert(owners.dom().contains(shell));
    let solid = owners[shell];
    assert(exchange::bounds(t, solid, shell));
    if t.solids[solid].outer is Some && exchange::resolved(t, t.solids[solid].outer->0) == shell {
        let id = t.solids[solid].outer->0;
        assert(refers_to(t, solid, id) && exchange::resolved(t, id) == shell);
    } else {
        let i = choose|i: int|
            0 <= i < t.solids[solid].voids.len() && (#[trigger] t.solids[solid].voids[i]) is Some
                && exchange::resolved(t, t.solids[solid].voids[i]->0) == shell;
        let id = t.solids[solid].voids[i]->0;
        assert(refers_to(t, solid, id) && exchange::resolved(t, id) == shell);
    }
}

/// The solid has the number as its outer shell or as one of its voids.
pub open spec fn refers_to(t: TableModel, solid: u64, id: u64) -> bool {
    t.solids[solid].outer == Some(id) || t.solids[solid].voids.contains(Some(id))
}

/// The shells of a table are listed by their numbers, the smallest first, each
/// once and all of them.
pub proof fn law_shells_are_listed(ids: Seq<u64>, t: TableModel, i: int, j: int, shell: u64)
    requires
        exchange::lists_shells(ids, t),
        0 <= i < j < ids.len(),
    ensures
        ids[i] < ids[j],
        ids.contains(shell) <==> t.shells.contains(shell),
{
    assert(ids.to_set().contains(shell) <==> ids.contains(shell));
}

/// The entities of all sections are counted.
pub proof fn law_entities_of_sections_are_counted(
    a: Seq<SectionModel>,
    b: Seq<SectionModel>,
    s: SectionModel,
)
    ensures
        exchange::entity_total(a + b) == exchange::entity_total(a) + exchange::entity_total(b),
        exchange::entity_total(seq![s]) == s.entities.len(),
    decreases b.len(),
{
    if b.len() == 0 {
        assert(a + b =~= a);
    } else {
        law_entities_of_sections_are_counted(a, b.drop_last(), s);
        assert((a + b).drop_last() =~= a + b.drop_last());
    }
    assert(seq![s].drop_last() =~= Seq::empty());
    assert(exchange::entity_total(seq![s].drop_last()) == 0);
}

} // verus!
