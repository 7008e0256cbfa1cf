//! Walk over the shape representations of an assembly.
//!
//! Representations are linked in two ways. A link says that two of them stand
//! for the same shape. A relationship says that one is placed in another by an
//! item transformation. The walk starts at the roots and finds for each
//! representation the transformations on the way to it.

use std::collections::{HashMap, HashSet};
use vstd::prelude::*;

use crate::chains;

verus! {

broadcast use vstd::std_specs::hash::group_hash_axioms;

/// One transformation on the way to a representation: from the first
/// placement to the second, or the other way round if it is inverted. Without
/// placements it changes nothing.
#[derive(Clone, Copy)]
pub struct Step {
    pub placements: Option<(u64, u64)>,
    pub inverted: bool,
}

/// What links the representations of a file.
pub ghost struct Graph {
    /// Pairs of representations that stand for the same shape.
    pub links: Seq<(u64, u64)>,
    /// Two representations and the item transformation between them.
    pub relationships: Seq<(u64, u64, u64)>,
    /// The two placements of each item transformation.
    pub items: Map<u64, (u64, u64)>,
    /// Whether the first representation of a relationship is the parent.
    pub flipped: bool,
}

/// A place where the walk goes on, with the transformations up to it.
pub ghost struct Walk {
    pub todo: Seq<(u64, Seq<Step>)>,
    pub reached: Map<u64, Seq<Step>>,
}

pub open spec fn parent_of(relationship: (u64, u64, u64), flipped: bool) -> u64 {
    if flipped {
        relationship.0
    } else {
        relationship.1
    }
}

pub open spec fn child_of(relationship: (u64, u64, u64), flipped: bool) -> u64 {
    if flipped {
        relationship.1
    } else {
        relationship.0
    }
}

pub open spec fn is_child(relationships: Seq<(u64, u64, u64)>, flipped: bool, rep: u64) -> bool {
    exists|i: int|
        0 <= i < relationships.len() && child_of(#[trigger] relationships[i], flipped) == rep
}

/// The parents among the first of `all` relationships that are no child in
/// any of them, each once, in the order in which they first stand there.
pub open spec fn roots_among(
    relationships: Seq<(u64, u64, u64)>,
    all: Seq<(u64, u64, u64)>,
    flipped: bool,
) -> Seq<u64>
    decreases relationships.len(),
{
    if relationships.len() == 0 {
        Seq::empty()
    } else {
        let before = roots_among(relationships.drop_last(), all, flipped);
        let parent = parent_of(relationships.last(), flipped);
        if before.contains(parent) || is_child(all, flipped, parent) {
            before
        } else {
            before.push(parent)
        }
    }
}

/// The representations that are a parent and never a child.
pub open spec fn transform_roots(relationships: Seq<(u64, u64, u64)>, flipped: bool) -> Seq<u64> {
    roots_among(relationships, relationships, flipped)
}

/// Whether relationships are read with their direction flipped: there are
/// several roots, and flipping leaves fewer.
pub open spec fn flips(relationships: Seq<(u64, u64, u64)>) -> bool {
    let straight = transform_roots(relationships, false).len();
    straight > 1 && transform_roots(relationships, true).len() < straight
}

pub open spec fn item_step(items: Map<u64, (u64, u64)>, transform: u64, inverted: bool) -> Step {
    Step {
        placements: if items.contains_key(transform) {
            Some(items[transform])
        } else {
            None
        },
        inverted,
    }
}

/// The children of a representation with their transformations, in the order
/// of the relationships.
pub open spec fn children(
    relationships: Seq<(u64, u64, u64)>,
    items: Map<u64, (u64, u64)>,
    flipped: bool,
    rep: u64,
) -> Seq<(u64, Step)>
    decreases relationships.len(),
{
    if relationships.len() == 0 {
        Seq::empty()
    } else {
        let before = children(relationships.drop_last(), items, flipped, rep);
        let last = relationships.last();
        if parent_of(last, flipped) == rep {
            before.push((child_of(last, flipped), item_step(items, last.2, flipped)))
        } else {
            before
        }
    }
}

/// The representations linked to one, in the order of the links.
pub open spec fn linked(links: Seq<(u64, u64)>, rep: u64) -> Seq<u64>
    decreases links.len(),
{
    if links.len() == 0 {
        Seq::empty()
    } else {
        let before = linked(links.drop_last(), rep);
        let last = links.last();
        let forth = if last.0 == rep {
            before.push(last.1)
        } else {
            before
        };
        if last.1 == rep {
            forth.push(last.0)
        } else {
            forth
        }
    }
}

impl Graph {
    /// Where one can go from a representation: over a link without a
    /// transformation, to a child with one.
    pub open spec fn edges(self, rep: u64) -> Seq<(u64, Option<Step>)> {
        linked(self.links, rep).map_values(|to: u64| (to, None::<Step>)) + children(
            self.relationships,
            self.items,
            self.flipped,
            rep,
        ).map_values(|c: (u64, Step)| (c.0, Some(c.1)))
    }

    pub open spec fn roots(self) -> Seq<u64> {
        transform_roots(self.relationships, self.flipped)
    }

    pub open spec fn start(self) -> Walk {
        Walk {
            todo: self.roots().map_values(|root: u64| (root, Seq::<Step>::empty())),
            reached: Map::empty(),
        }
    }

    /// The walk one place further: the last place to go on from is left, and
    /// each neighbour that was not reached before becomes a place to go on.
    pub open spec fn advance(self, walk: Walk) -> Walk {
        if walk.todo.len() == 0 {
            walk
        } else {
            let (rep, word) = walk.todo.last();
            Walk {
                todo: with_neighbours(walk.todo.drop_last(), self.edges(rep), walk.reached, word),
                reached: walk.reached.insert(rep, word),
            }
        }
    }

    /// The walk after `n` places.
    pub open spec fn walked(self, n: nat) -> Walk
        decreases n,
    {
        if n == 0 {
            self.start()
        } else {
            self.advance(self.walked((n - 1) as nat))
        }
    }

    /// Whether the walk ends with these transformations for the reached
    /// representations.
    pub open spec fn ends_with(self, reached: Map<u64, Seq<Step>>) -> bool {
        exists|n: nat|
            (#[trigger] self.walked(n)).todo.len() == 0 && self.walked(n).reached == reached
    }

    /// A way over edges that starts at a root.
    pub open spec fn is_way(self, root: u64, way: Seq<(u64, Option<Step>)>) -> bool
        decreases way.len(),
    {
        if way.len() == 0 {
            self.roots().contains(root)
        } else {
            self.is_way(root, way.drop_last()) && self.edges(
                way_end(root, way.drop_last()),
            ).contains(way.last())
        }
    }

    /// Whether some way from a root leads to `rep` over the transformations
    /// of `word`.
    pub open spec fn leads_to(self, rep: u64, word: Seq<Step>) -> bool {
        exists|root: u64, way: Seq<(u64, Option<Step>)>| #[trigger]
            self.is_way(root, way) && way_end(root, way) == rep && way_word(way) == word
    }
}

pub open spec fn extended(word: Seq<Step>, step: Option<Step>) -> Seq<Step> {
    match step {
        Some(s) => word.push(s),
        None => word,
    }
}

pub open spec fn with_neighbours(
    todo: Seq<(u64, Seq<Step>)>,
    edges: Seq<(u64, Option<Step>)>,
    reached: Map<u64, Seq<Step>>,
    word: Seq<Step>,
) -> Seq<(u64, Seq<Step>)>
    decreases edges.len(),
{
    if edges.len() == 0 {
        todo
    } else {
        let before = with_neighbours(todo, edges.drop_last(), reached, word);
        let (to, step) = edges.last();
        if reached.contains_key(to) {
            before
        } else {
            before.push((to, extended(word, step)))
        }
    }
}

pub open spec fn way_end(root: u64, way: Seq<(u64, Option<Step>)>) -> u64 {
    if way.len() == 0 {
        root
    } else {
        way.last().0
    }
}

pub open spec fn way_word(way: Seq<(u64, Option<Step>)>) -> Seq<Step>
    decreases way.len(),
{
    if way.len() == 0 {
        Seq::empty()
    } else {
        extended(way_word(way.drop_last()), way.last().1)
    }
}

pub open spec fn is_parent(relationships: Seq<(u64, u64, u64)>, flipped: bool, rep: u64) -> bool {
    exists|i: int|
        0 <= i < relationships.len() && parent_of(#[trigger] relationships[i], flipped) == rep
}

proof fn lemma_roots_among(
    relationships: Seq<(u64, u64, u64)>,
    all: Seq<(u64, u64, u64)>,
    flipped: bool,
)
    ensures
        roots_among(relationships, all, flipped).no_duplicates(),
        forall|rep: u64| #[trigger]
            roots_among(relationships, all, flipped).contains(rep) <==> is_parent(
                relationships,
                flipped,
                rep,
            ) && !is_child(all, flipped, rep),
    decreases relationships.len(),
{
    let roots = roots_among(relationships, all, flipped);
    if relationships.len() > 0 {
        let init = relationships.drop_last();
        lemma_roots_among(init, all, flipped);
        let before = roots_among(init, all, flipped);
        let parent = parent_of(relationships.last(), flipped);
        assert forall|rep: u64| #[trigger] roots.contains(rep) <==> is_parent(
            relationships,
            flipped,
            rep,
        ) && !is_child(all, flipped, rep) by {
            if before.contains(rep) {
                assert(roots[before.index_of(rep)] == rep);
            }
            if roots.contains(rep) && rep != parent {
                assert(before[roots.index_of(rep)] == rep);
            }
            if roots.len() > before.len() {
                assert(roots[before.len() as int] == parent);
            }
            if is_parent(init, flipped, rep) {
                let i = choose|i: int|
                    0 <= i < init.len() && parent_of(#[trigger] init[i], flipped) == rep;
                assert(relationships[i] == init[i]);
            }
            if is_parent(relationships, flipped, rep) {
                let i = choose|i: int|
                    0 <= i < relationships.len() && parent_of(#[trigger] relationships[i], flipped)
                        == rep;
                if i < init.len() {
                    assert(init[i] == relationships[i]);
                }
            }
            assert(relationships[relationships.len() - 1] == relationships.last());
        }
    }
}

/// The roots are the representations that are a parent and never a child,
/// each of them once.
pub proof fn law_roots_are_parents_only(relationships: Seq<(u64, u64, u64)>, flipped: bool)
    ensures
        transform_roots(relationships, flipped).no_duplicates(),
        forall|rep: u64| #[trigger]
            transform_roots(relationships, flipped).contains(rep) <==> is_parent(
                relationships,
                flipped,
                rep,
            ) && !is_child(relationships, flipped, rep),
{
    lemma_roots_among(relationships, relationships, flipped);
}

/// The representations that are the parent of some child and the child of no
/// parent.
pub open spec fn root_set(relationships: Seq<(u64, u64, u64)>, flipped: bool) -> Set<u64> {
    Set::new(
        |rep: u64|
            is_parent(relationships, flipped, rep) && !is_child(relationships, flipped, rep),
    )
}

/// The direction of the relationships is flipped exactly where there is more
/// than one root and flipping leaves fewer, so a tie keeps it. The direction
/// that is taken never has more roots than the one that is given.
pub proof fn law_flipping_leaves_fewer_roots(relationships: Seq<(u64, u64, u64)>)
    ensures
        root_set(relationships, false).finite(),
        root_set(relationships, true).finite(),
        flips(relationships) == (root_set(relationships, false).len() > 1 && root_set(
            relationships,
            true,
        ).len() < root_set(relationships, false).len()),
        root_set(relationships, flips(relationships)).len() <= root_set(relationships, false).len(),
{
    lemma_root_count(relationships, false);
    lemma_root_count(relationships, true);
}

proof fn lemma_root_count(relationships: Seq<(u64, u64, u64)>, flipped: bool)
    ensures
        root_set(relationships, flipped).finite(),
        root_set(relationships, flipped).len() == transform_roots(relationships, flipped).len(),
{
    let roots = transform_roots(relationships, flipped);
    law_roots_are_parents_only(relationships, flipped);
    assert(roots.to_set() =~= root_set(relationships, flipped)) by {
        assert forall|rep: u64| roots.to_set().contains(rep) == root_set(
            relationships,
            flipped,
        ).contains(rep) by {
            assert(roots.contains(rep) == roots.to_set().contains(rep));
        }
    }
    roots.unique_seq_to_set();
}

/// A representation has children exactly where it is a parent, and they are
/// those of the relationships: what is a child is the child of some
/// representation.
pub proof fn law_children_are_those_of_relationships(
    relationships: Seq<(u64, u64, u64)>,
    items: Map<u64, (u64, u64)>,
    flipped: bool,
)
    ensures
        forall|rep: u64|
            #![trigger is_parent(relationships, flipped, rep)]
            is_parent(relationships, flipped, rep) <==> children(
                relationships,
                items,
                flipped,
                rep,
            ).len() > 0,
        forall|child: u64|
            #![trigger is_child(relationships, flipped, child)]
            is_child(relationships, flipped, child) <==> exists|rep: u64, k: int|
                0 <= k < children(relationships, items, flipped, rep).len() && (#[trigger] children(
                    relationships,
                    items,
                    flipped,
                    rep,
                )[k]).0 == child,
    decreases relationships.len(),
{
    if relationships.len() > 0 {
        let init = relationships.drop_last();
        let last = relationships.last();
        let parent = parent_of(last, flipped);
        law_children_are_those_of_relationships(init, items, flipped);
        assert(relationships[relationships.len() - 1] == last);
        assert forall|rep: u64|
            #![trigger is_parent(relationships, flipped, rep)]
            is_parent(relationships, flipped, rep) <==> children(
                relationships,
                items,
                flipped,
                rep,
            ).len() > 0 by {
            if is_parent(relationships, flipped, rep) && rep != parent {
                let i = choose|i: int|
                    0 <= i < relationships.len() && parent_of(#[trigger] relationships[i], flipped)
                        == rep;
                assert(init[i] == relationships[i]);
                assert(is_parent(init, flipped, rep));
            }
            if is_parent(init, flipped, rep) {
                let i = choose|i: int|
                    0 <= i < init.len() && parent_of(#[trigger] init[i], flipped) == rep;
                assert(relationships[i] == init[i]);
            }
            assert(is_parent(init, flipped, rep) <==> children(init, items, flipped, rep).len()
                > 0);
        }
        assert forall|child: u64|
            #![trigger is_child(relationships, flipped, child)]
            is_child(relationships, flipped, child) <==> exists|rep: u64, k: int|
                0 <= k < children(relationships, items, flipped, rep).len() && (#[trigger] children(
                    relationships,
                    items,
                    flipped,
                    rep,
                )[k]).0 == child by {
            assert(is_child(init, flipped, child) <==> exists|rep: u64, k: int|
                0 <= k < children(init, items, flipped, rep).len() && (#[trigger] children(
                    init,
                    items,
                    flipped,
                    rep,
                )[k]).0 == child);
            if is_child(relationships, flipped, child) {
                if child_of(last, flipped) == child {
                    let kids = children(relationships, items, flipped, parent);
                    assert(kids[kids.len() - 1].0 == child);
                } else {
                    let i = choose|i: int|
                        0 <= i < relationships.len() && child_of(
                            #[trigger] relationships[i],
                            flipped,
                        ) == child;
                    assert(init[i] == relationships[i]);
                    assert(is_child(init, flipped, child));
                    let (rep, k) = choose|rep: u64, k: int|
                        0 <= k < children(init, items, flipped, rep).len() && (
                        #[trigger] children(init, items, flipped, rep)[k]).0 == child;
                    assert(children(relationships, items, flipped, rep)[k] == children(
                        init,
                        items,
                        flipped,
                        rep,
                    )[k]);
                }
            }
            if exists|rep: u64, k: int|
                0 <= k < children(relationships, items, flipped, rep).len() && (#[trigger] children(
                    relationships,
                    items,
                    flipped,
                    rep,
                )[k]).0 == child {
                let (rep, k) = choose|rep: u64, k: int|
                    0 <= k < children(relationships, items, flipped, rep).len() && (
                    #[trigger] children(relationships, items, flipped, rep)[k]).0 == child;
                let before = children(init, items, flipped, rep);
                if k < before.len() {
                    assert(before[k] == children(relationships, items, flipped, rep)[k]);
                    assert(is_child(init, flipped, child));
                    let i = choose|i: int|
                        0 <= i < init.len() && child_of(#[trigger] init[i], flipped) == child;
                    assert(relationships[i] == init[i]);
                } else {
                    assert(child_of(last, flipped) == child);
                }
            }
        }
    }
}

// The walk only follows ways from the roots.

proof fn lemma_neighbours_on_ways(
    g: Graph,
    todo: Seq<(u64, Seq<Step>)>,
    rep: u64,
    edges: Seq<(u64, Option<Step>)>,
    reached: Map<u64, Seq<Step>>,
    word: Seq<Step>,
)
    requires
        g.leads_to(rep, word),
        forall|i: int|
            0 <= i < todo.len() ==> g.leads_to((#[trigger] todo[i]).0, todo[i].1),
        forall|i: int| 0 <= i < edges.len() ==> g.edges(rep).contains(#[trigger] edges[i]),
    ensures
        ({
            let out = with_neighbours(todo, edges, reached, word);
            forall|i: int| 0 <= i < out.len() ==> g.leads_to((#[trigger] out[i]).0, out[i].1)
        }),
    decreases edges.len(),
{
    if edges.len() > 0 {
        let init = edges.drop_last();
        assert forall|i: int| 0 <= i < init.len() implies g.edges(rep).contains(
            #[trigger] init[i],
        ) by {
            assert(init[i] == edges[i]);
        }
        lemma_neighbours_on_ways(g, todo, rep, init, reached, word);
        let (to, step) = edges.last();
        assert(edges.last() == edges[edges.len() - 1]);
        let (root, way) = choose|root: u64, way: Seq<(u64, Option<Step>)>| #[trigger]
            g.is_way(root, way) && way_end(root, way) == rep && way_word(way) == word;
        let longer = way.push((to, step));
        assert(longer.drop_last() =~= way);
        assert(g.is_way(root, longer));
        assert(way_end(root, longer) == to);
        assert(way_word(longer) == extended(word, step));
        assert(g.leads_to(to, extended(word, step)));
        let before = with_neighbours(todo, init, reached, word);
        let out = with_neighbours(todo, edges, reached, word);
        assert forall|i: int| 0 <= i < out.len() implies g.leads_to(
            (#[trigger] out[i]).0,
            out[i].1,
        ) by {
            if i < before.len() {
                assert(out[i] == before[i]);
            }
        }
    }
}

/// Every representation that the walk reaches is reached over a way from a
/// root, and the transformations noted for it are those of that way.
pub proof fn law_walk_follows_ways(g: Graph, n: nat)
    ensures
        forall|rep: u64| #[trigger]
            g.walked(n).reached.contains_key(rep) ==> g.leads_to(rep, g.walked(n).reached[rep]),
        forall|i: int|
            0 <= i < g.walked(n).todo.len() ==> g.leads_to(
                (#[trigger] g.walked(n).todo[i]).0,
                g.walked(n).todo[i].1,
            ),
    decreases n,
{
    if n == 0 {
        let todo = g.start().todo;
        assert forall|i: int| 0 <= i < todo.len() implies g.leads_to(
            (#[trigger] todo[i]).0,
            todo[i].1,
        ) by {
            let root = g.roots()[i];
            let way = Seq::<(u64, Option<Step>)>::empty();
            assert(g.is_way(root, way));
            assert(way_end(root, way) == root && way_word(way) == Seq::<Step>::empty());
        }
    } else {
        let m = (n - 1) as nat;
        law_walk_follows_ways(g, m);
        let walk = g.walked(m);
        if walk.todo.len() > 0 {
            let (rep, word) = walk.todo.last();
            assert(walk.todo[walk.todo.len() - 1] == walk.todo.last());
            let rest = walk.todo.drop_last();
            assert forall|i: int| 0 <= i < rest.len() implies g.leads_to(
                (#[trigger] rest[i]).0,
                rest[i].1,
            ) by {
                assert(rest[i] == walk.todo[i]);
            }
            lemma_neighbours_on_ways(g, rest, rep, g.edges(rep), walk.reached, word);
        }
    }
}

// The walk leaves nothing out.

pub open spec fn waits(todo: Seq<(u64, Seq<Step>)>, rep: u64) -> bool {
    exists|i: int| 0 <= i < todo.len() && (#[trigger] todo[i]).0 == rep
}

proof fn lemma_neighbours_wait(
    todo: Seq<(u64, Seq<Step>)>,
    edges: Seq<(u64, Option<Step>)>,
    reached: Map<u64, Seq<Step>>,
    word: Seq<Step>,
)
    ensures
        ({
            let out = with_neighbours(todo, edges, reached, word);
            &&& forall|rep: u64| #[trigger] waits(todo, rep) ==> waits(out, rep)
            &&& forall|i: int|
                0 <= i < edges.len() ==> reached.contains_key((#[trigger] edges[i]).0) || waits(
                    out,
                    edges[i].0,
                )
        }),
    decreases edges.len(),
{
    let out = with_neighbours(todo, edges, reached, word);
    if edges.len() > 0 {
        let init = edges.drop_last();
        lemma_neighbours_wait(todo, init, reached, word);
        let before = with_neighbours(todo, init, reached, word);
        let (to, step) = edges.last();
        if !reached.contains_key(to) {
            assert(out == before.push((to, extended(word, step))));
            assert(out[out.len() - 1].0 == to);
        }
        assert forall|rep: u64| #[trigger] waits(before, rep) implies waits(out, rep) by {
            let i = choose|i: int| 0 <= i < before.len() && (#[trigger] before[i]).0 == rep;
            assert(out[i] == before[i]);
        }
        assert forall|i: int| 0 <= i < edges.len() implies reached.contains_key(
            (#[trigger] edges[i]).0,
        ) || waits(out, edges[i].0) by {
            if i < init.len() {
                assert(init[i] == edges[i]);
            }
        }
    }
}

/// What was met is reached or waits: the roots, and every neighbour of a
/// reached representation.
proof fn lemma_nothing_forgotten(g: Graph, n: nat)
    ensures
        forall|i: int|
            0 <= i < g.roots().len() ==> g.walked(n).reached.contains_key(#[trigger] g.roots()[i])
                || waits(g.walked(n).todo, g.roots()[i]),
        forall|rep: u64, i: int|
            #![trigger g.edges(rep)[i]]
            g.walked(n).reached.contains_key(rep) && 0 <= i < g.edges(rep).len()
                ==> g.walked(n).reached.contains_key(g.edges(rep)[i].0) || waits(
                g.walked(n).todo,
                g.edges(rep)[i].0,
            ),
    decreases n,
{
    let now = g.walked(n);
    if n == 0 {
        assert forall|i: int| 0 <= i < g.roots().len() implies waits(
            now.todo,
            #[trigger] g.roots()[i],
        ) by {
            assert(now.todo[i].0 == g.roots()[i]);
        }
    } else {
        let m = (n - 1) as nat;
        lemma_nothing_forgotten(g, m);
        let walk = g.walked(m);
        if walk.todo.len() > 0 {
            let (rep, word) = walk.todo.last();
            let rest = walk.todo.drop_last();
            lemma_neighbours_wait(rest, g.edges(rep), walk.reached, word);
            assert forall|other: u64| #[trigger] waits(walk.todo, other) implies waits(
                now.todo,
                other,
            ) || now.reached.contains_key(other) by {
                let i = choose|i: int| 0 <= i < walk.todo.len() && (#[trigger] walk.todo[i]).0
                    == other;
                if i < rest.len() {
                    assert(rest[i].0 == other);
                    assert(waits(rest, other));
                }
            }
        }
    }
}

proof fn lemma_way_end_reached(
    g: Graph,
    reached: Map<u64, Seq<Step>>,
    root: u64,
    way: Seq<(u64, Option<Step>)>,
)
    requires
        g.is_way(root, way),
        forall|i: int| 0 <= i < g.roots().len() ==> reached.contains_key(#[trigger] g.roots()[i]),
        forall|rep: u64, i: int|
            #![trigger g.edges(rep)[i]]
            reached.contains_key(rep) && 0 <= i < g.edges(rep).len() ==> reached.contains_key(
                g.edges(rep)[i].0,
            ),
    ensures
        reached.contains_key(way_end(root, way)),
    decreases way.len(),
{
    if way.len() > 0 {
        lemma_way_end_reached(g, reached, root, way.drop_last());
    }
}

/// A walk that has ended has reached exactly the representations to which a
/// way leads from a root.
pub proof fn law_walk_reaches_all(g: Graph, n: nat, rep: u64)
    requires
        g.walked(n).todo.len() == 0,
    ensures
        g.walked(n).reached.contains_key(rep) <==> exists|word: Seq<Step>| #[trigger]
            g.leads_to(rep, word),
{
    law_walk_follows_ways(g, n);
    if g.walked(n).reached.contains_key(rep) {
        assert(g.leads_to(rep, g.walked(n).reached[rep]));
    }
    if exists|word: Seq<Step>| #[trigger] g.leads_to(rep, word) {
        let word = choose|word: Seq<Step>| #[trigger] g.leads_to(rep, word);
        let (root, way) = choose|root: u64, way: Seq<(u64, Option<Step>)>| #[trigger]
            g.is_way(root, way) && way_end(root, way) == rep && way_word(way) == word;
        lemma_nothing_forgotten(g, n);
        lemma_way_end_reached(g, g.walked(n).reached, root, way);
    }
}

/// Where only one word of transformations leads to a representation, the walk
/// ends with that word.
pub proof fn law_single_way_decides(g: Graph, n: nat, rep: u64, word: Seq<Step>)
    requires
        g.walked(n).todo.len() == 0,
        g.leads_to(rep, word),
        forall|other: Seq<Step>| #[trigger] g.leads_to(rep, other) ==> other == word,
    ensures
        g.walked(n).reached.contains_key(rep),
        g.walked(n).reached[rep] == word,
{
    law_walk_reaches_all(g, n, rep);
    law_walk_follows_ways(g, n);
}

/// The outcome of a walk does not depend on how long it is watched.
pub proof fn law_walk_ends_once(g: Graph, a: Map<u64, Seq<Step>>, b: Map<u64, Seq<Step>>)
    requires
        g.ends_with(a),
        g.ends_with(b),
    ensures
        a == b,
{
    let n = choose|n: nat| (#[trigger] g.walked(n)).todo.len() == 0 && g.walked(n).reached == a;
    let m = choose|m: nat| (#[trigger] g.walked(m)).todo.len() == 0 && g.walked(m).reached == b;
    if n <= m {
        lemma_ended_stays(g, n, m);
    } else {
        lemma_ended_stays(g, m, n);
    }
}

proof fn lemma_ended_stays(g: Graph, n: nat, m: nat)
    requires
        n <= m,
        g.walked(n).todo.len() == 0,
    ensures
        g.walked(m) == g.walked(n),
    decreases m,
{
    if n < m {
        lemma_ended_stays(g, n, (m - 1) as nat);
    }
}

// The walk ends.

/// All representations that a link or a relationship names.
spec fn named(g: Graph) -> Seq<u64> {
    g.links.map_values(|l: (u64, u64)| l.0) + g.links.map_values(|l: (u64, u64)| l.1)
        + g.relationships.map_values(|r: (u64, u64, u64)| r.0) + g.relationships.map_values(
        |r: (u64, u64, u64)| r.1,
    )
}

proof fn lemma_relationship_named(g: Graph, i: int)
    requires
        0 <= i < g.relationships.len(),
    ensures
        named(g).contains(g.relationships[i].0),
        named(g).contains(g.relationships[i].1),
{
    let l = g.links.len() as int;
    let r = g.relationships.len() as int;
    assert(named(g)[l + l + i] == g.relationships[i].0);
    assert(named(g)[l + l + r + i] == g.relationships[i].1);
}

proof fn lemma_link_named(g: Graph, i: int)
    requires
        0 <= i < g.links.len(),
    ensures
        named(g).contains(g.links[i].0),
        named(g).contains(g.links[i].1),
{
    let l = g.links.len() as int;
    assert(named(g)[i] == g.links[i].0);
    assert(named(g)[l + i] == g.links[i].1);
}

proof fn lemma_linked_named(g: Graph, n: int, rep: u64)
    requires
        0 <= n <= g.links.len(),
    ensures
        forall|i: int|
            0 <= i < linked(g.links.take(n), rep).len() ==> named(g).contains(
                #[trigger] linked(g.links.take(n), rep)[i],
            ),
    decreases n,
{
    if n > 0 {
        lemma_linked_named(g, n - 1, rep);
        lemma_link_named(g, n - 1);
        assert(g.links.take(n).drop_last() =~= g.links.take(n - 1));
        let before = linked(g.links.take(n - 1), rep);
        let now = linked(g.links.take(n), rep);
        assert forall|i: int| 0 <= i < now.len() implies named(g).contains(#[trigger] now[i]) by {
            if i < before.len() {
                assert(now[i] == before[i]);
            }
        }
    }
}

proof fn lemma_children_named(g: Graph, n: int, rep: u64)
    requires
        0 <= n <= g.relationships.len(),
    ensures
        ({
            let kids = children(g.relationships.take(n), g.items, g.flipped, rep);
            forall|i: int| 0 <= i < kids.len() ==> named(g).contains((#[trigger] kids[i]).0)
        }),
    decreases n,
{
    if n > 0 {
        lemma_children_named(g, n - 1, rep);
        lemma_relationship_named(g, n - 1);
        assert(g.relationships.take(n).drop_last() =~= g.relationships.take(n - 1));
        let before = children(g.relationships.take(n - 1), g.items, g.flipped, rep);
        let now = children(g.relationships.take(n), g.items, g.flipped, rep);
        assert forall|i: int| 0 <= i < now.len() implies named(g).contains(
            (#[trigger] now[i]).0,
        ) by {
            if i < before.len() {
                assert(now[i] == before[i]);
            }
        }
    }
}

proof fn lemma_edges_named(g: Graph, rep: u64)
    ensures
        forall|i: int| 0 <= i < g.edges(rep).len() ==> named(g).contains(
            (#[trigger] g.edges(rep)[i]).0,
        ),
{
    lemma_linked_named(g, g.links.len() as int, rep);
    lemma_children_named(g, g.relationships.len() as int, rep);
    assert(g.links.take(g.links.len() as int) =~= g.links);
    assert(g.relationships.take(g.relationships.len() as int) =~= g.relationships);
    let links = linked(g.links, rep);
    let kids = children(g.relationships, g.items, g.flipped, rep);
    assert forall|i: int| 0 <= i < g.edges(rep).len() implies named(g).contains(
        (#[trigger] g.edges(rep)[i]).0,
    ) by {
        if i < links.len() {
            assert(g.edges(rep)[i].0 == links[i]);
        } else {
            assert(g.edges(rep)[i].0 == kids[i - links.len()].0);
        }
    }
}

proof fn lemma_roots_named(g: Graph, n: int)
    requires
        0 <= n <= g.relationships.len(),
    ensures
        ({
            let roots = roots_among(g.relationships.take(n), g.relationships, g.flipped);
            forall|i: int| 0 <= i < roots.len() ==> named(g).contains(#[trigger] roots[i])
        }),
    decreases n,
{
    if n > 0 {
        lemma_roots_named(g, n - 1);
        lemma_relationship_named(g, n - 1);
        assert(g.relationships.take(n).drop_last() =~= g.relationships.take(n - 1));
        let before = roots_among(g.relationships.take(n - 1), g.relationships, g.flipped);
        let now = roots_among(g.relationships.take(n), g.relationships, g.flipped);
        assert forall|i: int| 0 <= i < now.len() implies named(g).contains(#[trigger] now[i]) by {
            if i < before.len() {
                assert(now[i] == before[i]);
            }
        }
    }
}

/// How many places to go on from were reached already.
spec fn reached_again(todo: Seq<(u64, Seq<Step>)>, reached: Map<u64, Seq<Step>>) -> nat
    decreases todo.len(),
{
    if todo.len() == 0 {
        0
    } else {
        reached_again(todo.drop_last(), reached) + if reached.contains_key(todo.last().0) {
            1nat
        } else {
            0nat
        }
    }
}

proof fn lemma_neighbours_are_new(
    g: Graph,
    todo: Seq<(u64, Seq<Step>)>,
    edges: Seq<(u64, Option<Step>)>,
    reached: Map<u64, Seq<Step>>,
    word: Seq<Step>,
)
    requires
        forall|i: int| 0 <= i < todo.len() ==> named(g).contains((#[trigger] todo[i]).0),
        forall|i: int| 0 <= i < edges.len() ==> named(g).contains((#[trigger] edges[i]).0),
    ensures
        ({
            let out = with_neighbours(todo, edges, reached, word);
            &&& reached_again(out, reached) == reached_again(todo, reached)
            &&& forall|i: int| 0 <= i < out.len() ==> named(g).contains((#[trigger] out[i]).0)
        }),
    decreases edges.len(),
{
    if edges.len() > 0 {
        let init = edges.drop_last();
        assert forall|i: int| 0 <= i < init.len() implies named(g).contains(
            (#[trigger] init[i]).0,
        ) by {
            assert(init[i] == edges[i]);
        }
        lemma_neighbours_are_new(g, todo, init, reached, word);
        let before = with_neighbours(todo, init, reached, word);
        let (to, step) = edges.last();
        assert(edges[edges.len() - 1].0 == to);
        if !reached.contains_key(to) {
            let out = before.push((to, extended(word, step)));
            assert(out.drop_last() =~= before);
            assert forall|i: int| 0 <= i < out.len() implies named(g).contains(
                (#[trigger] out[i]).0,
            ) by {
                if i < before.len() {
                    assert(out[i] == before[i]);
                }
            }
        }
    }
}

/// Representations that are named and not reached.
spec fn missing(g: Graph, reached: Map<u64, Seq<Step>>) -> Set<u64> {
    named(g).to_set().difference(reached.dom())
}

proof fn lemma_missing_shrinks(g: Graph, reached: Map<u64, Seq<Step>>, rep: u64, word: Seq<Step>)
    requires
        named(g).contains(rep),
    ensures
        missing(g, reached).finite(),
        reached.contains_key(rep) ==> missing(g, reached.insert(rep, word)) == missing(
            g,
            reached,
        ),
        !reached.contains_key(rep) ==> missing(g, reached.insert(rep, word)).len() < missing(
            g,
            reached,
        ).len(),
{
    vstd::seq_lib::seq_to_set_is_finite(named(g));
    let now = missing(g, reached.insert(rep, word));
    let before = missing(g, reached);
    if reached.contains_key(rep) {
        assert(now =~= before);
    } else {
        assert(named(g).to_set().contains(rep));
        assert(before.contains(rep));
        assert(now =~= before.remove(rep));
    }
}

// Executable form.

spec fn kids_at(stack: Map<u64, Vec<(u64, Step)>>, rep: u64) -> Seq<(u64, Step)> {
    if stack.contains_key(rep) {
        stack[rep]@
    } else {
        Seq::empty()
    }
}

spec fn links_at(map: Map<u64, Vec<u64>>, rep: u64) -> Seq<u64> {
    if map.contains_key(rep) {
        map[rep]@
    } else {
        Seq::empty()
    }
}

/// The representations that are a parent and never a child, in the order in
/// which they first stand in a relationship.
pub fn find_transform_roots(relationships: &[(u64, u64, u64)], flip: bool) -> (r: Vec<u64>)
    ensures
        r@ == transform_roots(relationships@, flip),
{
    let mut kids: HashSet<u64> = HashSet::new();
    let ghost all = relationships@;
    let mut i: usize = 0;
    while i < relationships.len()
        invariant
            i <= relationships.len(),
            all == relationships@,
            forall|rep: u64| #[trigger]
                kids@.contains(rep) <==> is_child(all.take(i as int), flip, rep),
        decreases relationships.len() - i,
    {
        let relationship = relationships[i];
        let child: u64 = if flip {
            relationship.1
        } else {
            relationship.0
        };
        let ghost before = kids@;
        kids.insert(child);
        proof {
            let shorter = all.take(i as int);
            let longer = all.take(i + 1);
            assert forall|rep: u64| #[trigger] kids@.contains(rep) <==> is_child(
                longer,
                flip,
                rep,
            ) by {
                assert(longer[i as int] == all[i as int]);
                assert(forall|k: int| 0 <= k < i ==> #[trigger] shorter[k] == longer[k]);
                if is_child(longer, flip, rep) {
                    let k = choose|k: int|
                        0 <= k < longer.len() && child_of(#[trigger] longer[k], flip) == rep;
                    if k < i {
                        assert(shorter[k] == longer[k]);
                        assert(is_child(shorter, flip, rep));
                        assert(before.contains(rep));
                    }
                }
                if before.contains(rep) {
                    let k = choose|k: int|
                        0 <= k < shorter.len() && child_of(#[trigger] shorter[k], flip) == rep;
                    assert(longer[k] == shorter[k]);
                }
            }
        }
        i += 1;
    }
    assert(all.take(all.len() as int) =~= all);
    let mut seen: HashSet<u64> = HashSet::new();
    let mut roots: Vec<u64> = Vec::new();
    let mut k: usize = 0;
    while k < relationships.len()
        invariant
            k <= relationships.len(),
            all == relationships@,
            forall|rep: u64| #[trigger] kids@.contains(rep) <==> is_child(all, flip, rep),
            roots@ == roots_among(all.take(k as int), all, flip),
            forall|rep: u64| #[trigger] seen@.contains(rep) <==> roots@.contains(rep),
        decreases relationships.len() - k,
    {
        let relationship = relationships[k];
        let parent: u64 = if flip {
            relationship.0
        } else {
            relationship.1
        };
        assert(all.take(k + 1).drop_last() =~= all.take(k as int));
        assert(all.take(k + 1).last() == relationship);
        let ghost before = roots@;
        if !seen.contains(&parent) && !kids.contains(&parent) {
            roots.push(parent);
            seen.insert(parent);
            assert forall|rep: u64| #[trigger] seen@.contains(rep) <==> roots@.contains(rep) by {
                if before.contains(rep) {
                    let at = before.index_of(rep);
                    assert(roots@[at] == rep);
                }
                assert(roots@[before.len() as int] == parent);
                if roots@.contains(rep) && rep != parent {
                    let at = roots@.index_of(rep);
                    assert(before[at] == rep);
                }
            }
        }
        k += 1;
    }
    roots
}

/// The children of each parent, with their transformations.
fn build_transform_stack_directed(
    relationships: &[(u64, u64, u64)],
    items: &HashMap<u64, (u64, u64)>,
    flip: bool,
) -> (r: HashMap<u64, Vec<(u64, Step)>>)
    ensures
        forall|rep: u64| #[trigger]
            kids_at(r@, rep) == children(relationships@, items@, flip, rep),
{
    let mut stack: HashMap<u64, Vec<(u64, Step)>> = HashMap::new();
    let ghost all = relationships@;
    let mut i: usize = 0;
    while i < relationships.len()
        invariant
            i <= relationships.len(),
            all == relationships@,
            forall|rep: u64| #[trigger]
                kids_at(stack@, rep) == children(all.take(i as int), items@, flip, rep),
        decreases relationships.len() - i,
    {
        let relationship = relationships[i];
        let (parent, child) = if flip {
            (relationship.0, relationship.1)
        } else {
            (relationship.1, relationship.0)
        };
        let placements: Option<(u64, u64)> = match items.get(&relationship.2) {
            Some(pair) => Some(*pair),
            None => None,
        };
        let ghost before = stack@;
        let mut kids: Vec<(u64, Step)> = match stack.remove(&parent) {
            Some(v) => v,
            None => Vec::new(),
        };
        assert(kids@ =~= kids_at(before, parent));
        kids.push((child, Step { placements, inverted: flip }));
        stack.insert(parent, kids);
        proof {
            let longer = all.take(i + 1);
            assert(longer.drop_last() =~= all.take(i as int));
            assert(longer.last() == relationship);
            assert forall|rep: u64| #[trigger] kids_at(stack@, rep) == children(
                longer,
                items@,
                flip,
                rep,
            ) by {
                assert(kids_at(before, rep) == children(all.take(i as int), items@, flip, rep));
                if rep != parent {
                    assert(kids_at(stack@, rep) == kids_at(before, rep));
                }
            }
        }
        i += 1;
    }
    assert(all.take(all.len() as int) =~= all);
    stack
}

/// The children of each parent with their transformations, and whether the
/// relationships were flipped: that is done if there are several roots and
/// flipping leaves fewer.
fn build_transform_stack(
    relationships: &[(u64, u64, u64)],
    items: &HashMap<u64, (u64, u64)>,
) -> (r: (HashMap<u64, Vec<(u64, Step)>>, bool))
    ensures
        r.1 == flips(relationships@),
        forall|rep: u64| #[trigger]
            kids_at(r.0@, rep) == children(relationships@, items@, r.1, rep),
{
    let roots = find_transform_roots(relationships, false);
    if roots.len() > 1 {
        let flipped_roots = find_transform_roots(relationships, true);
        if flipped_roots.len() < roots.len() {
            return (build_transform_stack_directed(relationships, items, true), true);
        }
    }
    (build_transform_stack_directed(relationships, items, false), false)
}

fn add_link(map: &mut HashMap<u64, Vec<u64>>, from: u64, to: u64)
    ensures
        forall|rep: u64| #[trigger]
            links_at(final(map)@, rep) == if rep == from {
                links_at(old(map)@, rep).push(to)
            } else {
                links_at(old(map)@, rep)
            },
{
    let ghost before = map@;
    let mut linked: Vec<u64> = match map.remove(&from) {
        Some(v) => v,
        None => Vec::new(),
    };
    assert(linked@ =~= links_at(before, from));
    linked.push(to);
    map.insert(from, linked);
}

fn build_link_map(links: &[(u64, u64)]) -> (r: HashMap<u64, Vec<u64>>)
    ensures
        forall|rep: u64| #[trigger] links_at(r@, rep) == linked(links@, rep),
{
    let mut map: HashMap<u64, Vec<u64>> = HashMap::new();
    let ghost all = links@;
    let mut i: usize = 0;
    while i < links.len()
        invariant
            i <= links.len(),
            all == links@,
            forall|rep: u64| #[trigger] links_at(map@, rep) == linked(all.take(i as int), rep),
        decreases links.len() - i,
    {
        let (first, second) = links[i];
        let ghost before = map@;
        add_link(&mut map, first, second);
        let ghost between = map@;
        add_link(&mut map, second, first);
        proof {
            let longer = all.take(i + 1);
            assert(longer.drop_last() =~= all.take(i as int));
            assert(longer.last() == (first, second));
            assert forall|rep: u64| #[trigger] links_at(map@, rep) == linked(longer, rep) by {
                assert(links_at(before, rep) == linked(all.take(i as int), rep));
                let after_first = links_at(between, rep);
            }
        }
        i += 1;
    }
    assert(all.take(all.len() as int) =~= all);
    map
}

spec fn todo_views(todo: Seq<(u64, Vec<Step>)>) -> Seq<(u64, Seq<Step>)> {
    todo.map_values(|t: (u64, Vec<Step>)| (t.0, t.1@))
}

pub open spec fn word_map(m: Map<u64, Vec<Step>>) -> Map<u64, Seq<Step>> {
    m.map_values(|w: Vec<Step>| w@)
}

pub(crate) fn copy_word(word: &Vec<Step>) -> (r: Vec<Step>)
    ensures
        r@ == word@,
{
    let mut out: Vec<Step> = Vec::new();
    let mut i: usize = 0;
    while i < word.len()
        invariant
            i <= word.len(),
            out@ == word@.take(i as int),
        decreases word.len() - i,
    {
        out.push(word[i]);
        i += 1;
    }
    assert(word@.take(word.len() as int) =~= word@);
    out
}

/// The transformations on the way to each representation that can be reached
/// from a root.
pub fn resolve_representations(
    links: &[(u64, u64)],
    relationships: &[(u64, u64, u64)],
    items: &HashMap<u64, (u64, u64)>,
) -> (r: HashMap<u64, Vec<Step>>)
    ensures
        (Graph {
            links: links@,
            relationships: relationships@,
            items: items@,
            flipped: flips(relationships@),
        }).ends_with(word_map(r@)),
        chains::places_all(
            Graph {
                links: links@,
                relationships: relationships@,
                items: items@,
                flipped: chains::reads_flipped(relationships@),
            },
            word_map(r@),
        ),
{
    let (stack, flipped) = build_transform_stack(relationships, items);
    let link_map = build_link_map(links);
    let roots = find_transform_roots(relationships, flipped);
    let ghost g = Graph {
        links: links@,
        relationships: relationships@,
        items: items@,
        flipped: flips(relationships@),
    };
    let mut todo: Vec<(u64, Vec<Step>)> = Vec::new();
    let mut k: usize = 0;
    while k < roots.len()
        invariant
            k <= roots.len(),
            todo@.len() == k,
            forall|i: int|
                0 <= i < k ==> (#[trigger] todo@[i]).0 == roots@[i] && todo@[i].1@ == Seq::<
                    Step,
                >::empty(),
        decreases roots.len() - k,
    {
        todo.push((roots[k], Vec::new()));
        k += 1;
    }
    let mut reached: HashMap<u64, Vec<Step>> = HashMap::new();
    let ghost mut n: nat = 0;
    proof {
        assert(todo_views(todo@) =~= g.start().todo);
        assert(word_map(reached@) =~= g.start().reached);
        lemma_roots_named(g, g.relationships.len() as int);
        assert(g.relationships.take(g.relationships.len() as int) =~= g.relationships);
        assert forall|i: int| 0 <= i < todo_views(todo@).len() implies named(g).contains(
            (#[trigger] todo_views(todo@)[i]).0,
        ) by {
            assert(g.roots()[i] == todo_views(todo@)[i].0);
        }
    }
    while todo.len() > 0
        invariant
            todo_views(todo@) == g.walked(n).todo,
            word_map(reached@) == g.walked(n).reached,
            forall|i: int|
                0 <= i < g.walked(n).todo.len() ==> named(g).contains(
                    (#[trigger] g.walked(n).todo[i]).0,
                ),
            forall|rep: u64| #[trigger]
                kids_at(stack@, rep) == children(g.relationships, g.items, g.flipped, rep),
            forall|rep: u64| #[trigger] links_at(link_map@, rep) == linked(g.links, rep),
        decreases
                missing(g, word_map(reached@)).len(),
                reached_again(todo_views(todo@), word_map(reached@)),
    {
        let ghost walk = g.walked(n);
        let ghost views = todo_views(todo@);
        let ghost places = todo@;
        match todo.pop() {
            None => {},
            Some((rep, word)) => {
                let ghost rest = views.drop_last();
                let ghost edges = g.edges(rep);
                let ghost old_reached = walk.reached;
                assert(views.last() == (rep, word@));
                assert(todo_views(todo@) =~= rest);
                let ghost links_out = links_at(link_map@, rep);
                let ghost kids_out = kids_at(stack@, rep);
                proof {
                    assert(links_out == linked(g.links, rep));
                    assert(kids_out == children(g.relationships, g.items, g.flipped, rep));
                    assert(edges.take(0) =~= Seq::empty());
                }
                if let Some(others) = link_map.get(&rep) {
                    let mut i: usize = 0;
                    while i < others.len()
                        invariant
                            i <= others.len(),
                            others@ == links_out,
                            links_out.len() <= edges.len(),
                            forall|j: int|
                                0 <= j < links_out.len() ==> #[trigger] edges[j] == (
                                    links_out[j],
                                    None::<Step>,
                                ),
                            word_map(reached@) == old_reached,
                            todo_views(todo@) == with_neighbours(
                                rest,
                                edges.take(i as int),
                                old_reached,
                                word@,
                            ),
                        decreases others.len() - i,
                    {
                        let to: u64 = others[i];
                        let ghost longer = edges.take(i + 1);
                        assert(longer.drop_last() =~= edges.take(i as int));
                        assert(longer.last() == (to, None::<Step>));
                        let ghost so_far = todo@;
                        if !reached.contains_key(&to) {
                            let next = copy_word(&word);
                            todo.push((to, next));
                            assert(todo_views(todo@) =~= todo_views(so_far).push((to, word@)));
                        }
                        i += 1;
                    }
                }
                if let Some(kids) = stack.get(&rep) {
                    let mut i: usize = 0;
                    while i < kids.len()
                        invariant
                            i <= kids.len(),
                            kids@ == kids_out,
                            links_out.len() + kids_out.len() == edges.len(),
                            forall|j: int|
                                0 <= j < kids_out.len() ==> #[trigger] edges[links_out.len() + j]
                                    == (kids_out[j].0, Some(kids_out[j].1)),
                            word_map(reached@) == old_reached,
                            todo_views(todo@) == with_neighbours(
                                rest,
                                edges.take(links_out.len() + i),
                                old_reached,
                                word@,
                            ),
                        decreases kids.len() - i,
                    {
                        let (to, step) = kids[i];
                        let ghost longer = edges.take(links_out.len() + i + 1);
                        assert(longer.drop_last() =~= edges.take(links_out.len() + i));
                        assert(longer.last() == edges[links_out.len() + i]);
                        let ghost so_far = todo@;
                        if !reached.contains_key(&to) {
                            let mut next = copy_word(&word);
                            next.push(step);
                            let ghost shown = next@;
                            todo.push((to, next));
                            assert(todo_views(todo@) =~= todo_views(so_far).push((to, shown)));
                        }
                        i += 1;
                    }
                }
                let ghost shown = word@;
                reached.insert(rep, word);
                proof {
                    assert(edges.take(edges.len() as int) =~= edges);
                    assert(word_map(reached@) =~= old_reached.insert(rep, shown));
                    assert(g.advance(walk).todo == todo_views(todo@));
                    assert(g.walked(n + 1) == g.advance(walk));
                    assert(views[views.len() - 1].0 == rep);
                    assert(named(g).contains(rep));
                    lemma_edges_named(g, rep);
                    assert forall|i: int| 0 <= i < rest.len() implies named(g).contains(
                        (#[trigger] rest[i]).0,
                    ) by {
                        assert(rest[i] == views[i]);
                    }
                    lemma_neighbours_are_new(g, rest, edges, old_reached, shown);
                    lemma_missing_shrinks(g, old_reached, rep, shown);
                    if old_reached.contains_key(rep) {
                        lemma_same_reached(
                            todo_views(todo@),
                            old_reached,
                            old_reached.insert(rep, shown),
                        );
                    }
                    n = n + 1;
                }
            },
        }
    }
    proof {
        chains::law_flips_for_fewer_tops(relationships@);
        assert(g.walked(n).todo.len() == 0);
        assert(g.ends_with(word_map(reached@)));
        chains::law_steps_follow_chains(g, word_map(reached@));
    }
    reached
}

proof fn lemma_same_reached(
    todo: Seq<(u64, Seq<Step>)>,
    a: Map<u64, Seq<Step>>,
    b: Map<u64, Seq<Step>>,
)
    requires
        a.dom() =~= b.dom(),
    ensures
        reached_again(todo, a) == reached_again(todo, b),
    decreases todo.len(),
{
    if todo.len() > 0 {
        lemma_same_reached(todo.drop_last(), a, b);
    }
}

} // verus!
