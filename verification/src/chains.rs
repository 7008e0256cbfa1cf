//! The way to a representation of an assembly, told hop by hop on the links and
//! relationships that a file gives.

use vstd::prelude::*;

use crate::graph;
use crate::graph::{Graph, Step};

verus! {

/// A hop from one representation to another: over a link, or over the
/// relationship at a place.
pub ghost struct Hop {
    pub from: u64,
    pub to: u64,
    pub via: Option<int>,
}

/// A link or a relationship of the file leads over the hop. A relationship
/// leads from its second representation to its first, or the other way round
/// if they are flipped.
pub open spec fn is_hop(g: Graph, hop: Hop) -> bool {
    match hop.via {
        None => exists|l: int|
            0 <= l < g.links.len() && (#[trigger] g.links[l] == (hop.from, hop.to) || g.links[l]
                == (hop.to, hop.from)),
        Some(i) => 0 <= i < g.relationships.len() && if g.flipped {
            g.relationships[i].0 == hop.from && g.relationships[i].1 == hop.to
        } else {
            g.relationships[i].1 == hop.from && g.relationships[i].0 == hop.to
        },
    }
}

/// The representation is placed in no other, and another is placed in it.
pub open spec fn is_top(relationships: Seq<(u64, u64, u64)>, flipped: bool, rep: u64) -> bool {
    if flipped {
        (exists|i: int| 0 <= i < relationships.len() && (#[trigger] relationships[i]).0 == rep)
            && forall|i: int|
            0 <= i < relationships.len() ==> (#[trigger] relationships[i]).1 != rep
    } else {
        (exists|i: int| 0 <= i < relationships.len() && (#[trigger] relationships[i]).1 == rep)
            && forall|i: int|
            0 <= i < relationships.len() ==> (#[trigger] relationships[i]).0 != rep
    }
}

pub open spec fn tops(relationships: Seq<(u64, u64, u64)>, flipped: bool) -> Set<u64> {
    Set::new(|rep: u64| is_top(relationships, flipped, rep))
}

/// The relationships are read the other way round: there is more than one
/// representation at the top, and then there are fewer.
pub open spec fn reads_flipped(relationships: Seq<(u64, u64, u64)>) -> bool {
    tops(relationships, false).len() > 1 && tops(relationships, true).len() < tops(
        relationships,
        false,
    ).len()
}

/// The hops lead from the top to the representation.
pub open spec fn is_chain(g: Graph, hops: Seq<Hop>, rep: u64) -> bool {
    &&& is_top(
        g.relationships,
        g.flipped,
        if hops.len() == 0 {
            rep
        } else {
            hops[0].from
        },
    )
    &&& hops.len() > 0 ==> hops[hops.len() - 1].to == rep
    &&& forall|k: int| 0 <= k < hops.len() ==> is_hop(g, #[trigger] hops[k])
    &&& forall|k: int| 0 < k < hops.len() ==> hops[k - 1].to == (#[trigger] hops[k]).from
}

/// The number of relationships among the first hops.
pub open spec fn moves(hops: Seq<Hop>, n: int) -> int
    decreases n,
{
    if n <= 0 {
        0
    } else {
        moves(hops, n - 1) + (if hops[n - 1].via is Some {
            1int
        } else {
            0
        })
    }
}

/// The transformation of a relationship: between the two placements of its
/// item, if that is known.
pub open spec fn is_step_of(g: Graph, step: Step, i: int) -> bool {
    &&& step.inverted == g.flipped
    &&& if g.items.contains_key(g.relationships[i].2) {
        step.placements == Some(g.items[g.relationships[i].2])
    } else {
        step.placements is None
    }
}

/// The steps are those of the relationships on the way, the first hop first.
pub open spec fn tells_moves(g: Graph, hops: Seq<Hop>, word: Seq<Step>) -> bool {
    &&& word.len() == moves(hops, hops.len() as int)
    &&& forall|k: int|
        0 <= k < hops.len() && (#[trigger] hops[k]).via is Some ==> 0 <= moves(hops, k)
            < word.len() && is_step_of(g, word[moves(hops, k)], hops[k].via->0)
}

/// A chain of hops leads to the representation, and the steps are those on it.
pub open spec fn is_placed(g: Graph, rep: u64, word: Seq<Step>) -> bool {
    exists|hops: Seq<Hop>| #[trigger] is_chain(g, hops, rep) && tells_moves(g, hops, word)
}

proof fn lemma_top_is_root(relationships: Seq<(u64, u64, u64)>, flipped: bool, rep: u64)
    ensures
        is_top(relationships, flipped, rep) <==> graph::transform_roots(
            relationships,
            flipped,
        ).contains(rep),
{
    graph::law_roots_are_parents_only(relationships, flipped);
    let roots = graph::transform_roots(relationships, flipped);
    assert(roots.contains(rep) <==> graph::is_parent(relationships, flipped, rep)
        && !graph::is_child(relationships, flipped, rep));
    if is_top(relationships, flipped, rep) {
        if flipped {
            let i = choose|i: int|
                0 <= i < relationships.len() && (#[trigger] relationships[i]).0 == rep;
            assert(graph::parent_of(relationships[i], flipped) == rep);
        } else {
            let i = choose|i: int|
                0 <= i < relationships.len() && (#[trigger] relationships[i]).1 == rep;
            assert(graph::parent_of(relationships[i], flipped) == rep);
        }
    }
    if graph::is_parent(relationships, flipped, rep) && !graph::is_child(
        relationships,
        flipped,
        rep,
    ) {
        let i = choose|i: int|
            0 <= i < relationships.len() && graph::parent_of(#[trigger] relationships[i], flipped)
                == rep;
        assert(if flipped {
            relationships[i].0 == rep
        } else {
            relationships[i].1 == rep
        });
        assert forall|k: int| 0 <= k < relationships.len() implies graph::child_of(
            #[trigger] relationships[k],
            flipped,
        ) != rep by {
        }
    }
}

/// The direction of the relationships is the one with fewer tops, and a tie
/// keeps the one that is given.
pub proof fn law_flips_for_fewer_tops(relationships: Seq<(u64, u64, u64)>)
    ensures
        graph::flips(relationships) == reads_flipped(relationships),
{
    graph::law_flipping_leaves_fewer_roots(relationships);
    assert forall|flipped: bool| #[trigger] tops(relationships, flipped) == graph::root_set(
        relationships,
        flipped,
    ) by {
        graph::law_roots_are_parents_only(relationships, flipped);
        assert forall|rep: u64| tops(relationships, flipped).contains(rep) == graph::root_set(
            relationships,
            flipped,
        ).contains(rep) by {
            lemma_top_is_root(relationships, flipped, rep);
            assert(graph::transform_roots(relationships, flipped).contains(rep)
                <==> graph::is_parent(relationships, flipped, rep) && !graph::is_child(
                relationships,
                flipped,
                rep,
            ));
        }
        assert(tops(relationships, flipped) =~= graph::root_set(relationships, flipped));
    }
    assert(tops(relationships, false) == graph::root_set(relationships, false));
    assert(tops(relationships, true) == graph::root_set(relationships, true));
}

proof fn lemma_linked(links: Seq<(u64, u64)>, rep: u64, to: u64)
    ensures
        graph::linked(links, rep).contains(to) <==> exists|l: int|
            0 <= l < links.len() && (#[trigger] links[l] == (rep, to) || links[l] == (to, rep)),
    decreases links.len(),
{
    if links.len() > 0 {
        let init = links.drop_last();
        lemma_linked(init, rep, to);
        let last = links.last();
        assert(links[links.len() - 1] == last);
        let before = graph::linked(init, rep);
        let now = graph::linked(links, rep);
        if before.contains(to) {
            let k = before.index_of(to);
            assert(now[k] == to);
            let l = choose|l: int|
                0 <= l < init.len() && (#[trigger] init[l] == (rep, to) || init[l] == (to, rep));
            assert(links[l] == init[l]);
        }
        if last == (rep, to) || last == (to, rep) {
            lemma_linked_last(links, rep, to);
        }
        if now.contains(to) && !before.contains(to) {
            let k = now.index_of(to);
            assert(k >= before.len() || before[k] == to);
            assert(last == (rep, to) || last == (to, rep));
        }
        if exists|l: int|
            0 <= l < links.len() && (#[trigger] links[l] == (rep, to) || links[l] == (to, rep)) {
            let l = choose|l: int|
                0 <= l < links.len() && (#[trigger] links[l] == (rep, to) || links[l] == (to, rep));
            if l < init.len() {
                assert(init[l] == links[l]);
            }
        }
    }
}

proof fn lemma_linked_last(links: Seq<(u64, u64)>, rep: u64, to: u64)
    requires
        links.len() > 0,
        links.last() == (rep, to) || links.last() == (to, rep),
    ensures
        graph::linked(links, rep).contains(to),
{
    let now = graph::linked(links, rep);
    let before = graph::linked(links.drop_last(), rep);
    assert(now.len() > before.len());
    if links.last() == (rep, to) {
        assert(now[before.len() as int] == to);
    } else {
        assert(now[now.len() - 1] == to);
    }
}

proof fn lemma_child(g: Graph, relationships: Seq<(u64, u64, u64)>, rep: u64, to: u64, step: Step)
    ensures
        graph::children(relationships, g.items, g.flipped, rep).contains((to, step)) <==> exists|
            i: int,
        |
            0 <= i < relationships.len() && graph::parent_of(#[trigger] relationships[i], g.flipped)
                == rep && graph::child_of(relationships[i], g.flipped) == to && step
                == graph::item_step(g.items, relationships[i].2, g.flipped),
    decreases relationships.len(),
{
    if relationships.len() > 0 {
        let init = relationships.drop_last();
        let last = relationships.last();
        lemma_child(g, init, rep, to, step);
        assert(relationships[relationships.len() - 1] == last);
        let before = graph::children(init, g.items, g.flipped, rep);
        let now = graph::children(relationships, g.items, g.flipped, rep);
        if before.contains((to, step)) {
            assert(now[before.index_of((to, step))] == (to, step));
            let i = choose|i: int|
                0 <= i < init.len() && graph::parent_of(#[trigger] init[i], g.flipped) == rep
                    && graph::child_of(init[i], g.flipped) == to && step == graph::item_step(
                    g.items,
                    init[i].2,
                    g.flipped,
                );
            assert(relationships[i] == init[i]);
        }
        if graph::parent_of(last, g.flipped) == rep && graph::child_of(last, g.flipped) == to && step
            == graph::item_step(g.items, last.2, g.flipped) {
            assert(now[now.len() - 1] == (to, step));
        }
        if now.contains((to, step)) && !before.contains((to, step)) {
            let k = now.index_of((to, step));
            assert(k >= before.len() || before[k] == (to, step));
        }
        if exists|i: int|
            0 <= i < relationships.len() && graph::parent_of(#[trigger] relationships[i], g.flipped)
                == rep && graph::child_of(relationships[i], g.flipped) == to && step
                == graph::item_step(g.items, relationships[i].2, g.flipped) {
            let i = choose|i: int|
                0 <= i < relationships.len() && graph::parent_of(
                    #[trigger] relationships[i],
                    g.flipped,
                ) == rep && graph::child_of(relationships[i], g.flipped) == to && step
                    == graph::item_step(g.items, relationships[i].2, g.flipped);
            if i < init.len() {
                assert(init[i] == relationships[i]);
            }
        }
    }
}

/// An edge of the walk is a hop, and its step that of the relationship.
proof fn lemma_edge_is_hop(g: Graph, rep: u64, edge: (u64, Option<Step>)) -> (hop: Hop)
    requires
        g.edges(rep).contains(edge),
    ensures
        is_hop(g, hop),
        hop.from == rep,
        hop.to == edge.0,
        edge.1 is Some <==> hop.via is Some,
        edge.1 is Some ==> is_step_of(g, edge.1->0, hop.via->0),
{
    let linked = graph::linked(g.links, rep);
    let kids = graph::children(g.relationships, g.items, g.flipped, rep);
    let k = g.edges(rep).index_of(edge);
    if k < linked.len() {
        assert(edge == (linked[k], None::<Step>));
        assert(linked.contains(edge.0));
        lemma_linked(g.links, rep, edge.0);
        Hop { from: rep, to: edge.0, via: None }
    } else {
        let kid = kids[k - linked.len()];
        assert(edge == (kid.0, Some(kid.1)));
        assert(kids.contains(kid));
        lemma_child(g, g.relationships, rep, kid.0, kid.1);
        let i = choose|i: int|
            0 <= i < g.relationships.len() && graph::parent_of(
                #[trigger] g.relationships[i],
                g.flipped,
            ) == rep && graph::child_of(g.relationships[i], g.flipped) == kid.0 && kid.1
                == graph::item_step(g.items, g.relationships[i].2, g.flipped);
        Hop { from: rep, to: edge.0, via: Some(i) }
    }
}

/// A hop is an edge of the walk.
proof fn lemma_hop_is_edge(g: Graph, hop: Hop) -> (step: Option<Step>)
    requires
        is_hop(g, hop),
    ensures
        g.edges(hop.from).contains((hop.to, step)),
{
    let linked = graph::linked(g.links, hop.from);
    let kids = graph::children(g.relationships, g.items, g.flipped, hop.from);
    match hop.via {
        None => {
            lemma_linked(g.links, hop.from, hop.to);
            let k = linked.index_of(hop.to);
            assert(g.edges(hop.from)[k] == (hop.to, None::<Step>));
            None
        },
        Some(i) => {
            let step = graph::item_step(g.items, g.relationships[i].2, g.flipped);
            assert(graph::parent_of(g.relationships[i], g.flipped) == hop.from);
            lemma_child(g, g.relationships, hop.from, hop.to, step);
            let k = kids.index_of((hop.to, step));
            assert(g.edges(hop.from)[linked.len() + k] == (hop.to, Some(step)));
            Some(step)
        },
    }
}

proof fn lemma_moves_of_fewer(hops: Seq<Hop>, more: Seq<Hop>, n: int)
    requires
        0 <= n <= hops.len() <= more.len(),
        forall|k: int| 0 <= k < hops.len() ==> hops[k] == more[k],
    ensures
        moves(hops, n) == moves(more, n),
        0 <= moves(hops, n) <= n,
    decreases n,
{
    if n > 0 {
        lemma_moves_of_fewer(hops, more, n - 1);
    }
}

proof fn lemma_way_is_chain(g: Graph, root: u64, way: Seq<(u64, Option<Step>)>) -> (hops: Seq<Hop>)
    requires
        g.is_way(root, way),
    ensures
        is_chain(g, hops, graph::way_end(root, way)),
        tells_moves(g, hops, graph::way_word(way)),
    decreases way.len(),
{
    if way.len() == 0 {
        lemma_top_is_root(g.relationships, g.flipped, root);
        Seq::empty()
    } else {
        let init = way.drop_last();
        let before = lemma_way_is_chain(g, root, init);
        let from = graph::way_end(root, init);
        let hop = lemma_edge_is_hop(g, from, way.last());
        let hops = before.push(hop);
        let n = before.len() as int;
        let word = graph::way_word(way);
        let shorter = graph::way_word(init);
        assert forall|k: int| 0 <= k < hops.len() implies is_hop(g, #[trigger] hops[k]) by {
            if k < n {
                assert(hops[k] == before[k]);
            }
        }
        assert forall|k: int| 0 < k < hops.len() implies hops[k - 1].to == (
        #[trigger] hops[k]).from by {
            if k < n {
                assert(hops[k] == before[k] && hops[k - 1] == before[k - 1]);
            } else {
                assert(hops[k - 1] == before[n - 1]);
            }
        }
        if n > 0 {
            assert(hops[0] == before[0]);
        }
        assert(hops[hops.len() - 1].to == graph::way_end(root, way));
        lemma_moves_of_fewer(before, hops, n);
        assert forall|k: int| 0 <= k < hops.len() && (#[trigger] hops[k]).via is Some implies 0
            <= moves(hops, k) < word.len() && is_step_of(
            g,
            word[moves(hops, k)],
            hops[k].via->0,
        ) by {
            lemma_moves_of_fewer(before, hops, if k < n { k } else { n });
            if k < n {
                assert(before[k] == hops[k]);
                assert(0 <= moves(before, k) < shorter.len());
                assert(word[moves(hops, k)] == shorter[moves(before, k)]);
            } else {
                assert(moves(hops, n) == shorter.len());
                assert(word.drop_last() =~= shorter);
                assert(word[word.len() - 1] == way.last().1->0);
            }
        }
        hops
    }
}

proof fn lemma_chain_is_way(g: Graph, hops: Seq<Hop>, rep: u64) -> (r: (
    u64,
    Seq<(u64, Option<Step>)>,
))
    requires
        is_chain(g, hops, rep),
    ensures
        g.is_way(r.0, r.1),
        graph::way_end(r.0, r.1) == rep,
    decreases hops.len(),
{
    if hops.len() == 0 {
        lemma_top_is_root(g.relationships, g.flipped, rep);
        (rep, Seq::empty())
    } else {
        let init = hops.drop_last();
        let last = hops[hops.len() - 1];
        assert(is_hop(g, last));
        assert forall|k: int| 0 <= k < init.len() implies is_hop(g, #[trigger] init[k]) by {
            assert(init[k] == hops[k]);
        }
        assert forall|k: int| 0 < k < init.len() implies init[k - 1].to == (
        #[trigger] init[k]).from by {
            assert(init[k] == hops[k] && init[k - 1] == hops[k - 1]);
        }
        if init.len() > 0 {
            assert(init[init.len() - 1] == hops[hops.len() - 2]);
            assert(init[0] == hops[0]);
        }
        let (root, way) = lemma_chain_is_way(g, init, last.from);
        let step = lemma_hop_is_edge(g, last);
        let longer = way.push((last.to, step));
        assert(longer.drop_last() =~= way);
        (root, longer)
    }
}

/// What the walk ends with: each representation has the steps on some chain to
/// it, in the order of the hops, and every representation at the end of a chain
/// has some.
pub open spec fn places_all(g: Graph, reached: Map<u64, Seq<Step>>) -> bool {
    &&& forall|rep: u64| #[trigger]
        reached.contains_key(rep) ==> is_placed(g, rep, reached[rep])
    &&& forall|hops: Seq<Hop>, rep: u64| #[trigger]
        is_chain(g, hops, rep) ==> reached.contains_key(rep)
}

/// The steps noted for a representation are those of the relationships on a
/// chain from the top to it: the one next to the top first, each further one
/// behind it. No representation on a chain is left out.
pub proof fn law_steps_follow_chains(g: Graph, reached: Map<u64, Seq<Step>>)
    requires
        g.ends_with(reached),
    ensures
        places_all(g, reached),
{
    let n = choose|n: nat|
        (#[trigger] g.walked(n)).todo.len() == 0 && g.walked(n).reached == reached;
    graph::law_walk_follows_ways(g, n);
    assert forall|rep: u64| #[trigger] reached.contains_key(rep) implies is_placed(
        g,
        rep,
        reached[rep],
    ) by {
        assert(g.walked(n).reached.contains_key(rep));
        assert(g.leads_to(rep, reached[rep]));
        let (root, way) = choose|root: u64, way: Seq<(u64, Option<Step>)>| #[trigger]
            g.is_way(root, way) && graph::way_end(root, way) == rep && graph::way_word(way)
                == reached[rep];
        let hops = lemma_way_is_chain(g, root, way);
        assert(is_chain(g, hops, rep));
    }
    assert forall|hops: Seq<Hop>, rep: u64| #[trigger] is_chain(g, hops, rep) implies
        reached.contains_key(rep) by {
        let (root, way) = lemma_chain_is_way(g, hops, rep);
        assert(g.leads_to(rep, graph::way_word(way)));
        graph::law_walk_reaches_all(g, n, rep);
    }
}

/// Along a chain of two relationships that is the only one to its end, the end
/// has the step of the first relationship and then that of the second, and what
/// stands between has the first alone.
pub proof fn law_child_step_comes_last(
    g: Graph,
    reached: Map<u64, Seq<Step>>,
    hops: Seq<Hop>,
    rep: u64,
)
    requires
        g.ends_with(reached),
        is_chain(g, hops, rep),
        hops.len() > 0,
        hops[hops.len() - 1].via is Some,
        forall|other: Seq<Hop>| #[trigger] is_chain(g, other, rep) ==> other == hops,
        forall|other: Seq<Hop>| #[trigger]
            is_chain(g, other, hops[hops.len() - 1].from) ==> other == hops.drop_last(),
    ensures
        reached.contains_key(rep),
        reached.contains_key(hops[hops.len() - 1].from),
        reached[rep].len() > 0,
        reached[rep].drop_last() == reached[hops[hops.len() - 1].from],
        is_step_of(g, reached[rep].last(), hops[hops.len() - 1].via->0),
{
    law_steps_follow_chains(g, reached);
    let last = hops[hops.len() - 1];
    let init = hops.drop_last();
    lemma_chain_shortened(g, hops, rep);
    assert(is_chain(g, init, last.from));
    let a = reached[rep];
    let b = reached[last.from];
    assert(is_placed(g, rep, a));
    assert(is_placed(g, last.from, b));
    assert(tells_moves(g, hops, a));
    assert(tells_moves(g, init, b));
    let n = init.len() as int;
    lemma_moves_of_fewer(init, hops, n);
    assert(moves(hops, n + 1) == moves(hops, n) + 1);
    assert(a.len() == b.len() + 1);
    assert(hops[n].via is Some);
    assert forall|j: int| 0 <= j < b.len() implies a[j] == b[j] by {
        let k = lemma_move_at(init, n, j);
        lemma_moves_of_fewer(init, hops, k);
        assert(hops[k] == init[k]);
        assert(is_step_of(g, a[moves(hops, k)], hops[k].via->0));
        assert(is_step_of(g, b[moves(init, k)], init[k].via->0));
    }
    assert(a.drop_last() =~= b);
}

proof fn lemma_chain_shortened(g: Graph, hops: Seq<Hop>, rep: u64)
    requires
        is_chain(g, hops, rep),
        hops.len() > 0,
    ensures
        is_chain(g, hops.drop_last(), hops[hops.len() - 1].from),
{
    let init = hops.drop_last();
    assert forall|k: int| 0 <= k < init.len() implies is_hop(g, #[trigger] init[k]) by {
        assert(init[k] == hops[k]);
    }
    assert forall|k: int| 0 < k < init.len() implies init[k - 1].to == (
    #[trigger] init[k]).from by {
        assert(init[k] == hops[k] && init[k - 1] == hops[k - 1]);
    }
    if init.len() > 0 {
        assert(hops[hops.len() - 1].from == hops[hops.len() - 2].to);
        assert(init[init.len() - 1] == hops[hops.len() - 2]);
        assert(init[0] == hops[0]);
    }
}

/// The hop that a step belongs to.
proof fn lemma_move_at(hops: Seq<Hop>, n: int, j: int) -> (k: int)
    requires
        0 <= n <= hops.len(),
        0 <= j < moves(hops, n),
    ensures
        0 <= k < n,
        hops[k].via is Some,
        moves(hops, k) == j,
    decreases n,
{
    if hops[n - 1].via is Some && moves(hops, n - 1) == j {
        n - 1
    } else {
        lemma_move_at(hops, n - 1, j)
    }
}

// A part that is used more than once.

/// All relationships place parts in the same representation, which is none of
/// the parts.
pub open spec fn is_star(g: Graph, top: u64) -> bool {
    &&& g.links.len() == 0
    &&& !g.flipped
    &&& g.relationships.len() > 0
    &&& forall|k: int|
        0 <= k < g.relationships.len() ==> (#[trigger] g.relationships[k]).1 == top
            && g.relationships[k].0 != top
}

spec fn step_at(g: Graph, k: int) -> Step {
    graph::item_step(g.items, g.relationships[k].2, false)
}

proof fn lemma_star_children(g: Graph, top: u64, n: int, rep: u64)
    requires
        is_star(g, top),
        0 <= n <= g.relationships.len(),
    ensures
        rep == top ==> graph::children(g.relationships.take(n), g.items, false, rep) == Seq::new(
            n as nat,
            |k: int| (g.relationships[k].0, step_at(g, k)),
        ),
        rep != top ==> graph::children(g.relationships.take(n), g.items, false, rep)
            == Seq::<(u64, Step)>::empty(),
    decreases n,
{
    let part = g.relationships.take(n);
    if n == 0 {
        assert(graph::children(part, g.items, false, rep) =~= Seq::<(u64, Step)>::empty());
        assert(Seq::new(0, |k: int| (g.relationships[k].0, step_at(g, k))) =~= Seq::<
            (u64, Step),
        >::empty());
    } else {
        lemma_star_children(g, top, n - 1, rep);
        assert(part.drop_last() =~= g.relationships.take(n - 1));
        assert(part.last() == g.relationships[n - 1]);
        if rep == top {
            assert(graph::children(part, g.items, false, rep) =~= Seq::new(
                n as nat,
                |k: int| (g.relationships[k].0, step_at(g, k)),
            ));
        }
    }
}

proof fn lemma_all_neighbours(
    todo: Seq<(u64, Seq<Step>)>,
    edges: Seq<(u64, Option<Step>)>,
    word: Seq<Step>,
)
    ensures
        graph::with_neighbours(todo, edges, Map::empty(), word) == todo + edges.map_values(
            |e: (u64, Option<Step>)| (e.0, graph::extended(word, e.1)),
        ),
    decreases edges.len(),
{
    let f = |e: (u64, Option<Step>)| (e.0, graph::extended(word, e.1));
    if edges.len() == 0 {
        assert(todo + edges.map_values(f) =~= todo);
    } else {
        lemma_all_neighbours(todo, edges.drop_last(), word);
        assert(todo + edges.map_values(f) =~= (todo + edges.drop_last().map_values(f)).push(
            f(edges.last()),
        ));
    }
}

spec fn uses(g: Graph) -> Seq<(u64, Seq<Step>)> {
    Seq::new(g.relationships.len(), |k: int| (g.relationships[k].0, seq![step_at(g, k)]))
}

proof fn lemma_star_edges(g: Graph, top: u64, rep: u64)
    requires
        is_star(g, top),
    ensures
        rep != top ==> g.edges(rep) == Seq::<(u64, Option<Step>)>::empty(),
        rep == top ==> g.edges(rep) == Seq::new(
            g.relationships.len(),
            |k: int| (g.relationships[k].0, Some(step_at(g, k))),
        ),
{
    let n = g.relationships.len() as int;
    lemma_star_children(g, top, n, rep);
    assert(g.relationships.take(n) =~= g.relationships);
    assert(graph::linked(g.links, rep) =~= Seq::<u64>::empty());
    if rep == top {
        assert(g.edges(rep) =~= Seq::new(
            g.relationships.len(),
            |k: int| (g.relationships[k].0, Some(step_at(g, k))),
        ));
    } else {
        assert(g.edges(rep) =~= Seq::<(u64, Option<Step>)>::empty());
    }
}

proof fn lemma_star_start(g: Graph, top: u64)
    requires
        is_star(g, top),
    ensures
        g.walked(1).todo == uses(g),
{
    let roots = g.roots();
    graph::law_roots_are_parents_only(g.relationships, g.flipped);
    lemma_top_is_root(g.relationships, g.flipped, top);
    assert(g.relationships[0].1 == top);
    assert(is_top(g.relationships, g.flipped, top));
    assert(roots.contains(top));
    assert forall|i: int| 0 <= i < roots.len() implies roots[i] == top by {
        assert(roots.contains(roots[i]));
        lemma_top_is_root(g.relationships, g.flipped, roots[i]);
    }
    let at = roots.index_of(top);
    assert(roots.len() == 1) by {
        if roots.len() > 1 {
            assert(roots[0] == roots[1]);
        }
    }
    let start = g.start();
    assert(g.walked(0) == start);
    assert(start.todo.len() == 1 && start.todo[0] == (top, Seq::<Step>::empty()));
    assert(start.todo.last() == (top, Seq::<Step>::empty()));
    assert(start.todo.drop_last() =~= Seq::<(u64, Seq<Step>)>::empty());
    lemma_star_edges(g, top, top);
    lemma_all_neighbours(start.todo.drop_last(), g.edges(top), Seq::empty());
    assert(g.walked(1) == g.advance(g.walked(0)));
    assert forall|k: int| 0 <= k < g.relationships.len() implies graph::extended(
        Seq::<Step>::empty(),
        Some(step_at(g, k)),
    ) == #[trigger] uses(g)[k].1 by {
        assert(Seq::<Step>::empty().push(step_at(g, k)) =~= seq![step_at(g, k)]);
    }
    assert(g.walked(1).todo =~= uses(g));
}

proof fn lemma_star_walk(g: Graph, top: u64, k: int)
    requires
        is_star(g, top),
        0 <= k <= g.relationships.len(),
    ensures
        ({
            let n = g.relationships.len() as int;
            let walk = g.walked((1 + k) as nat);
            &&& walk.todo == uses(g).take(n - k)
            &&& forall|j: int|
                n - k <= j < n && (forall|m: int|
                    n - k <= m < j ==> (#[trigger] g.relationships[m]).0 != g.relationships[j].0)
                    ==> walk.reached.contains_key((#[trigger] g.relationships[j]).0)
                    && walk.reached[g.relationships[j].0] == seq![step_at(g, j)]
        }),
    decreases k,
{
    let n = g.relationships.len() as int;
    if k == 0 {
        lemma_star_start(g, top);
        assert(uses(g).take(n) =~= uses(g));
    } else {
        lemma_star_walk(g, top, k - 1);
        let before = g.walked(k as nat);
        let walk = g.walked((1 + k) as nat);
        assert(walk == g.advance(before));
        let last = n - k;
        assert(before.todo.len() == last + 1);
        assert(before.todo.last() == uses(g)[last]);
        assert(g.relationships[last].0 != top);
        lemma_star_edges(g, top, g.relationships[last].0);
        assert(before.todo.drop_last() =~= uses(g).take(last));
        assert(walk.todo == before.todo.drop_last());
        assert(walk.reached == before.reached.insert(
            g.relationships[last].0,
            seq![step_at(g, last)],
        ));
        assert forall|j: int|
            n - k <= j < n && (forall|m: int|
                n - k <= m < j ==> (#[trigger] g.relationships[m]).0
                    != g.relationships[j].0) implies walk.reached.contains_key(
            (#[trigger] g.relationships[j]).0,
        ) && walk.reached[g.relationships[j].0] == seq![step_at(g, j)] by {
            if j > last {
                assert(g.relationships[last].0 != g.relationships[j].0);
            }
        }
    }
}

/// Where one representation holds all parts, a part that it holds more than once
/// is placed by the first of the relationships that place it.
pub proof fn law_first_use_of_part_counts(
    g: Graph,
    top: u64,
    reached: Map<u64, Seq<Step>>,
    i: int,
)
    requires
        is_star(g, top),
        g.ends_with(reached),
        0 <= i < g.relationships.len(),
        forall|m: int|
            0 <= m < i ==> (#[trigger] g.relationships[m]).0 != g.relationships[i].0,
    ensures
        reached.contains_key(g.relationships[i].0),
        reached[g.relationships[i].0].len() == 1,
        !reached[g.relationships[i].0][0].inverted,
        reached[g.relationships[i].0][0].placements == g.items.get(g.relationships[i].2),
{
    let n = g.relationships.len() as int;
    lemma_star_walk(g, top, n);
    let walk = g.walked((1 + n) as nat);
    assert(walk.todo.len() == 0);
    assert(g.ends_with(walk.reached));
    graph::law_walk_ends_once(g, reached, walk.reached);
    assert(walk.reached[g.relationships[i].0] == seq![step_at(g, i)]);
}

} // verus!
