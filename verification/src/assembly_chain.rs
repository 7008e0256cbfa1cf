//! The placement of shells, told on the entities of a file and on the chains
//! between them.

use vstd::prelude::*;

use crate::assembly;
use crate::assembly::{AssemblyFact, AssemblyTables};
use crate::graph::Step;
use crate::style_chain;
use crate::text;
use crate::written;
use crate::written::RealText;

verus! {

// Entities as they are written.

/// A placement refers to its location, its axis and its reference direction, in
/// this order.
pub proof fn law_placements_are_read(name: Seq<char>, ids: Seq<u64>, after: Seq<char>)
    requires
        text::lacks(name, '#'),
        text::lacks(after, '#'),
        written::starts_no_digit(after),
    ensures
        ids.len() >= 3 ==> assembly::assembly_fact("AXIS2_PLACEMENT_3D("@ + (name + written::reference_list(ids) + after)) == AssemblyFact::Placement(ids[0], ids[1], ids[2]),
{
    let rest = (name + written::reference_list(ids) + after);
    reveal_strlit("AXIS2_PLACEMENT_3D(");
    reveal_strlit("AXIS2_PLACEMENT_3D");
    reveal_strlit("CARTESIAN_POINT");
    written::lemma_other_keyword("AXIS2_PLACEMENT_3D("@, "CARTESIAN_POINT"@, rest, 0);
    reveal_strlit("DIRECTION");
    written::lemma_other_keyword("AXIS2_PLACEMENT_3D("@, "DIRECTION"@, rest, 0);
    assert(("AXIS2_PLACEMENT_3D("@ + rest).take("AXIS2_PLACEMENT_3D"@.len() as int) =~= "AXIS2_PLACEMENT_3D"@);
    written::lemma_keyword_lacks("AXIS2_PLACEMENT_3D("@, name);
    written::law_reference_lists_are_read("AXIS2_PLACEMENT_3D("@ + name, ids, after);
    written::law_no_reference_without_sign(after);
    assert("AXIS2_PLACEMENT_3D("@ + rest =~= "AXIS2_PLACEMENT_3D("@ + name + written::reference_list(ids) + after);
    assert(ids + Seq::<u64>::empty() =~= ids);
}

/// An item transformation leads from its first placement to its second.
pub proof fn law_item_transformations_are_read(name: Seq<char>, ids: Seq<u64>, after: Seq<char>)
    requires
        text::lacks(name, '#'),
        text::lacks(after, '#'),
        written::starts_no_digit(after),
    ensures
        ids.len() >= 2 ==> assembly::assembly_fact("ITEM_DEFINED_TRANSFORMATION("@ + (name + written::reference_list(ids) + after)) == AssemblyFact::ItemTransform(ids[0], ids[1]),
{
    let rest = (name + written::reference_list(ids) + after);
    reveal_strlit("ITEM_DEFINED_TRANSFORMATION(");
    reveal_strlit("ITEM_DEFINED_TRANSFORMATION");
    reveal_strlit("CARTESIAN_POINT");
    written::lemma_other_keyword("ITEM_DEFINED_TRANSFORMATION("@, "CARTESIAN_POINT"@, rest, 0);
    reveal_strlit("DIRECTION");
    written::lemma_other_keyword("ITEM_DEFINED_TRANSFORMATION("@, "DIRECTION"@, rest, 0);
    reveal_strlit("AXIS2_PLACEMENT_3D");
    written::lemma_other_keyword("ITEM_DEFINED_TRANSFORMATION("@, "AXIS2_PLACEMENT_3D"@, rest, 0);
    assert(("ITEM_DEFINED_TRANSFORMATION("@ + rest).take("ITEM_DEFINED_TRANSFORMATION"@.len() as int) =~= "ITEM_DEFINED_TRANSFORMATION"@);
    written::lemma_keyword_lacks("ITEM_DEFINED_TRANSFORMATION("@, name);
    written::law_reference_lists_are_read("ITEM_DEFINED_TRANSFORMATION("@ + name, ids, after);
    written::law_no_reference_without_sign(after);
    assert("ITEM_DEFINED_TRANSFORMATION("@ + rest =~= "ITEM_DEFINED_TRANSFORMATION("@ + name + written::reference_list(ids) + after);
    assert(ids + Seq::<u64>::empty() =~= ids);
}

/// A shape representation lists what it holds.
pub proof fn law_shapes_are_read(name: Seq<char>, ids: Seq<u64>, after: Seq<char>)
    requires
        text::lacks(name, '#'),
        text::lacks(after, '#'),
        written::starts_no_digit(after),
        !text::occurs_in(
            "REPRESENTATION_RELATIONSHIP_WITH_TRANSFORMATION"@,
            "ADVANCED_BREP_SHAPE_REPRESENTATION("@ + (name + written::reference_list(ids) + after),
        ),
    ensures
        assembly::assembly_fact("ADVANCED_BREP_SHAPE_REPRESENTATION("@ + (name + written::reference_list(ids) + after)) == AssemblyFact::ShapeItems(ids),
{
    let rest = (name + written::reference_list(ids) + after);
    reveal_strlit("ADVANCED_BREP_SHAPE_REPRESENTATION(");
    reveal_strlit("ADVANCED_BREP_SHAPE_REPRESENTATION");
    reveal_strlit("CARTESIAN_POINT");
    written::lemma_other_keyword("ADVANCED_BREP_SHAPE_REPRESENTATION("@, "CARTESIAN_POINT"@, rest, 0);
    reveal_strlit("DIRECTION");
    written::lemma_other_keyword("ADVANCED_BREP_SHAPE_REPRESENTATION("@, "DIRECTION"@, rest, 0);
    reveal_strlit("AXIS2_PLACEMENT_3D");
    written::lemma_other_keyword("ADVANCED_BREP_SHAPE_REPRESENTATION("@, "AXIS2_PLACEMENT_3D"@, rest, 1);
    reveal_strlit("ITEM_DEFINED_TRANSFORMATION");
    written::lemma_other_keyword("ADVANCED_BREP_SHAPE_REPRESENTATION("@, "ITEM_DEFINED_TRANSFORMATION"@, rest, 0);
    assert(("ADVANCED_BREP_SHAPE_REPRESENTATION("@ + rest).take("ADVANCED_BREP_SHAPE_REPRESENTATION"@.len() as int) =~= "ADVANCED_BREP_SHAPE_REPRESENTATION"@);
    written::lemma_keyword_lacks("ADVANCED_BREP_SHAPE_REPRESENTATION("@, name);
    written::law_reference_lists_are_read("ADVANCED_BREP_SHAPE_REPRESENTATION("@ + name, ids, after);
    written::law_no_reference_without_sign(after);
    assert("ADVANCED_BREP_SHAPE_REPRESENTATION("@ + rest =~= "ADVANCED_BREP_SHAPE_REPRESENTATION("@ + name + written::reference_list(ids) + after);
    assert(ids + Seq::<u64>::empty() =~= ids);
}

/// A solid has its first reference as its shell.
pub proof fn law_solids_of_assembly_are_read(name: Seq<char>, ids: Seq<u64>, after: Seq<char>)
    requires
        text::lacks(name, '#'),
        text::lacks(after, '#'),
        written::starts_no_digit(after),
        !text::occurs_in(
            "REPRESENTATION_RELATIONSHIP_WITH_TRANSFORMATION"@,
            "MANIFOLD_SOLID_BREP("@ + (name + written::reference_list(ids) + after),
        ),
    ensures
        ids.len() > 0 ==> assembly::assembly_fact("MANIFOLD_SOLID_BREP("@ + (name + written::reference_list(ids) + after)) == AssemblyFact::Manifold(ids[0]),
{
    let rest = (name + written::reference_list(ids) + after);
    reveal_strlit("MANIFOLD_SOLID_BREP(");
    reveal_strlit("MANIFOLD_SOLID_BREP");
    reveal_strlit("CARTESIAN_POINT");
    written::lemma_other_keyword("MANIFOLD_SOLID_BREP("@, "CARTESIAN_POINT"@, rest, 0);
    reveal_strlit("DIRECTION");
    written::lemma_other_keyword("MANIFOLD_SOLID_BREP("@, "DIRECTION"@, rest, 0);
    reveal_strlit("AXIS2_PLACEMENT_3D");
    written::lemma_other_keyword("MANIFOLD_SOLID_BREP("@, "AXIS2_PLACEMENT_3D"@, rest, 0);
    reveal_strlit("ITEM_DEFINED_TRANSFORMATION");
    written::lemma_other_keyword("MANIFOLD_SOLID_BREP("@, "ITEM_DEFINED_TRANSFORMATION"@, rest, 0);
    reveal_strlit("ADVANCED_BREP_SHAPE_REPRESENTATION");
    written::lemma_other_keyword("MANIFOLD_SOLID_BREP("@, "ADVANCED_BREP_SHAPE_REPRESENTATION"@, rest, 0);
    assert(("MANIFOLD_SOLID_BREP("@ + rest).take("MANIFOLD_SOLID_BREP"@.len() as int) =~= "MANIFOLD_SOLID_BREP"@);
    written::lemma_keyword_lacks("MANIFOLD_SOLID_BREP("@, name);
    written::law_reference_lists_are_read("MANIFOLD_SOLID_BREP("@ + name, ids, after);
    written::law_no_reference_without_sign(after);
    assert("MANIFOLD_SOLID_BREP("@ + rest =~= "MANIFOLD_SOLID_BREP("@ + name + written::reference_list(ids) + after);
    assert(ids + Seq::<u64>::empty() =~= ids);
}

/// A relationship without a transformation links two representations.
pub proof fn law_links_are_read(name: Seq<char>, ids: Seq<u64>, after: Seq<char>)
    requires
        text::lacks(name, '#'),
        text::lacks(after, '#'),
        written::starts_no_digit(after),
        !text::occurs_in(
            "REPRESENTATION_RELATIONSHIP_WITH_TRANSFORMATION"@,
            "SHAPE_REPRESENTATION_RELATIONSHIP("@ + (name + written::reference_list(ids) + after),
        ),
    ensures
        ids.len() >= 2 ==> assembly::assembly_fact("SHAPE_REPRESENTATION_RELATIONSHIP("@ + (name + written::reference_list(ids) + after)) == AssemblyFact::Link(ids[0], ids[1]),
{
    let rest = (name + written::reference_list(ids) + after);
    reveal_strlit("SHAPE_REPRESENTATION_RELATIONSHIP(");
    reveal_strlit("SHAPE_REPRESENTATION_RELATIONSHIP");
    reveal_strlit("CARTESIAN_POINT");
    written::lemma_other_keyword("SHAPE_REPRESENTATION_RELATIONSHIP("@, "CARTESIAN_POINT"@, rest, 0);
    reveal_strlit("DIRECTION");
    written::lemma_other_keyword("SHAPE_REPRESENTATION_RELATIONSHIP("@, "DIRECTION"@, rest, 0);
    reveal_strlit("AXIS2_PLACEMENT_3D");
    written::lemma_other_keyword("SHAPE_REPRESENTATION_RELATIONSHIP("@, "AXIS2_PLACEMENT_3D"@, rest, 0);
    reveal_strlit("ITEM_DEFINED_TRANSFORMATION");
    written::lemma_other_keyword("SHAPE_REPRESENTATION_RELATIONSHIP("@, "ITEM_DEFINED_TRANSFORMATION"@, rest, 0);
    reveal_strlit("ADVANCED_BREP_SHAPE_REPRESENTATION");
    written::lemma_other_keyword("SHAPE_REPRESENTATION_RELATIONSHIP("@, "ADVANCED_BREP_SHAPE_REPRESENTATION"@, rest, 0);
    reveal_strlit("MANIFOLD_SOLID_BREP");
    written::lemma_other_keyword("SHAPE_REPRESENTATION_RELATIONSHIP("@, "MANIFOLD_SOLID_BREP"@, rest, 0);
    assert(("SHAPE_REPRESENTATION_RELATIONSHIP("@ + rest).take("SHAPE_REPRESENTATION_RELATIONSHIP"@.len() as int) =~= "SHAPE_REPRESENTATION_RELATIONSHIP"@);
    written::lemma_keyword_lacks("SHAPE_REPRESENTATION_RELATIONSHIP("@, name);
    written::law_reference_lists_are_read("SHAPE_REPRESENTATION_RELATIONSHIP("@ + name, ids, after);
    written::law_no_reference_without_sign(after);
    assert("SHAPE_REPRESENTATION_RELATIONSHIP("@ + rest =~= "SHAPE_REPRESENTATION_RELATIONSHIP("@ + name + written::reference_list(ids) + after);
    assert(ids + Seq::<u64>::empty() =~= ids);
}

/// A relationship with a transformation places its first representation in the
/// second by the third.
pub proof fn law_relationships_are_read(before: Seq<char>, ids: Seq<u64>, after: Seq<char>)
    requires
        text::lacks(before, '#'),
        text::lacks(after, '#'),
        written::starts_no_digit(after),
        before.len() > 0,
        before[0] == '(',
        ids.len() >= 3,
        text::occurs_in(
            "REPRESENTATION_RELATIONSHIP_WITH_TRANSFORMATION"@,
            before + written::reference_list(ids) + after,
        ),
    ensures
        assembly::assembly_fact(before + written::reference_list(ids) + after)
            == AssemblyFact::Relationship(ids[0], ids[1], ids[2]),
{
    let s = before + written::reference_list(ids) + after;
    assert(s[0] == '(');
    reveal_strlit("CARTESIAN_POINT");
    lemma_other_start(s, "CARTESIAN_POINT"@);
    reveal_strlit("DIRECTION");
    lemma_other_start(s, "DIRECTION"@);
    reveal_strlit("AXIS2_PLACEMENT_3D");
    lemma_other_start(s, "AXIS2_PLACEMENT_3D"@);
    reveal_strlit("ITEM_DEFINED_TRANSFORMATION");
    lemma_other_start(s, "ITEM_DEFINED_TRANSFORMATION"@);
    written::law_reference_lists_are_read(before, ids, after);
    written::law_no_reference_without_sign(after);
    assert(ids + Seq::<u64>::empty() =~= ids);
}

proof fn lemma_other_start(s: Seq<char>, keyword: Seq<char>)
    requires
        s.len() > 0,
        keyword.len() > 0,
        s[0] != keyword[0],
    ensures
        !keyword.is_prefix_of(s),
{
    if keyword.is_prefix_of(s) {
        assert(keyword[0] == s.take(keyword.len() as int)[0]);
    }
}

/// A point has its three coordinates, in their order.
pub proof fn law_points_of_assembly_are_read(
    name: Seq<char>,
    gap: Seq<char>,
    x: RealText,
    y: RealText,
    z: RealText,
    after: Seq<char>,
)
    requires
        text::lacks(name, ','),
        text::lacks(gap, '('),
        x.valid(),
        y.valid(),
        z.valid(),
    ensures
        assembly::assembly_fact(
            "CARTESIAN_POINT("@ + (name + seq![','] + gap + seq!['('] + written::three_reals(x, y, z)
                + seq![')'] + after),
        ) == AssemblyFact::Point((x.filled(), y.filled(), z.filled())),
{
    let rest = name + seq![','] + gap + seq!['('] + written::three_reals(x, y, z) + seq![')']
        + after;
    reveal_strlit("CARTESIAN_POINT(");
    reveal_strlit("CARTESIAN_POINT");
    assert(("CARTESIAN_POINT("@ + rest).take("CARTESIAN_POINT"@.len() as int) =~= "CARTESIAN_POINT"@);
    written::lemma_joined_lacks("CARTESIAN_POINT("@, name, ',');
    written::law_points_are_read("CARTESIAN_POINT("@ + name, gap, x, y, z, after);
    assert("CARTESIAN_POINT("@ + rest =~= "CARTESIAN_POINT("@ + name + seq![','] + gap + seq!['('] + written::three_reals(
        x,
        y,
        z,
    ) + seq![')'] + after);
}

/// A direction has its three coordinates, in their order.
pub proof fn law_directions_of_assembly_are_read(
    name: Seq<char>,
    gap: Seq<char>,
    x: RealText,
    y: RealText,
    z: RealText,
    after: Seq<char>,
)
    requires
        text::lacks(name, ','),
        text::lacks(gap, '('),
        x.valid(),
        y.valid(),
        z.valid(),
    ensures
        assembly::assembly_fact(
            "DIRECTION("@ + (name + seq![','] + gap + seq!['('] + written::three_reals(x, y, z)
                + seq![')'] + after),
        ) == AssemblyFact::Direction((x.filled(), y.filled(), z.filled())),
{
    let rest = name + seq![','] + gap + seq!['('] + written::three_reals(x, y, z) + seq![')']
        + after;
    reveal_strlit("DIRECTION(");
    reveal_strlit("DIRECTION");
    reveal_strlit("CARTESIAN_POINT");
    written::lemma_other_keyword("DIRECTION("@, "CARTESIAN_POINT"@, rest, 0);
    assert(("DIRECTION("@ + rest).take("DIRECTION"@.len() as int) =~= "DIRECTION"@);
    written::lemma_joined_lacks("DIRECTION("@, name, ',');
    written::law_points_are_read("DIRECTION("@ + name, gap, x, y, z, after);
    assert("DIRECTION("@ + rest =~= "DIRECTION("@ + name + seq![','] + gap + seq!['('] + written::three_reals(
        x,
        y,
        z,
    ) + seq![')'] + after);
}

// Tables and shells.

/// What an entity says of the assembly stands in the tables: under its number,
/// or among the relationships and links.
pub open spec fn holds_fact(t: AssemblyTables, id: u64, fact: AssemblyFact) -> bool {
    match fact {
        AssemblyFact::Point(c) => t.points.contains_key(id) && t.points[id] == c,
        AssemblyFact::Direction(c) => t.directions.contains_key(id) && t.directions[id] == c,
        AssemblyFact::Placement(a, b, c) => t.placements.contains_key(id) && t.placements[id] == (
            a,
            b,
            c,
        ),
        AssemblyFact::ItemTransform(a, b) => t.item_transforms.contains_key(id)
            && t.item_transforms[id] == (a, b),
        AssemblyFact::Relationship(a, b, c) => t.relationships.contains((a, b, c)),
        AssemblyFact::ShapeItems(v) => t.shape_items.contains_key(id) && t.shape_items[id] == v
            && t.shape_order.contains(id),
        AssemblyFact::Manifold(shell) => t.manifolds.contains_key(id) && t.manifolds[id] == shell
            && t.manifold_order.contains(id),
        AssemblyFact::Link(a, b) => t.links.contains((a, b)),
        AssemblyFact::Unrelated => true,
    }
}

/// Where the numbers of the entities differ, the tables hold what each of them
/// says.
pub proof fn law_tables_hold_all_placements(entities: Seq<(u64, Seq<char>)>, i: int)
    requires
        style_chain::numbers_differ(entities),
        0 <= i < entities.len(),
    ensures
        holds_fact(
            assembly::assembly_tables(entities),
            entities[i].0,
            assembly::assembly_fact(entities[i].1),
        ),
    decreases entities.len(),
{
    let init = entities.drop_last();
    let before = assembly::assembly_tables(init);
    let last = entities.last();
    let now = assembly::assembly_tables(entities);
    if i < init.len() {
        assert forall|a: int, b: int| 0 <= a < b < init.len() implies (#[trigger] init[a]).0 != (
        #[trigger] init[b]).0 by {
            assert(entities[a].0 != entities[b].0);
        }
        law_tables_hold_all_placements(init, i);
        assert(entities[i].0 != entities[entities.len() - 1].0);
        match assembly::assembly_fact(entities[i].1) {
            AssemblyFact::Relationship(a, b, c) => {
                assert(now.relationships[before.relationships.index_of((a, b, c))] == (a, b, c));
            },
            AssemblyFact::Link(a, b) => {
                assert(now.links[before.links.index_of((a, b))] == (a, b));
            },
            AssemblyFact::ShapeItems(_) => {
                let id = entities[i].0;
                assert(now.shape_order[before.shape_order.index_of(id)] == id);
            },
            AssemblyFact::Manifold(_) => {
                let id = entities[i].0;
                assert(now.manifold_order[before.manifold_order.index_of(id)] == id);
            },
            _ => {},
        }
    } else {
        match assembly::assembly_fact(last.1) {
            AssemblyFact::Relationship(a, b, c) => {
                assert(now.relationships[now.relationships.len() - 1] == (a, b, c));
            },
            AssemblyFact::Link(a, b) => {
                assert(now.links[now.links.len() - 1] == (a, b));
            },
            AssemblyFact::ShapeItems(_) => {
                assert(now.shape_order[now.shape_order.len() - 1] == last.0);
            },
            AssemblyFact::Manifold(_) => {
                assert(now.manifold_order[now.manifold_order.len() - 1] == last.0);
            },
            _ => {},
        }
    }
}

/// Some entity with the number says it.
pub open spec fn is_said(
    entities: Seq<(u64, Seq<char>)>,
    id: u64,
    fact: AssemblyFact,
) -> bool {
    exists|i: int|
        0 <= i < entities.len() && (#[trigger] entities[i]).0 == id && assembly::assembly_fact(
            entities[i].1,
        ) == fact
}

/// Some entity gives the relationship.
pub open spec fn is_related(entities: Seq<(u64, Seq<char>)>, r: (u64, u64, u64)) -> bool {
    exists|i: int|
        0 <= i < entities.len() && assembly::assembly_fact((#[trigger] entities[i]).1)
            == AssemblyFact::Relationship(r.0, r.1, r.2)
}

/// Some entity gives the link.
pub open spec fn is_linked(entities: Seq<(u64, Seq<char>)>, l: (u64, u64)) -> bool {
    exists|i: int|
        0 <= i < entities.len() && assembly::assembly_fact((#[trigger] entities[i]).1)
            == AssemblyFact::Link(l.0, l.1)
}

/// The tables hold nothing but what the entities say.
pub open spec fn holds_only_facts(t: AssemblyTables, entities: Seq<(u64, Seq<char>)>) -> bool {
    &&& forall|id: u64| #[trigger]
        t.points.contains_key(id) ==> is_said(entities, id, AssemblyFact::Point(t.points[id]))
    &&& forall|id: u64| #[trigger]
        t.directions.contains_key(id) ==> is_said(
            entities,
            id,
            AssemblyFact::Direction(t.directions[id]),
        )
    &&& forall|id: u64| #[trigger]
        t.placements.contains_key(id) ==> is_said(
            entities,
            id,
            AssemblyFact::Placement(t.placements[id].0, t.placements[id].1, t.placements[id].2),
        )
    &&& forall|id: u64| #[trigger]
        t.item_transforms.contains_key(id) ==> is_said(
            entities,
            id,
            AssemblyFact::ItemTransform(t.item_transforms[id].0, t.item_transforms[id].1),
        )
    &&& forall|id: u64| #[trigger]
        t.shape_items.contains_key(id) ==> is_said(
            entities,
            id,
            AssemblyFact::ShapeItems(t.shape_items[id]),
        )
    &&& forall|id: u64| #[trigger]
        t.manifolds.contains_key(id) ==> is_said(
            entities,
            id,
            AssemblyFact::Manifold(t.manifolds[id]),
        )
    &&& forall|k: int|
        0 <= k < t.relationships.len() ==> is_related(entities, #[trigger] t.relationships[k])
    &&& forall|k: int| 0 <= k < t.links.len() ==> is_linked(entities, #[trigger] t.links[k])
}

proof fn lemma_still_said(entities: Seq<(u64, Seq<char>)>, id: u64, fact: AssemblyFact)
    requires
        entities.len() > 0,
        is_said(entities.drop_last(), id, fact),
    ensures
        is_said(entities, id, fact),
{
    let init = entities.drop_last();
    let i = choose|i: int|
        0 <= i < init.len() && (#[trigger] init[i]).0 == id && assembly::assembly_fact(init[i].1)
            == fact;
    assert(entities[i] == init[i]);
}

/// Nothing gets into the tables that no entity says.
pub proof fn law_tables_hold_only_placements(entities: Seq<(u64, Seq<char>)>)
    ensures
        holds_only_facts(assembly::assembly_tables(entities), entities),
    decreases entities.len(),
{
    if entities.len() > 0 {
        let init = entities.drop_last();
        let last = entities.last();
        law_tables_hold_only_placements(init);
        let before = assembly::assembly_tables(init);
        let now = assembly::assembly_tables(entities);
        let fact = assembly::assembly_fact(last.1);
        assert(entities[entities.len() - 1] == last);
        assert(is_said(entities, last.0, fact));
        assert forall|id: u64, f: AssemblyFact| #[trigger] is_said(init, id, f) implies is_said(
            entities,
            id,
            f,
        ) by {
            lemma_still_said(entities, id, f);
        }
        assert forall|k: int| 0 <= k < now.relationships.len() implies is_related(
            entities,
            #[trigger] now.relationships[k],
        ) by {
            if k < before.relationships.len() {
                let r = before.relationships[k];
                assert(is_related(init, r));
                let i = choose|i: int|
                    0 <= i < init.len() && assembly::assembly_fact((#[trigger] init[i]).1)
                        == AssemblyFact::Relationship(r.0, r.1, r.2);
                assert(entities[i] == init[i]);
            }
        }
        assert forall|k: int| 0 <= k < now.links.len() implies is_linked(
            entities,
            #[trigger] now.links[k],
        ) by {
            if k < before.links.len() {
                let l = before.links[k];
                assert(is_linked(init, l));
                let i = choose|i: int|
                    0 <= i < init.len() && assembly::assembly_fact((#[trigger] init[i]).1)
                        == AssemblyFact::Link(l.0, l.1);
                assert(entities[i] == init[i]);
            }
        }
    }
}

/// A placement has the location, the axis and the reference direction that it
/// refers to, each from its own table.
pub proof fn law_placement_parts(t: AssemblyTables, id: u64)
    ensures
        t.placement(id) is Some <==> t.placements.contains_key(id),
        t.placements.contains_key(id) ==> {
            let (location, axis, direction) = t.placements[id];
            let p = t.placement(id)->0;
            &&& p.location is Some <==> t.points.contains_key(location)
            &&& t.points.contains_key(location) ==> p.location == Some(t.points[location])
            &&& p.axis is Some <==> t.directions.contains_key(axis)
            &&& t.directions.contains_key(axis) ==> p.axis == Some(t.directions[axis])
            &&& p.ref_direction is Some <==> t.directions.contains_key(direction)
            &&& t.directions.contains_key(direction) ==> p.ref_direction == Some(
                t.directions[direction],
            )
        },
{
}

/// The representation is the last that lists the solid.
pub open spec fn is_last_with(t: AssemblyTables, m: u64, shape: u64) -> bool {
    exists|k: int|
        0 <= k < t.shape_order.len() && #[trigger] t.shape_order[k] == shape
            && t.shape_items[shape].contains(m) && forall|j: int|
            k < j < t.shape_order.len() ==> !t.shape_items[#[trigger] t.shape_order[j]].contains(m)
}

proof fn lemma_owner(t: AssemblyTables, order: Seq<u64>, m: u64, shape: u64)
    ensures
        t.owner(order, m) == Some(shape) <==> exists|k: int|
            0 <= k < order.len() && #[trigger] order[k] == shape && t.shape_items[shape].contains(m)
                && forall|j: int|
                k < j < order.len() ==> !t.shape_items[#[trigger] order[j]].contains(m),
    decreases order.len(),
{
    if order.len() > 0 {
        let init = order.drop_last();
        let last = order.len() - 1;
        lemma_owner(t, init, m, shape);
        if t.shape_items[order.last()].contains(m) {
            if order.last() == shape {
                assert(order[last] == shape);
            }
            if exists|k: int|
                0 <= k < order.len() && #[trigger] order[k] == shape
                    && t.shape_items[shape].contains(m) && forall|j: int|
                    k < j < order.len() ==> !t.shape_items[#[trigger] order[j]].contains(m) {
                let k = choose|k: int|
                    0 <= k < order.len() && #[trigger] order[k] == shape
                        && t.shape_items[shape].contains(m) && forall|j: int|
                        k < j < order.len() ==> !t.shape_items[#[trigger] order[j]].contains(m);
                if k < last {
                    assert(!t.shape_items[order[last]].contains(m));
                }
            }
        } else {
            if t.owner(init, m) == Some(shape) {
                let k = choose|k: int|
                    0 <= k < init.len() && #[trigger] init[k] == shape
                        && t.shape_items[shape].contains(m) && forall|j: int|
                        k < j < init.len() ==> !t.shape_items[#[trigger] init[j]].contains(m);
                assert(order[k] == shape);
                assert forall|j: int| k < j < order.len() implies !t.shape_items[
                    #[trigger] order[j]
                ].contains(m) by {
                    if j < last {
                        assert(init[j] == order[j]);
                    }
                }
            }
            if exists|k: int|
                0 <= k < order.len() && #[trigger] order[k] == shape
                    && t.shape_items[shape].contains(m) && forall|j: int|
                    k < j < order.len() ==> !t.shape_items[#[trigger] order[j]].contains(m) {
                let k = choose|k: int|
                    0 <= k < order.len() && #[trigger] order[k] == shape
                        && t.shape_items[shape].contains(m) && forall|j: int|
                        k < j < order.len() ==> !t.shape_items[#[trigger] order[j]].contains(m);
                assert(init[k] == shape);
                assert forall|j: int| k < j < init.len() implies !t.shape_items[
                    #[trigger] init[j]
                ].contains(m) by {
                    assert(init[j] == order[j]);
                }
            }
        }
    }
}

/// The solid at a place of the file gets these steps: they are noted for the
/// last representation that lists it.
pub open spec fn is_placed_by(
    t: AssemblyTables,
    reached: Map<u64, Seq<Step>>,
    i: int,
    word: Seq<Step>,
) -> bool {
    exists|shape: u64| #[trigger]
        is_last_with(t, t.manifold_order[i], shape) && reached.contains_key(shape)
            && reached[shape] == word
}

pub open spec fn stays_unplaced(
    t: AssemblyTables,
    reached: Map<u64, Seq<Step>>,
    i: int,
) -> bool {
    forall|word: Seq<Step>| !#[trigger] is_placed_by(t, reached, i, word)
}

/// The shell has these steps from the last solid with that shell that is
/// placed.
pub open spec fn shell_is_placed(
    t: AssemblyTables,
    reached: Map<u64, Seq<Step>>,
    n: int,
    shell: u64,
    word: Seq<Step>,
) -> bool {
    exists|i: int|
        0 <= i < n && t.manifolds[#[trigger] t.manifold_order[i]] == shell && is_placed_by(
            t,
            reached,
            i,
            word,
        ) && forall|j: int|
            i < j < n && t.manifolds[#[trigger] t.manifold_order[j]] == shell ==> stays_unplaced(
                t,
                reached,
                j,
            )
}

proof fn lemma_placed(
    t: AssemblyTables,
    reached: Map<u64, Seq<Step>>,
    n: int,
    shell: u64,
    word: Seq<Step>,
)
    requires
        0 <= n <= t.manifold_order.len(),
    ensures
        ({
            let placed = t.placed_shells(t.manifold_order.take(n), reached);
            placed.contains_key(shell) && placed[shell] == word <==> shell_is_placed(
                t,
                reached,
                n,
                shell,
                word,
            )
        }),
    decreases n,
{
    if n > 0 {
        lemma_placed(t, reached, n - 1, shell, word);
        let order = t.manifold_order.take(n);
        assert(order.drop_last() =~= t.manifold_order.take(n - 1));
        let m = t.manifold_order[n - 1];
        assert(order.last() == m);
        let own = t.owner(t.shape_order, m);
        assert forall|shape: u64| own == Some(shape) <==> #[trigger] is_last_with(t, m, shape) by {
            lemma_owner(t, t.shape_order, m, shape);
        }
        let hit = own is Some && reached.contains_key(own->0);
        assert(hit ==> is_placed_by(t, reached, n - 1, reached[own->0])) by {
            if hit {
                assert(is_last_with(t, m, own->0));
            }
        }
        assert forall|w: Seq<Step>| #[trigger] is_placed_by(t, reached, n - 1, w) implies hit && w
            == reached[own->0] by {
            let shape = choose|shape: u64| #[trigger]
                is_last_with(t, t.manifold_order[n - 1], shape) && reached.contains_key(shape)
                    && reached[shape] == w;
            assert(own == Some(shape));
        }
        assert(stays_unplaced(t, reached, n - 1) <==> !hit);
        if shell_is_placed(t, reached, n - 1, shell, word) && (!hit || t.manifolds[m] != shell) {
            let i = choose|i: int|
                0 <= i < n - 1 && t.manifolds[#[trigger] t.manifold_order[i]] == shell
                    && is_placed_by(t, reached, i, word) && forall|j: int|
                    i < j < n - 1 && t.manifolds[#[trigger] t.manifold_order[j]] == shell
                        ==> stays_unplaced(t, reached, j);
            assert(t.manifolds[t.manifold_order[i]] == shell);
        }
        if hit && t.manifolds[m] == shell && reached[own->0] == word {
            assert(t.manifolds[t.manifold_order[n - 1]] == shell);
        }
        if shell_is_placed(t, reached, n, shell, word) {
            let i = choose|i: int|
                0 <= i < n && t.manifolds[#[trigger] t.manifold_order[i]] == shell && is_placed_by(
                    t,
                    reached,
                    i,
                    word,
                ) && forall|j: int|
                    i < j < n && t.manifolds[#[trigger] t.manifold_order[j]] == shell
                        ==> stays_unplaced(t, reached, j);
            if i < n - 1 {
                assert(t.manifolds[t.manifold_order[i]] == shell);
                if t.manifolds[m] == shell {
                    assert(stays_unplaced(t, reached, n - 1));
                }
            }
        }
    }
}

/// Where the assembly places any shell, a shell has exactly the steps that are
/// noted for the last representation that lists its solid, and the others have
/// none.
pub proof fn law_shells_are_placed_with_their_solids(
    t: AssemblyTables,
    reached: Map<u64, Seq<Step>>,
    shell: u64,
    word: Seq<Step>,
    some: u64,
    steps: Seq<Step>,
)
    requires
        shell_is_placed(t, reached, t.manifold_order.len() as int, some, steps),
    ensures
        t.shell_words(reached).contains_key(shell) && t.shell_words(reached)[shell] == word
            <==> shell_is_placed(t, reached, t.manifold_order.len() as int, shell, word),
{
    let n = t.manifold_order.len() as int;
    assert(t.manifold_order.take(n) =~= t.manifold_order);
    lemma_placed(t, reached, n, shell, word);
    lemma_placed(t, reached, n, some, steps);
    let placed = t.placed_shells(t.manifold_order, reached);
    assert(placed.dom().contains(some));
}

proof fn lemma_unplaced(t: AssemblyTables, order: Seq<u64>, shell: u64)
    ensures
        t.unplaced_shells(order).contains_key(shell) <==> exists|i: int|
            0 <= i < order.len() && t.manifolds[#[trigger] order[i]] == shell,
        t.unplaced_shells(order).contains_key(shell) ==> t.unplaced_shells(order)[shell]
            == Seq::<Step>::empty(),
    decreases order.len(),
{
    if order.len() > 0 {
        let fewer = order.drop_last();
        lemma_unplaced(t, fewer, shell);
        if t.unplaced_shells(fewer).contains_key(shell) {
            let i = choose|i: int|
                0 <= i < fewer.len() && t.manifolds[#[trigger] fewer[i]] == shell;
            assert(order[i] == fewer[i]);
        }
        if exists|i: int| 0 <= i < order.len() && t.manifolds[#[trigger] order[i]] == shell {
            let i = choose|i: int|
                0 <= i < order.len() && t.manifolds[#[trigger] order[i]] == shell;
            if i < fewer.len() {
                assert(fewer[i] == order[i]);
            }
        }
        assert(order[order.len() - 1] == order.last());
    }
}

/// Where the assembly places no shell, the shells of all solids stay where they
/// are, and others have no place.
pub proof fn law_shells_stay_without_assembly(
    t: AssemblyTables,
    reached: Map<u64, Seq<Step>>,
    shell: u64,
)
    requires
        forall|other: u64, word: Seq<Step>|
            !#[trigger] shell_is_placed(
                t,
                reached,
                t.manifold_order.len() as int,
                other,
                word,
            ),
    ensures
        t.shell_words(reached).contains_key(shell) <==> exists|i: int|
            0 <= i < t.manifold_order.len() && t.manifolds[#[trigger] t.manifold_order[i]] == shell,
        t.shell_words(reached).contains_key(shell) ==> t.shell_words(reached)[shell]
            == Seq::<Step>::empty(),
{
    let n = t.manifold_order.len() as int;
    assert(t.manifold_order.take(n) =~= t.manifold_order);
    let placed = t.placed_shells(t.manifold_order, reached);
    assert(placed.dom().is_empty()) by {
        if !placed.dom().is_empty() {
            let other = placed.dom().choose();
            assert(placed.dom().contains(other));
            lemma_placed(t, reached, n, other, placed[other]);
            assert(shell_is_placed(t, reached, n, other, placed[other]));
        }
    }
    lemma_unplaced(t, t.manifold_order, shell);
}

} // verus!
