//! Placement of the shells of an assembly, read from a STEP file.
//!
//! The file places shape representations in one another. A solid belongs to
//! the representation that lists it, and its shell takes the transformations
//! on the way to that representation. They are kept as steps between
//! placements, whose coordinates are decimal texts.

use std::collections::HashMap;
use vstd::prelude::*;

use crate::colors;
use crate::graph;
use crate::graph::{resolve_representations, Graph, Step};
use crate::parsing;
use crate::parsing::{parse_point_coords, references, step_entities, RealTriple};
use crate::text;
use crate::text::{contains, starts_with};

verus! {

broadcast use vstd::std_specs::hash::group_hash_axioms;

/// What one entity says about the assembly.
pub enum AssemblyRecord {
    Point(RealTriple),
    Direction(RealTriple),
    Placement(u64, u64, u64),
    ItemTransform(u64, u64),
    Relationship(u64, u64, u64),
    ShapeItems(Vec<u64>),
    Manifold(u64),
    Link(u64, u64),
    Unrelated,
}

/// The mathematical form of an [`AssemblyRecord`].
pub ghost enum AssemblyFact {
    Point((Seq<char>, Seq<char>, Seq<char>)),
    Direction((Seq<char>, Seq<char>, Seq<char>)),
    Placement(u64, u64, u64),
    ItemTransform(u64, u64),
    Relationship(u64, u64, u64),
    ShapeItems(Seq<u64>),
    Manifold(u64),
    Link(u64, u64),
    Unrelated,
}

impl View for AssemblyRecord {
    type V = AssemblyFact;

    open spec fn view(&self) -> AssemblyFact {
        match self {
            AssemblyRecord::Point(t) => AssemblyFact::Point(t@),
            AssemblyRecord::Direction(t) => AssemblyFact::Direction(t@),
            AssemblyRecord::Placement(a, b, c) => AssemblyFact::Placement(*a, *b, *c),
            AssemblyRecord::ItemTransform(a, b) => AssemblyFact::ItemTransform(*a, *b),
            AssemblyRecord::Relationship(a, b, c) => AssemblyFact::Relationship(*a, *b, *c),
            AssemblyRecord::ShapeItems(v) => AssemblyFact::ShapeItems(v@),
            AssemblyRecord::Manifold(a) => AssemblyFact::Manifold(*a),
            AssemblyRecord::Link(a, b) => AssemblyFact::Link(*a, *b),
            AssemblyRecord::Unrelated => AssemblyFact::Unrelated,
        }
    }
}

/// What the text of an entity says about the assembly.
pub open spec fn assembly_fact(s: Seq<char>) -> AssemblyFact {
    let refs = parsing::hash_refs(s);
    if "CARTESIAN_POINT"@.is_prefix_of(s) {
        match parsing::point_coords(s) {
            Some(coords) => AssemblyFact::Point(coords),
            None => AssemblyFact::Unrelated,
        }
    } else if "DIRECTION"@.is_prefix_of(s) {
        match parsing::point_coords(s) {
            Some(coords) => AssemblyFact::Direction(coords),
            None => AssemblyFact::Unrelated,
        }
    } else if "AXIS2_PLACEMENT_3D"@.is_prefix_of(s) {
        if refs.len() >= 3 {
            AssemblyFact::Placement(refs[0], refs[1], refs[2])
        } else {
            AssemblyFact::Unrelated
        }
    } else if "ITEM_DEFINED_TRANSFORMATION"@.is_prefix_of(s) {
        if refs.len() >= 2 {
            AssemblyFact::ItemTransform(refs[0], refs[1])
        } else {
            AssemblyFact::Unrelated
        }
    } else if text::occurs_in("REPRESENTATION_RELATIONSHIP_WITH_TRANSFORMATION"@, s) {
        if refs.len() >= 3 {
            AssemblyFact::Relationship(refs[0], refs[1], refs[2])
        } else {
            AssemblyFact::Unrelated
        }
    } else if "ADVANCED_BREP_SHAPE_REPRESENTATION"@.is_prefix_of(s) {
        AssemblyFact::ShapeItems(refs)
    } else if "MANIFOLD_SOLID_BREP"@.is_prefix_of(s) {
        if refs.len() > 0 {
            AssemblyFact::Manifold(refs[0])
        } else {
            AssemblyFact::Unrelated
        }
    } else if "SHAPE_REPRESENTATION_RELATIONSHIP"@.is_prefix_of(s) {
        if refs.len() >= 2 {
            AssemblyFact::Link(refs[0], refs[1])
        } else {
            AssemblyFact::Unrelated
        }
    } else {
        AssemblyFact::Unrelated
    }
}

/// The assembly entities of a file, by their number. The two orders hold the
/// numbers of the shape representations and of the solids as they stand in
/// the file.
#[verifier::ext_equal]
pub ghost struct AssemblyTables {
    pub points: Map<u64, (Seq<char>, Seq<char>, Seq<char>)>,
    pub directions: Map<u64, (Seq<char>, Seq<char>, Seq<char>)>,
    pub placements: Map<u64, (u64, u64, u64)>,
    pub item_transforms: Map<u64, (u64, u64)>,
    pub relationships: Seq<(u64, u64, u64)>,
    pub links: Seq<(u64, u64)>,
    pub shape_items: Map<u64, Seq<u64>>,
    pub shape_order: Seq<u64>,
    pub manifolds: Map<u64, u64>,
    pub manifold_order: Seq<u64>,
}

/// A placement in space: an origin, an axis and a reference direction, each
/// missing if its entity is.
pub ghost struct PlacementModel {
    pub location: Option<(Seq<char>, Seq<char>, Seq<char>)>,
    pub axis: Option<(Seq<char>, Seq<char>, Seq<char>)>,
    pub ref_direction: Option<(Seq<char>, Seq<char>, Seq<char>)>,
}

impl AssemblyTables {
    pub open spec fn empty() -> AssemblyTables {
        AssemblyTables {
            points: Map::empty(),
            directions: Map::empty(),
            placements: Map::empty(),
            item_transforms: Map::empty(),
            relationships: Seq::empty(),
            links: Seq::empty(),
            shape_items: Map::empty(),
            shape_order: Seq::empty(),
            manifolds: Map::empty(),
            manifold_order: Seq::empty(),
        }
    }

    /// The tables with one more entity; a number given again replaces what
    /// stood under it.
    pub open spec fn with(self, id: u64, fact: AssemblyFact) -> AssemblyTables {
        match fact {
            AssemblyFact::Point(t) => AssemblyTables { points: self.points.insert(id, t), ..self },
            AssemblyFact::Direction(t) => AssemblyTables {
                directions: self.directions.insert(id, t),
                ..self
            },
            AssemblyFact::Placement(a, b, c) => AssemblyTables {
                placements: self.placements.insert(id, (a, b, c)),
                ..self
            },
            AssemblyFact::ItemTransform(a, b) => AssemblyTables {
                item_transforms: self.item_transforms.insert(id, (a, b)),
                ..self
            },
            AssemblyFact::Relationship(a, b, c) => AssemblyTables {
                relationships: self.relationships.push((a, b, c)),
                ..self
            },
            AssemblyFact::ShapeItems(v) => AssemblyTables {
                shape_items: self.shape_items.insert(id, v),
                shape_order: self.shape_order.push(id),
                ..self
            },
            AssemblyFact::Manifold(shell) => AssemblyTables {
                manifolds: self.manifolds.insert(id, shell),
                manifold_order: self.manifold_order.push(id),
                ..self
            },
            AssemblyFact::Link(a, b) => AssemblyTables { links: self.links.push((a, b)), ..self },
            AssemblyFact::Unrelated => self,
        }
    }

    /// Each order names the entities of its map.
    pub open spec fn ordered(self) -> bool {
        &&& forall|i: int|
            0 <= i < self.shape_order.len() ==> self.shape_items.contains_key(
                #[trigger] self.shape_order[i],
            )
        &&& forall|i: int|
            0 <= i < self.manifold_order.len() ==> self.manifolds.contains_key(
                #[trigger] self.manifold_order[i],
            )
    }

    pub open spec fn graph(self) -> Graph {
        Graph {
            links: self.links,
            relationships: self.relationships,
            items: self.item_transforms,
            flipped: graph::flips(self.relationships),
        }
    }

    pub open spec fn placement(self, id: u64) -> Option<PlacementModel> {
        match colors::lookup(self.placements, id) {
            Some((location, axis, ref_direction)) => Some(
                PlacementModel {
                    location: colors::lookup(self.points, location),
                    axis: colors::lookup(self.directions, axis),
                    ref_direction: colors::lookup(self.directions, ref_direction),
                },
            ),
            None => None,
        }
    }

    /// The last of the shape representations in `order` that lists a solid.
    pub open spec fn owner(self, order: Seq<u64>, manifold: u64) -> Option<u64>
        decreases order.len(),
    {
        if order.len() == 0 {
            None
        } else if self.shape_items[order.last()].contains(manifold) {
            Some(order.last())
        } else {
            self.owner(order.drop_last(), manifold)
        }
    }

    /// Whether the solid `m` of `order` takes its place from the representation
    /// `shape`, which lists it and is reached.
    pub open spec fn places(
        self,
        order: Seq<u64>,
        reached: Map<u64, Seq<Step>>,
        m: u64,
        shape: u64,
    ) -> bool {
        &&& order.contains(m)
        &&& self.owner(self.shape_order, m) == Some(shape)
        &&& reached.contains_key(shape)
    }

    /// The steps to each shell of the solids in `order` whose representation
    /// is reached.
    pub open spec fn placed_shells(self, order: Seq<u64>, reached: Map<u64, Seq<Step>>) -> Map<
        u64,
        Seq<Step>,
    >
        decreases order.len(),
    {
        if order.len() == 0 {
            Map::empty()
        } else {
            let before = self.placed_shells(order.drop_last(), reached);
            match self.owner(self.shape_order, order.last()) {
                Some(shape) if reached.contains_key(shape) => before.insert(
                    self.manifolds[order.last()],
                    reached[shape],
                ),
                _ => before,
            }
        }
    }

    /// The shells of the solids in `order`, each left where it is.
    pub open spec fn unplaced_shells(self, order: Seq<u64>) -> Map<u64, Seq<Step>>
        decreases order.len(),
    {
        if order.len() == 0 {
            Map::empty()
        } else {
            self.unplaced_shells(order.drop_last()).insert(
                self.manifolds[order.last()],
                Seq::empty(),
            )
        }
    }

    /// The steps to each shell. Where no shell is placed by the assembly, all
    /// shells of solids stay where they are.
    pub open spec fn shell_words(self, reached: Map<u64, Seq<Step>>) -> Map<u64, Seq<Step>> {
        let placed = self.placed_shells(self.manifold_order, reached);
        if placed.dom().is_empty() {
            self.unplaced_shells(self.manifold_order)
        } else {
            placed
        }
    }
}

pub open spec fn assembly_tables(entities: Seq<(u64, Seq<char>)>) -> AssemblyTables
    decreases entities.len(),
{
    if entities.len() == 0 {
        AssemblyTables::empty()
    } else {
        assembly_tables(entities.drop_last()).with(
            entities.last().0,
            assembly_fact(entities.last().1),
        )
    }
}

proof fn lemma_tables_ordered(entities: Seq<(u64, Seq<char>)>)
    ensures
        assembly_tables(entities).ordered(),
    decreases entities.len(),
{
    if entities.len() > 0 {
        lemma_tables_ordered(entities.drop_last());
        let before = assembly_tables(entities.drop_last());
        let now = assembly_tables(entities);
        assert forall|i: int| 0 <= i < now.shape_order.len() implies now.shape_items.contains_key(
            #[trigger] now.shape_order[i],
        ) by {
            if i < before.shape_order.len() {
                assert(now.shape_order[i] == before.shape_order[i]);
            }
        }
        assert forall|i: int| 0 <= i < now.manifold_order.len() implies now.manifolds.contains_key(
            #[trigger] now.manifold_order[i],
        ) by {
            if i < before.manifold_order.len() {
                assert(now.manifold_order[i] == before.manifold_order[i]);
            }
        }
    }
}

proof fn lemma_placed_shell(
    t: AssemblyTables,
    order: Seq<u64>,
    reached: Map<u64, Seq<Step>>,
    shell: u64,
)
    requires
        t.placed_shells(order, reached).contains_key(shell),
    ensures
        exists|m: u64, shape: u64| #[trigger]
            t.places(order, reached, m, shape) && t.manifolds[m] == shell && reached[shape]
                == t.placed_shells(order, reached)[shell],
    decreases order.len(),
{
    if order.len() > 0 {
        let init = order.drop_last();
        let last = order.last();
        let own = t.owner(t.shape_order, last);
        if own is Some && reached.contains_key(own->0) && t.manifolds[last] == shell {
            assert(order[order.len() - 1] == last);
            assert(t.places(order, reached, last, own->0));
        } else {
            lemma_placed_shell(t, init, reached, shell);
            let (m, shape) = choose|m: u64, shape: u64| #[trigger]
                t.places(init, reached, m, shape) && t.manifolds[m] == shell && reached[shape]
                    == t.placed_shells(init, reached)[shell];
            assert(order[init.index_of(m)] == m);
            assert(t.places(order, reached, m, shape));
        }
    }
}

proof fn lemma_unplaced_shell(t: AssemblyTables, order: Seq<u64>, i: int)
    requires
        0 <= i < order.len(),
    ensures
        t.unplaced_shells(order).contains_key(t.manifolds[order[i]]),
    decreases order.len(),
{
    if i < order.len() - 1 {
        lemma_unplaced_shell(t, order.drop_last(), i);
        assert(order.drop_last()[i] == order[i]);
    }
}

proof fn lemma_unplaced_words(t: AssemblyTables, order: Seq<u64>, shell: u64)
    requires
        t.unplaced_shells(order).contains_key(shell),
    ensures
        t.unplaced_shells(order)[shell] == Seq::<Step>::empty(),
        exists|m: u64| #[trigger] order.contains(m) && t.manifolds[m] == shell,
    decreases order.len(),
{
    if order.len() > 0 {
        let init = order.drop_last();
        if t.manifolds[order.last()] == shell {
            assert(order[order.len() - 1] == order.last());
            assert(order.contains(order.last()));
        } else {
            lemma_unplaced_words(t, init, shell);
            let m = choose|m: u64| #[trigger] init.contains(m) && t.manifolds[m] == shell;
            assert(order[init.index_of(m)] == m);
            assert(order.contains(m));
        }
    }
}

/// A shell with steps is that of a solid. Either its steps are those of a way
/// from a root to the representation that lists the solid, or the assembly
/// places no shell at all and it has none.
pub proof fn law_steps_come_from_ways(
    t: AssemblyTables,
    reached: Map<u64, Seq<Step>>,
    shell: u64,
)
    requires
        t.graph().ends_with(reached),
        t.shell_words(reached).contains_key(shell),
    ensures
        exists|m: u64| #[trigger] t.manifold_order.contains(m) && t.manifolds[m] == shell,
        t.shell_words(reached)[shell] == Seq::<Step>::empty() || exists|m: u64, shape: u64|
            #[trigger]
            t.places(t.manifold_order, reached, m, shape) && t.manifolds[m] == shell
                && t.graph().leads_to(shape, t.shell_words(reached)[shell]),
{
    let order = t.manifold_order;
    let placed = t.placed_shells(order, reached);
    if placed.dom().is_empty() {
        lemma_unplaced_words(t, order, shell);
    } else {
        lemma_placed_shell(t, order, reached, shell);
        let (m, shape) = choose|m: u64, shape: u64| #[trigger]
            t.places(order, reached, m, shape) && t.manifolds[m] == shell && reached[shape]
                == placed[shell];
        assert(order.contains(m));
        let g = t.graph();
        let n = choose|n: nat|
            (#[trigger] g.walked(n)).todo.len() == 0 && g.walked(n).reached == reached;
        graph::law_walk_follows_ways(g, n);
        assert(g.walked(n).reached.contains_key(shape));
    }
}

/// In a file whose representations are not placed in one another, every shell
/// of a solid stays where it is.
pub proof fn law_shells_stay_without_relationships(
    t: AssemblyTables,
    reached: Map<u64, Seq<Step>>,
    i: int,
)
    requires
        t.relationships.len() == 0,
        t.graph().ends_with(reached),
        0 <= i < t.manifold_order.len(),
    ensures
        t.shell_words(reached).contains_key(t.manifolds[t.manifold_order[i]]),
        t.shell_words(reached)[t.manifolds[t.manifold_order[i]]] == Seq::<Step>::empty(),
{
    let g = t.graph();
    let shell = t.manifolds[t.manifold_order[i]];
    assert(g.roots().len() == 0);
    assert(g.walked(0).todo.len() == 0);
    assert(g.ends_with(g.walked(0).reached));
    graph::law_walk_ends_once(g, reached, g.walked(0).reached);
    assert(reached =~= Map::empty());
    let placed = t.placed_shells(t.manifold_order, reached);
    assert(placed.dom().is_empty()) by {
        if !placed.dom().is_empty() {
            let other = placed.dom().choose();
            lemma_placed_shell(t, t.manifold_order, reached, other);
        }
    }
    lemma_unplaced_shell(t, t.manifold_order, i);
    lemma_unplaced_words(t, t.manifold_order, shell);
}

fn assembly_record(s: &[char]) -> (r: AssemblyRecord)
    ensures
        r@ == assembly_fact(s@),
{
    if starts_with(s, "CARTESIAN_POINT") {
        match parse_point_coords(s) {
            Some(coords) => AssemblyRecord::Point(coords),
            None => AssemblyRecord::Unrelated,
        }
    } else if starts_with(s, "DIRECTION") {
        match parse_point_coords(s) {
            Some(coords) => AssemblyRecord::Direction(coords),
            None => AssemblyRecord::Unrelated,
        }
    } else if starts_with(s, "AXIS2_PLACEMENT_3D") {
        let refs = references(s);
        if refs.len() >= 3 {
            AssemblyRecord::Placement(refs[0], refs[1], refs[2])
        } else {
            AssemblyRecord::Unrelated
        }
    } else if starts_with(s, "ITEM_DEFINED_TRANSFORMATION") {
        let refs = references(s);
        if refs.len() >= 2 {
            AssemblyRecord::ItemTransform(refs[0], refs[1])
        } else {
            AssemblyRecord::Unrelated
        }
    } else if contains(s, "REPRESENTATION_RELATIONSHIP_WITH_TRANSFORMATION") {
        let refs = references(s);
        if refs.len() >= 3 {
            AssemblyRecord::Relationship(refs[0], refs[1], refs[2])
        } else {
            AssemblyRecord::Unrelated
        }
    } else if starts_with(s, "ADVANCED_BREP_SHAPE_REPRESENTATION") {
        AssemblyRecord::ShapeItems(references(s))
    } else if starts_with(s, "MANIFOLD_SOLID_BREP") {
        let refs = references(s);
        if refs.len() > 0 {
            AssemblyRecord::Manifold(refs[0])
        } else {
            AssemblyRecord::Unrelated
        }
    } else if starts_with(s, "SHAPE_REPRESENTATION_RELATIONSHIP") {
        let refs = references(s);
        if refs.len() >= 2 {
            AssemblyRecord::Link(refs[0], refs[1])
        } else {
            AssemblyRecord::Unrelated
        }
    } else {
        AssemblyRecord::Unrelated
    }
}

/// The assembly entities of a file.
struct AssemblyData {
    points: HashMap<u64, RealTriple>,
    directions: HashMap<u64, RealTriple>,
    placements: HashMap<u64, (u64, u64, u64)>,
    item_transforms: HashMap<u64, (u64, u64)>,
    relationships: Vec<(u64, u64, u64)>,
    links: Vec<(u64, u64)>,
    shape_items: HashMap<u64, Vec<u64>>,
    shape_order: Vec<u64>,
    manifolds: HashMap<u64, u64>,
    manifold_order: Vec<u64>,
}

impl View for AssemblyData {
    type V = AssemblyTables;

    closed spec fn view(&self) -> AssemblyTables {
        AssemblyTables {
            points: colors::triple_map(self.points@),
            directions: colors::triple_map(self.directions@),
            placements: self.placements@,
            item_transforms: self.item_transforms@,
            relationships: self.relationships@,
            links: self.links@,
            shape_items: colors::refs_map(self.shape_items@),
            shape_order: self.shape_order@,
            manifolds: self.manifolds@,
            manifold_order: self.manifold_order@,
        }
    }
}

/// A placement in space: an origin, an axis and a reference direction, each
/// missing if its entity is.
pub struct Placement {
    pub location: Option<RealTriple>,
    pub axis: Option<RealTriple>,
    pub ref_direction: Option<RealTriple>,
}

impl View for Placement {
    type V = PlacementModel;

    open spec fn view(&self) -> PlacementModel {
        PlacementModel {
            location: parsing::triple_view(self.location),
            axis: parsing::triple_view(self.axis),
            ref_direction: parsing::triple_view(self.ref_direction),
        }
    }
}

fn coords_at(map: &HashMap<u64, RealTriple>, id: u64) -> (r: Option<RealTriple>)
    ensures
        parsing::triple_view(r) == colors::lookup(colors::triple_map(map@), id),
{
    match map.get(&id) {
        Some(coords) => Some(coords.copy()),
        None => None,
    }
}

impl AssemblyData {
    fn new() -> (r: AssemblyData)
        ensures
            r@ == AssemblyTables::empty(),
    {
        let r = AssemblyData {
            points: HashMap::new(),
            directions: HashMap::new(),
            placements: HashMap::new(),
            item_transforms: HashMap::new(),
            relationships: Vec::new(),
            links: Vec::new(),
            shape_items: HashMap::new(),
            shape_order: Vec::new(),
            manifolds: HashMap::new(),
            manifold_order: Vec::new(),
        };
        assert(r@ =~= AssemblyTables::empty());
        r
    }

    fn record(&mut self, id: u64, record: AssemblyRecord)
        ensures
            final(self)@ == old(self)@.with(id, record@),
    {
        let ghost before = *self;
        let ghost fact = record@;
        match record {
            AssemblyRecord::Point(coords) => {
                self.points.insert(id, coords);
            },
            AssemblyRecord::Direction(coords) => {
                self.directions.insert(id, coords);
            },
            AssemblyRecord::Placement(a, b, c) => {
                self.placements.insert(id, (a, b, c));
            },
            AssemblyRecord::ItemTransform(a, b) => {
                self.item_transforms.insert(id, (a, b));
            },
            AssemblyRecord::Relationship(a, b, c) => {
                self.relationships.push((a, b, c));
            },
            AssemblyRecord::ShapeItems(refs) => {
                self.shape_items.insert(id, refs);
                self.shape_order.push(id);
            },
            AssemblyRecord::Manifold(shell) => {
                self.manifolds.insert(id, shell);
                self.manifold_order.push(id);
            },
            AssemblyRecord::Link(a, b) => {
                self.links.push((a, b));
            },
            AssemblyRecord::Unrelated => {},
        }
        assert(self@ =~= before@.with(id, fact));
    }

    /// The last shape representation that lists each solid.
    fn owners(&self) -> (r: HashMap<u64, u64>)
        requires
            self@.ordered(),
        ensures
            forall|m: u64|
                self@.manifolds.contains_key(m) ==> #[trigger] colors::lookup(r@, m)
                    == self@.owner(self@.shape_order, m),
    {
        let ghost t = self@;
        let mut owners: HashMap<u64, u64> = HashMap::new();
        let mut i: usize = 0;
        while i < self.shape_order.len()
            invariant
                t == self@,
                t.ordered(),
                i <= self.shape_order.len(),
                forall|m: u64|
                    t.manifolds.contains_key(m) ==> #[trigger] colors::lookup(owners@, m)
                        == t.owner(t.shape_order.take(i as int), m),
            decreases self.shape_order.len() - i,
        {
            let shape: u64 = self.shape_order[i];
            let ghost longer = t.shape_order.take(i + 1);
            assert(longer.drop_last() =~= t.shape_order.take(i as int));
            assert(longer.last() == shape);
            assert(t.shape_items.contains_key(t.shape_order[i as int]));
            if let Some(refs) = self.shape_items.get(&shape) {
                let ghost listed = t.shape_items[shape];
                assert(refs@ == listed);
                let mut k: usize = 0;
                while k < refs.len()
                    invariant
                        t == self@,
                        k <= refs.len(),
                        refs@ == listed,
                        forall|m: u64|
                            t.manifolds.contains_key(m) ==> #[trigger] colors::lookup(owners@, m)
                                == if listed.take(k as int).contains(m) {
                                Some(shape)
                            } else {
                                t.owner(t.shape_order.take(i as int), m)
                            },
                    decreases refs.len() - k,
                {
                    let item: u64 = refs[k];
                    let ghost before = owners@;
                    let ghost seen = listed.take(k as int);
                    let ghost now = listed.take(k + 1);
                    if self.manifolds.contains_key(&item) {
                        owners.insert(item, shape);
                    }
                    assert forall|m: u64| t.manifolds.contains_key(m) implies
                        #[trigger] colors::lookup(owners@, m) == if now.contains(m) {
                        Some(shape)
                    } else {
                        t.owner(t.shape_order.take(i as int), m)
                    } by {
                        let earlier = colors::lookup(before, m);
                        assert(now[k as int] == item);
                        if seen.contains(m) {
                            assert(now[seen.index_of(m)] == m);
                        }
                        if now.contains(m) && m != item {
                            assert(seen[now.index_of(m)] == m);
                        }
                    }
                    k += 1;
                }
                assert(listed.take(listed.len() as int) =~= listed);
            }
            i += 1;
        }
        assert(t.shape_order.take(t.shape_order.len() as int) =~= t.shape_order);
        owners
    }

    fn shell_words(&self, reached: &HashMap<u64, Vec<Step>>) -> (r: HashMap<u64, Vec<Step>>)
        requires
            self@.ordered(),
        ensures
            graph::word_map(r@) == self@.shell_words(graph::word_map(reached@)),
    {
        let ghost t = self@;
        let ghost words = graph::word_map(reached@);
        let owners = self.owners();
        let mut shells: HashMap<u64, Vec<Step>> = HashMap::new();
        let mut i: usize = 0;
        assert(graph::word_map(shells@) =~= Map::empty());
        while i < self.manifold_order.len()
            invariant
                t == self@,
                t.ordered(),
                words == graph::word_map(reached@),
                i <= self.manifold_order.len(),
                forall|m: u64|
                    t.manifolds.contains_key(m) ==> #[trigger] colors::lookup(owners@, m)
                        == t.owner(t.shape_order, m),
                graph::word_map(shells@) == t.placed_shells(t.manifold_order.take(i as int), words),
            decreases self.manifold_order.len() - i,
        {
            let manifold: u64 = self.manifold_order[i];
            let ghost longer = t.manifold_order.take(i + 1);
            assert(longer.drop_last() =~= t.manifold_order.take(i as int));
            assert(longer.last() == manifold);
            assert(t.manifolds.contains_key(t.manifold_order[i as int]));
            assert(colors::lookup(owners@, manifold) == t.owner(t.shape_order, manifold));
            if let Some(shape) = owners.get(&manifold) {
                if let Some(word) = reached.get(shape) {
                    if let Some(shell) = self.manifolds.get(&manifold) {
                        let ghost before = shells@;
                        let copy = graph::copy_word(word);
                        let ghost shown = copy@;
                        shells.insert(*shell, copy);
                        assert(graph::word_map(shells@) =~= graph::word_map(before).insert(
                            *shell,
                            shown,
                        ));
                    }
                }
            }
            i += 1;
        }
        assert(t.manifold_order.take(t.manifold_order.len() as int) =~= t.manifold_order);
        let ghost placed = t.placed_shells(t.manifold_order, words);
        assert(placed.dom() =~= shells@.dom());
        if shells.len() == 0 {
            let mut k: usize = 0;
            assert(shells@.dom() =~= Set::empty());
            assert(graph::word_map(shells@) =~= Map::empty());
            while k < self.manifold_order.len()
                invariant
                    t == self@,
                    t.ordered(),
                    k <= self.manifold_order.len(),
                    graph::word_map(shells@) == t.unplaced_shells(
                        t.manifold_order.take(k as int),
                    ),
                decreases self.manifold_order.len() - k,
            {
                let manifold: u64 = self.manifold_order[k];
                let ghost longer = t.manifold_order.take(k + 1);
                assert(longer.drop_last() =~= t.manifold_order.take(k as int));
                assert(longer.last() == manifold);
                assert(t.manifolds.contains_key(t.manifold_order[k as int]));
                if let Some(shell) = self.manifolds.get(&manifold) {
                    let ghost before = shells@;
                    shells.insert(*shell, Vec::new());
                    assert(graph::word_map(shells@) =~= graph::word_map(before).insert(
                        *shell,
                        Seq::empty(),
                    ));
                }
                k += 1;
            }
        }
        shells
    }
}

/// The placement of the shells of a file.
pub struct Assembly {
    data: AssemblyData,
    shells: HashMap<u64, Vec<Step>>,
}

impl Assembly {
    pub closed spec fn tables(&self) -> AssemblyTables {
        self.data@
    }

    /// The steps to each placed shell.
    pub closed spec fn words(&self) -> Map<u64, Seq<Step>> {
        graph::word_map(self.shells@)
    }

    /// The steps to a shell, by the number of its entity: the transformation
    /// of the shell is their product, from left to right.
    pub fn shell_steps(&self, shell: u64) -> (r: Option<Vec<Step>>)
        ensures
            match r {
                Some(word) => self.words().contains_key(shell) && word@ == self.words()[shell],
                None => !self.words().contains_key(shell),
            },
    {
        match self.shells.get(&shell) {
            Some(word) => Some(graph::copy_word(word)),
            None => None,
        }
    }

    /// The number of placed shells.
    pub fn shell_count(&self) -> (r: usize)
        ensures
            r == self.words().dom().len(),
    {
        assert(self.words().dom() =~= self.shells@.dom());
        self.shells.len()
    }

    /// The placement with the given number.
    pub fn placement(&self, id: u64) -> (r: Option<Placement>)
        ensures
            match r {
                Some(p) => self.tables().placement(id) == Some(p@),
                None => self.tables().placement(id) is None,
            },
    {
        match self.data.placements.get(&id) {
            Some(refs) => Some(
                Placement {
                    location: coords_at(&self.data.points, refs.0),
                    axis: coords_at(&self.data.directions, refs.1),
                    ref_direction: coords_at(&self.data.directions, refs.2),
                },
            ),
            None => None,
        }
    }
}

/// The placement of the shells of a STEP file.
pub fn parse_assembly_transforms(raw: &str) -> (r: Assembly)
    ensures
        r.tables() == assembly_tables(parsing::file_entities(raw@)),
        exists|reached: Map<u64, Seq<Step>>| #[trigger]
            r.tables().graph().ends_with(reached) && r.words() == r.tables().shell_words(reached),
{
    let entities = step_entities(raw);
    let ghost all = parsing::file_entities(raw@);
    let mut data = AssemblyData::new();
    let mut i: usize = 0;
    assert(all.take(0) =~= Seq::empty());
    while i < entities.len()
        invariant
            i <= entities.len(),
            parsing::entity_views(entities@) == all,
            data@ == assembly_tables(all.take(i as int)),
        decreases entities.len() - i,
    {
        assert(all[i as int] == entities@[i as int]@);
        assert(all.take(i + 1).drop_last() =~= all.take(i as int));
        let record = assembly_record(entities[i].text.as_slice());
        data.record(entities[i].id, record);
        i += 1;
    }
    assert(all.take(all.len() as int) =~= all);
    proof {
        lemma_tables_ordered(all);
    }
    let reached = resolve_representations(
        data.links.as_slice(),
        data.relationships.as_slice(),
        &data.item_transforms,
    );
    let shells = data.shell_words(&reached);
    let r = Assembly { data, shells };
    assert(r.tables().graph().ends_with(graph::word_map(reached@)));
    r
}

} // verus!
