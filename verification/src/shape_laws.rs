//! Which parameters the entities of shapes have.

use vstd::prelude::*;

use crate::entities;
use crate::entity_laws;
use crate::exchange::ParameterModel;
use crate::schema;
use crate::schema::{EntityType, Field};

verus! {

pub open spec fn is_number(p: ParameterModel) -> bool {
    p is Integer || p is Real
}

/// A list of numbers.
pub open spec fn are_numbers(p: ParameterModel) -> bool {
    p matches ParameterModel::List(items) && forall|i: int|
        0 <= i < items.len() ==> is_number(#[trigger] items[i])
}

/// A list of references.
pub open spec fn are_references(p: ParameterModel) -> bool {
    p matches ParameterModel::List(items) && forall|i: int|
        0 <= i < items.len() ==> (#[trigger] items[i]) is Ref
}

/// An enumeration that stands for true or false.
pub open spec fn is_truth(p: ParameterModel) -> bool {
    p matches ParameterModel::Enumeration(w) && (w == "T"@ || w == "TRUE"@ || w == "F"@ || w
        == "FALSE"@)
}

pub open spec fn is_absent(p: ParameterModel) -> bool {
    p is NotProvided || p is Omitted
}

proof fn lemma_kinds(p: ParameterModel, t: EntityType)
    ensures
        p is Text ==> entities::is_taken(Field::Text, p) && entities::is_taken(
            Field::OptionalText,
            p,
        ),
        is_number(p) ==> entities::is_taken(Field::Real, p),
        are_numbers(p) ==> entities::is_taken(Field::Reals, p),
        p is Ref ==> entities::is_taken(Field::Ref(t), p) && entities::is_taken(
            Field::OptionalRef(t),
            p,
        ),
        is_absent(p) ==> entities::is_taken(Field::OptionalRef(t), p) && entities::is_taken(
            Field::OptionalText,
            p,
        ),
        are_references(p) ==> entities::is_taken(Field::Refs(t), p),
        is_truth(p) ==> entities::is_taken(Field::Flag, p),
{
    entity_laws::law_fields_take_all_of_their_kind(p, t);
    match p {
        ParameterModel::List(items) => {
            entities::lemma_list_field(Field::Reals, items);
            entities::lemma_list_field(Field::Refs(t), items);
            if are_numbers(p) {
                assert forall|i: int| 0 <= i < items.len() implies entities::is_taken(
                    Field::Real,
                    #[trigger] items[i],
                ) by {
                    assert(is_number(items[i]));
                }
            }
            if are_references(p) {
                assert forall|i: int| 0 <= i < items.len() implies entities::is_taken(
                    Field::Ref(t),
                    #[trigger] items[i],
                ) by {
                    entity_laws::law_fields_take_all_of_their_kind(items[i], t);
                }
            }
        },
        _ => {},
    }
}

/// A list is an entity of the type, and with a parameter fewer or more it is
/// none.
pub open spec fn is_exactly(t: EntityType, items: Seq<ParameterModel>) -> bool {
    &&& entities::is_entity(t, ParameterModel::List(items))
    &&& forall|other: Seq<ParameterModel>|
        other.len() != items.len() ==> !#[trigger] entities::is_entity(
            t,
            ParameterModel::List(other),
        )
}

proof fn lemma_exactly(t: EntityType, items: Seq<ParameterModel>)
    requires
        !schema::is_choice(t),
        items.len() == schema::fields(t).len(),
        forall|i: int|
            0 <= i < items.len() ==> entities::is_taken(schema::fields(t)[i], #[trigger] items[i]),
    ensures
        is_exactly(t, items),
{
    entities::lemma_list_entity(t, items);
    assert forall|other: Seq<ParameterModel>| other.len() != items.len() implies !#[trigger]
        entities::is_entity(t, ParameterModel::List(other)) by {
        entities::lemma_list_entity(t, other);
    }
}

/// A point and a direction have a name and coordinates, and a vector has a name, a
/// direction and a length.
pub proof fn law_points_and_directions_are_read(
    name: ParameterModel,
    coordinates: ParameterModel,
    direction: ParameterModel,
    length: ParameterModel,
)
    requires
        name is Text,
        are_numbers(coordinates),
        direction is Ref,
        is_number(length),
    ensures
        is_exactly(EntityType::CartesianPoint, seq![name, coordinates]),
        is_exactly(EntityType::Direction, seq![name, coordinates]),
        is_exactly(EntityType::Vector, seq![name, direction, length]),
{
    let items = seq![name, coordinates];
    let fields = schema::fields(EntityType::CartesianPoint);
    lemma_kinds(name, EntityType::Dummy);
    lemma_kinds(coordinates, EntityType::Dummy);
    lemma_exactly(EntityType::CartesianPoint, items);
    let items = seq![name, coordinates];
    let fields = schema::fields(EntityType::Direction);
    lemma_kinds(name, EntityType::Dummy);
    lemma_kinds(coordinates, EntityType::Dummy);
    lemma_exactly(EntityType::Direction, items);
    let items = seq![name, direction, length];
    let fields = schema::fields(EntityType::Vector);
    lemma_kinds(name, EntityType::Dummy);
    lemma_kinds(direction, fields[1]->Ref_0);
    lemma_kinds(length, EntityType::Dummy);
    lemma_exactly(EntityType::Vector, items);
}

/// A placement has a name and a location, and may have an axis and a direction. Two
/// of them make a transformation, whose name and description may be absent.
pub proof fn law_placements_are_read(
    name: ParameterModel,
    location: ParameterModel,
    axis: ParameterModel,
    direction: ParameterModel,
    title: ParameterModel,
    description: ParameterModel,
    from: ParameterModel,
    to: ParameterModel,
)
    requires
        name is Text,
        location is Ref,
        axis is Ref || is_absent(axis),
        direction is Ref || is_absent(direction),
        title is Text || is_absent(title),
        description is Text || is_absent(description),
        from is Ref,
        to is Ref,
    ensures
        is_exactly(EntityType::Axis2Placement3d, seq![name, location, axis, direction]),
        is_exactly(EntityType::ItemDefinedTransformation, seq![title, description, from, to]),
{
    let items = seq![name, location, axis, direction];
    let fields = schema::fields(EntityType::Axis2Placement3d);
    lemma_kinds(name, EntityType::Dummy);
    lemma_kinds(location, fields[1]->Ref_0);
    lemma_kinds(axis, fields[2]->OptionalRef_0);
    lemma_kinds(direction, fields[3]->OptionalRef_0);
    lemma_exactly(EntityType::Axis2Placement3d, items);
    let items = seq![title, description, from, to];
    let fields = schema::fields(EntityType::ItemDefinedTransformation);
    lemma_kinds(title, EntityType::Dummy);
    lemma_kinds(description, EntityType::Dummy);
    lemma_kinds(from, fields[2]->Ref_0);
    lemma_kinds(to, fields[3]->Ref_0);
    lemma_exactly(EntityType::ItemDefinedTransformation, items);
}

/// A line has a name, a point and a vector, a circle a name, a placement and a
/// radius, and an ellipse a name, a placement and two radii.
pub proof fn law_curves_are_read(
    name: ParameterModel,
    point: ParameterModel,
    vector: ParameterModel,
    placement: ParameterModel,
    radius: ParameterModel,
    second: ParameterModel,
)
    requires
        name is Text,
        point is Ref,
        vector is Ref,
        placement is Ref,
        is_number(radius),
        is_number(second),
    ensures
        is_exactly(EntityType::Line, seq![name, point, vector]),
        is_exactly(EntityType::Circle, seq![name, placement, radius]),
        is_exactly(EntityType::Ellipse, seq![name, placement, radius, second]),
{
    let items = seq![name, point, vector];
    let fields = schema::fields(EntityType::Line);
    lemma_kinds(name, EntityType::Dummy);
    lemma_kinds(point, fields[1]->Ref_0);
    lemma_kinds(vector, fields[2]->Ref_0);
    lemma_exactly(EntityType::Line, items);
    let items = seq![name, placement, radius];
    let fields = schema::fields(EntityType::Circle);
    lemma_kinds(name, EntityType::Dummy);
    lemma_kinds(placement, fields[1]->Ref_0);
    lemma_kinds(radius, EntityType::Dummy);
    lemma_exactly(EntityType::Circle, items);
    let items = seq![name, placement, radius, second];
    let fields = schema::fields(EntityType::Ellipse);
    lemma_kinds(name, EntityType::Dummy);
    lemma_kinds(placement, fields[1]->Ref_0);
    lemma_kinds(radius, EntityType::Dummy);
    lemma_kinds(second, EntityType::Dummy);
    lemma_exactly(EntityType::Ellipse, items);
}

/// A plane has a name and a placement, a cylinder and a sphere a radius as well,
/// and a cone and a torus two numbers.
pub proof fn law_surfaces_are_read(
    name: ParameterModel,
    placement: ParameterModel,
    radius: ParameterModel,
    second: ParameterModel,
)
    requires
        name is Text,
        placement is Ref,
        is_number(radius),
        is_number(second),
    ensures
        is_exactly(EntityType::Plane, seq![name, placement]),
        is_exactly(EntityType::CylindricalSurface, seq![name, placement, radius]),
        is_exactly(EntityType::SphericalSurface, seq![name, placement, radius]),
        is_exactly(EntityType::ConicalSurface, seq![name, placement, radius, second]),
        is_exactly(EntityType::ToroidalSurface, seq![name, placement, radius, second]),
{
    let items = seq![name, placement];
    let fields = schema::fields(EntityType::Plane);
    lemma_kinds(name, EntityType::Dummy);
    lemma_kinds(placement, fields[1]->Ref_0);
    lemma_exactly(EntityType::Plane, items);
    let items = seq![name, placement, radius];
    let fields = schema::fields(EntityType::CylindricalSurface);
    lemma_kinds(name, EntityType::Dummy);
    lemma_kinds(placement, fields[1]->Ref_0);
    lemma_kinds(radius, EntityType::Dummy);
    lemma_exactly(EntityType::CylindricalSurface, items);
    let items = seq![name, placement, radius];
    let fields = schema::fields(EntityType::SphericalSurface);
    lemma_kinds(name, EntityType::Dummy);
    lemma_kinds(placement, fields[1]->Ref_0);
    lemma_kinds(radius, EntityType::Dummy);
    lemma_exactly(EntityType::SphericalSurface, items);
    let items = seq![name, placement, radius, second];
    let fields = schema::fields(EntityType::ConicalSurface);
    lemma_kinds(name, EntityType::Dummy);
    lemma_kinds(placement, fields[1]->Ref_0);
    lemma_kinds(radius, EntityType::Dummy);
    lemma_kinds(second, EntityType::Dummy);
    lemma_exactly(EntityType::ConicalSurface, items);
    let items = seq![name, placement, radius, second];
    let fields = schema::fields(EntityType::ToroidalSurface);
    lemma_kinds(name, EntityType::Dummy);
    lemma_kinds(placement, fields[1]->Ref_0);
    lemma_kinds(radius, EntityType::Dummy);
    lemma_kinds(second, EntityType::Dummy);
    lemma_exactly(EntityType::ToroidalSurface, items);
}

/// A vertex has a name and a point, and an edge a name, two vertices, a curve and
/// whether it runs along the curve. A loop has a name and edges.
pub proof fn law_edges_are_read(
    name: ParameterModel,
    point: ParameterModel,
    start: ParameterModel,
    end: ParameterModel,
    curve: ParameterModel,
    sense: ParameterModel,
    edges: ParameterModel,
)
    requires
        name is Text,
        point is Ref,
        start is Ref,
        end is Ref,
        curve is Ref,
        is_truth(sense),
        are_references(edges),
    ensures
        is_exactly(EntityType::VertexPoint, seq![name, point]),
        is_exactly(EntityType::EdgeCurve, seq![name, start, end, curve, sense]),
        is_exactly(EntityType::EdgeLoop, seq![name, edges]),
{
    let items = seq![name, point];
    let fields = schema::fields(EntityType::VertexPoint);
    lemma_kinds(name, EntityType::Dummy);
    lemma_kinds(point, fields[1]->Ref_0);
    lemma_exactly(EntityType::VertexPoint, items);
    let items = seq![name, start, end, curve, sense];
    let fields = schema::fields(EntityType::EdgeCurve);
    lemma_kinds(name, EntityType::Dummy);
    lemma_kinds(start, fields[1]->Ref_0);
    lemma_kinds(end, fields[2]->Ref_0);
    lemma_kinds(curve, fields[3]->Ref_0);
    lemma_kinds(sense, EntityType::Dummy);
    lemma_exactly(EntityType::EdgeCurve, items);
    let items = seq![name, edges];
    let fields = schema::fields(EntityType::EdgeLoop);
    lemma_kinds(name, EntityType::Dummy);
    lemma_kinds(edges, fields[1]->Refs_0);
    lemma_exactly(EntityType::EdgeLoop, items);
}

/// A bound of a face has a name, a loop and whether it goes round the same way. A
/// face has a name, bounds, a surface and whether it looks the same way.
pub proof fn law_faces_are_read(
    name: ParameterModel,
    edges: ParameterModel,
    sense: ParameterModel,
    bounds: ParameterModel,
    surface: ParameterModel,
)
    requires
        name is Text,
        edges is Ref,
        is_truth(sense),
        are_references(bounds),
        surface is Ref,
    ensures
        is_exactly(EntityType::FaceBound, seq![name, edges, sense]),
        is_exactly(EntityType::FaceSurface, seq![name, bounds, surface, sense]),
{
    let items = seq![name, edges, sense];
    let fields = schema::fields(EntityType::FaceBound);
    lemma_kinds(name, EntityType::Dummy);
    lemma_kinds(edges, fields[1]->Ref_0);
    lemma_kinds(sense, EntityType::Dummy);
    lemma_exactly(EntityType::FaceBound, items);
    let items = seq![name, bounds, surface, sense];
    let fields = schema::fields(EntityType::FaceSurface);
    lemma_kinds(name, EntityType::Dummy);
    lemma_kinds(bounds, fields[1]->Refs_0);
    lemma_kinds(surface, fields[2]->Ref_0);
    lemma_kinds(sense, EntityType::Dummy);
    lemma_exactly(EntityType::FaceSurface, items);
}

/// A shell has a name and faces, an oriented shell a name, a shell and whether it
/// looks the same way, and a solid a name, an outer shell and voids.
pub proof fn law_solids_are_read(
    name: ParameterModel,
    faces: ParameterModel,
    shell: ParameterModel,
    sense: ParameterModel,
    voids: ParameterModel,
)
    requires
        name is Text,
        are_references(faces),
        shell is Ref,
        is_truth(sense),
        are_references(voids),
    ensures
        is_exactly(EntityType::Shell, seq![name, faces]),
        is_exactly(EntityType::OrientedShell, seq![name, shell, sense]),
        is_exactly(EntityType::ManifoldSolidBrep, seq![name, shell, voids]),
{
    let items = seq![name, faces];
    let fields = schema::fields(EntityType::Shell);
    lemma_kinds(name, EntityType::Dummy);
    lemma_kinds(faces, fields[1]->Refs_0);
    lemma_exactly(EntityType::Shell, items);
    let items = seq![name, shell, sense];
    let fields = schema::fields(EntityType::OrientedShell);
    lemma_kinds(name, EntityType::Dummy);
    lemma_kinds(shell, fields[1]->Ref_0);
    lemma_kinds(sense, EntityType::Dummy);
    lemma_exactly(EntityType::OrientedShell, items);
    let items = seq![name, shell, voids];
    let fields = schema::fields(EntityType::ManifoldSolidBrep);
    lemma_kinds(name, EntityType::Dummy);
    lemma_kinds(shell, fields[1]->Ref_0);
    lemma_kinds(voids, fields[2]->Refs_0);
    lemma_exactly(EntityType::ManifoldSolidBrep, items);
}

} // verus!
