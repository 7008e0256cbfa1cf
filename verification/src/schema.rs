//! What the entities of a STEP file are read as: the fields of each type, the
//! names by which it stands in the place of a reference, and the records that
//! are read as it.

use vstd::prelude::*;

use crate::parameter::same_text;

verus! {

/// A type of entity. Those that stand for one of several others have no
/// fields.
#[derive(Clone, Copy, Debug, PartialEq, Eq, Structural)]
pub enum EntityType {
    CartesianPoint,
    Direction,
    Vector,
    Placement,
    Axis1Placement,
    Axis2Placement,
    Axis2Placement2d,
    Axis2Placement3d,
    CurveAny,
    Line,
    BoundedCurveAny,
    Polyline,
    BsplineCurveWithKnots,
    BezierCurve,
    QuasiUniformCurve,
    UniformCurve,
    NonRationalBsplineCurve,
    RationalBsplineCurve,
    BsplineCurveAny,
    Conic,
    Circle,
    Ellipse,
    Hyperbola,
    Parabola,
    GeometricSetSelect,
    GeometricCurveSet,
    Dummy,
    RepresentationItem,
    RepresentationContext,
    DefinitionalRepresentation,
    Pcurve,
    PcurveOrSurface,
    SurfaceCurve,
    SurfaceAny,
    ElementarySurfaceAny,
    Plane,
    SphericalSurface,
    CylindricalSurface,
    ToroidalSurface,
    DegenerateToroidalSurface,
    ConicalSurface,
    BsplineSurfaceAny,
    BsplineSurfaceWithKnots,
    UniformSurface,
    QuasiUniformSurface,
    BezierSurface,
    NonRationalBsplineSurface,
    RationalBsplineSurface,
    SweptSurfaceAny,
    SurfaceOfLinearExtrusion,
    SurfaceOfRevolution,
    VertexPoint,
    EdgeAny,
    EdgeCurve,
    OrientedEdge,
    EdgeLoop,
    VertexLoop,
    FaceBound,
    FaceAny,
    FaceSurface,
    OrientedFace,
    Shell,
    OrientedShell,
    ShellAny,
    ShellBasedSurfaceModel,
    ManifoldSolidBrep,
    ApplicationContext,
    ProductContext,
    Product,
    ProductDefinitionFormation,
    ProductDefinitionContext,
    ProductDefinition,
    CharacterizedDefinition,
    ProductDefinitionShape,
    ShapeRepresentation,
    ContextDependentShapeRepresentation,
    ShapeDefinitionRepresentation,
    ShapeRepresentationRelationship,
    ShapeRepresentationRelationshipWithTransformation,
    NextAssemblyUsageOccurrence,
    ItemDefinedTransformation,
}

/// What a parameter of an entity is read as.
#[derive(Clone, Copy, Debug, PartialEq, Eq, Structural)]
pub enum Field {
    Text,
    OptionalText,
    Whole,
    Wholes,
    Real,
    Reals,
    RealRows,
    Flag,
    Logical,
    /// One of the words for the form of a curve.
    CurveForm,
    /// One of the words for the form of a surface.
    SurfaceForm,
    /// One of the words for the knots of a spline.
    KnotForm,
    /// One of the words for what a curve on a surface is given by.
    MasterForm,
    /// One of the words for where a curve on a surface comes from.
    CurveOrigin,
    /// A reference, or what it would refer to.
    Ref(EntityType),
    OptionalRef(EntityType),
    Refs(EntityType),
    RefRows(EntityType),
}

/// The type stands for one of several others.
pub open spec fn is_choice(t: EntityType) -> bool {
    match t {
        EntityType::Axis2Placement
        | EntityType::CurveAny
        | EntityType::BoundedCurveAny
        | EntityType::NonRationalBsplineCurve
        | EntityType::BsplineCurveAny
        | EntityType::Conic
        | EntityType::GeometricSetSelect
        | EntityType::PcurveOrSurface
        | EntityType::SurfaceAny
        | EntityType::ElementarySurfaceAny
        | EntityType::BsplineSurfaceAny
        | EntityType::NonRationalBsplineSurface
        | EntityType::SweptSurfaceAny
        | EntityType::EdgeAny
        | EntityType::FaceAny
        | EntityType::ShellAny
        | EntityType::CharacterizedDefinition => true,
        _ => false,
    }
}

/// The fields of a type, in their order.
pub open spec fn fields(t: EntityType) -> Seq<Field> {
    match t {
        EntityType::CartesianPoint
        | EntityType::Direction => seq![Field::Text, Field::Reals],
        EntityType::Vector => seq![Field::Text, Field::Ref(EntityType::Direction), Field::Real],
        EntityType::Placement
        | EntityType::VertexPoint => seq![Field::Text, Field::Ref(EntityType::CartesianPoint)],
        EntityType::Axis1Placement
        | EntityType::Axis2Placement2d => seq![
            Field::Text,
            Field::Ref(EntityType::CartesianPoint),
            Field::OptionalRef(EntityType::Direction),
        ],
        EntityType::Axis2Placement3d => seq![
            Field::Text,
            Field::Ref(EntityType::CartesianPoint),
            Field::OptionalRef(EntityType::Direction),
            Field::OptionalRef(EntityType::Direction),
        ],
        EntityType::Line => seq![
            Field::Text,
            Field::Ref(EntityType::CartesianPoint),
            Field::Ref(EntityType::Vector),
        ],
        EntityType::Polyline => seq![Field::Text, Field::Refs(EntityType::CartesianPoint)],
        EntityType::BsplineCurveWithKnots => seq![
            Field::Text,
            Field::Whole,
            Field::Refs(EntityType::CartesianPoint),
            Field::CurveForm,
            Field::Logical,
            Field::Logical,
            Field::Wholes,
            Field::Reals,
            Field::KnotForm,
        ],
        EntityType::BezierCurve
        | EntityType::QuasiUniformCurve
        | EntityType::UniformCurve => seq![
            Field::Text,
            Field::Whole,
            Field::Refs(EntityType::CartesianPoint),
            Field::CurveForm,
            Field::Logical,
            Field::Logical,
        ],
        EntityType::RationalBsplineCurve => seq![Field::Ref(EntityType::NonRationalBsplineCurve), Field::Reals],
        EntityType::Circle
        | EntityType::Parabola => seq![Field::Text, Field::Ref(EntityType::Axis2Placement), Field::Real],
        EntityType::Ellipse
        | EntityType::Hyperbola => seq![Field::Text, Field::Ref(EntityType::Axis2Placement), Field::Real, Field::Real],
        EntityType::GeometricCurveSet => seq![Field::Text, Field::Refs(EntityType::GeometricSetSelect)],
        EntityType::Dummy => seq![Field::Text, Field::Flag],
        EntityType::RepresentationItem
        | EntityType::ApplicationContext => seq![Field::Text],
        EntityType::RepresentationContext => seq![Field::Text, Field::Text],
        EntityType::DefinitionalRepresentation => seq![Field::Text, Field::Refs(EntityType::CurveAny), Field::Ref(EntityType::Dummy)],
        EntityType::Pcurve => seq![
            Field::Text,
            Field::Ref(EntityType::SurfaceAny),
            Field::Ref(EntityType::DefinitionalRepresentation),
        ],
        EntityType::SurfaceCurve => seq![
            Field::Text,
            Field::Ref(EntityType::CurveAny),
            Field::Refs(EntityType::PcurveOrSurface),
            Field::MasterForm,
            Field::CurveOrigin,
        ],
        EntityType::Plane => seq![Field::Text, Field::Ref(EntityType::Axis2Placement3d)],
        EntityType::SphericalSurface
        | EntityType::CylindricalSurface => seq![Field::Text, Field::Ref(EntityType::Axis2Placement3d), Field::Real],
        EntityType::ToroidalSurface
        | EntityType::ConicalSurface => seq![
            Field::Text,
            Field::Ref(EntityType::Axis2Placement3d),
            Field::Real,
            Field::Real,
        ],
        EntityType::DegenerateToroidalSurface => seq![
            Field::Text,
            Field::Ref(EntityType::Axis2Placement3d),
            Field::Real,
            Field::Real,
            Field::Flag,
        ],
        EntityType::BsplineSurfaceWithKnots => seq![
            Field::Text,
            Field::Whole,
            Field::Whole,
            Field::RefRows(EntityType::CartesianPoint),
            Field::SurfaceForm,
            Field::Logical,
            Field::Logical,
            Field::Logical,
            Field::Wholes,
            Field::Wholes,
            Field::Reals,
            Field::Reals,
            Field::KnotForm,
        ],
        EntityType::UniformSurface
        | EntityType::QuasiUniformSurface
        | EntityType::BezierSurface => seq![
            Field::Text,
            Field::Whole,
            Field::Whole,
            Field::RefRows(EntityType::CartesianPoint),
            Field::SurfaceForm,
            Field::Logical,
            Field::Logical,
            Field::Logical,
        ],
        EntityType::RationalBsplineSurface => seq![Field::Ref(EntityType::NonRationalBsplineSurface), Field::RealRows],
        EntityType::SurfaceOfLinearExtrusion => seq![Field::Text, Field::Ref(EntityType::CurveAny), Field::Ref(EntityType::Vector)],
        EntityType::SurfaceOfRevolution => seq![
            Field::Text,
            Field::Ref(EntityType::CurveAny),
            Field::Ref(EntityType::Axis1Placement),
        ],
        EntityType::EdgeCurve => seq![
            Field::Text,
            Field::Ref(EntityType::VertexPoint),
            Field::Ref(EntityType::VertexPoint),
            Field::Ref(EntityType::CurveAny),
            Field::Flag,
        ],
        EntityType::OrientedEdge => seq![Field::Text, Field::Ref(EntityType::EdgeCurve), Field::Flag],
        EntityType::EdgeLoop => seq![Field::Text, Field::Refs(EntityType::EdgeAny)],
        EntityType::VertexLoop => seq![Field::Text, Field::Ref(EntityType::VertexPoint)],
        EntityType::FaceBound => seq![Field::Text, Field::Ref(EntityType::EdgeLoop), Field::Flag],
        EntityType::FaceSurface => seq![
            Field::Text,
            Field::Refs(EntityType::FaceBound),
            Field::Ref(EntityType::SurfaceAny),
            Field::Flag,
        ],
        EntityType::OrientedFace => seq![Field::Text, Field::Ref(EntityType::FaceSurface), Field::Flag],
        EntityType::Shell => seq![Field::Text, Field::Refs(EntityType::FaceAny)],
        EntityType::OrientedShell => seq![Field::Text, Field::Ref(EntityType::Shell), Field::Flag],
        EntityType::ShellBasedSurfaceModel => seq![Field::Text, Field::Refs(EntityType::ShellAny)],
        EntityType::ManifoldSolidBrep => seq![
            Field::Text,
            Field::Ref(EntityType::ShellAny),
            Field::Refs(EntityType::OrientedShell),
        ],
        EntityType::ProductContext
        | EntityType::ProductDefinitionContext => seq![Field::Text, Field::Ref(EntityType::ApplicationContext), Field::Text],
        EntityType::Product => seq![
            Field::Text,
            Field::Text,
            Field::OptionalText,
            Field::Refs(EntityType::ProductContext),
        ],
        EntityType::ProductDefinitionFormation => seq![Field::Text, Field::OptionalText, Field::Ref(EntityType::Product)],
        EntityType::ProductDefinition => seq![
            Field::Text,
            Field::Text,
            Field::Ref(EntityType::ProductDefinitionFormation),
            Field::Ref(EntityType::ProductDefinitionContext),
        ],
        EntityType::ProductDefinitionShape => seq![
            Field::OptionalText,
            Field::OptionalText,
            Field::Ref(EntityType::CharacterizedDefinition),
        ],
        EntityType::ShapeRepresentation => seq![
            Field::Text,
            Field::Refs(EntityType::RepresentationItem),
            Field::Ref(EntityType::RepresentationContext),
        ],
        EntityType::ContextDependentShapeRepresentation => seq![
            Field::Ref(EntityType::ShapeRepresentationRelationshipWithTransformation),
            Field::Ref(EntityType::ProductDefinitionShape),
        ],
        EntityType::ShapeDefinitionRepresentation => seq![
            Field::Ref(EntityType::ProductDefinitionShape),
            Field::Ref(EntityType::ShapeRepresentation),
        ],
        EntityType::ShapeRepresentationRelationship => seq![
            Field::OptionalText,
            Field::OptionalText,
            Field::Ref(EntityType::ShapeRepresentation),
            Field::Ref(EntityType::ShapeRepresentation),
        ],
        EntityType::ShapeRepresentationRelationshipWithTransformation => seq![
            Field::OptionalText,
            Field::OptionalText,
            Field::Ref(EntityType::ShapeRepresentation),
            Field::Ref(EntityType::ShapeRepresentation),
            Field::Ref(EntityType::ItemDefinedTransformation),
        ],
        EntityType::NextAssemblyUsageOccurrence => seq![
            Field::Text,
            Field::Text,
            Field::Text,
            Field::Ref(EntityType::ProductDefinition),
            Field::Ref(EntityType::ProductDefinition),
            Field::OptionalText,
        ],
        EntityType::ItemDefinedTransformation => seq![
            Field::OptionalText,
            Field::OptionalText,
            Field::Ref(EntityType::Axis2Placement),
            Field::Ref(EntityType::Axis2Placement),
        ],
        _ => Seq::empty(),
    }
}

pub open spec fn named(keyword: Seq<char>, name: Seq<char>, t: EntityType) -> Option<EntityType> {
    if keyword == name {
        Some(t)
    } else {
        None
    }
}

/// What an inline entity with the keyword is read as where the type is asked
/// for. One that stands for several others goes by their keywords.
pub open spec fn inline_type(t: EntityType, keyword: Seq<char>) -> Option<EntityType> {
    match t {
        EntityType::CartesianPoint => named(keyword, "CARTESIAN_POINT"@, t),
        EntityType::Direction => named(keyword, "DIRECTION"@, t),
        EntityType::Vector => named(keyword, "VECTOR"@, t),
        EntityType::Placement => named(keyword, "PLACEMENT"@, t),
        EntityType::Axis1Placement => named(keyword, "AXIS_1_PLACEMENT"@, t),
        EntityType::Axis2Placement => if keyword == "AXIS_2_PLACEMENT_2D"@ {
            Some(EntityType::Axis2Placement2d)
        } else if keyword == "AXIS_2_PLACEMENT_3D"@ {
            Some(EntityType::Axis2Placement3d)
        } else {
            None
        },
        EntityType::Axis2Placement2d => named(keyword, "AXIS_2_PLACEMENT_2D"@, t),
        EntityType::Axis2Placement3d => named(keyword, "AXIS_2_PLACEMENT_3D"@, t),
        EntityType::CurveAny => if keyword == "LINE"@ {
            Some(EntityType::Line)
        } else if keyword == "BOUNDED_CURVE"@ {
            Some(EntityType::BoundedCurveAny)
        } else if keyword == "CONIC"@ {
            Some(EntityType::Conic)
        } else if keyword == "PCURVE"@ {
            Some(EntityType::Pcurve)
        } else if keyword == "SURFACE_CURVE"@ {
            Some(EntityType::SurfaceCurve)
        } else {
            None
        },
        EntityType::Line => named(keyword, "LINE"@, t),
        EntityType::BoundedCurveAny => if keyword == "POLYLINE"@ {
            Some(EntityType::Polyline)
        } else if keyword == "BSPLINE_CURVE"@ {
            Some(EntityType::BsplineCurveAny)
        } else {
            None
        },
        EntityType::Polyline => named(keyword, "POLYLINE"@, t),
        EntityType::BsplineCurveWithKnots => named(keyword, "BSPLINE_CURVE_WITH_KNOTS"@, t),
        EntityType::BezierCurve => named(keyword, "BEZIER_CURVE"@, t),
        EntityType::QuasiUniformCurve => named(keyword, "QUASI_UNIFORM_CURVE"@, t),
        EntityType::UniformCurve => named(keyword, "UNIFORM_CURVE"@, t),
        EntityType::NonRationalBsplineCurve => if keyword == "BSPLINE_CURVE_WITH_KNOTS"@ {
            Some(EntityType::BsplineCurveWithKnots)
        } else if keyword == "BEZIER_CURVE"@ {
            Some(EntityType::BezierCurve)
        } else if keyword == "QUASI_UNIFORM_CURVE"@ {
            Some(EntityType::QuasiUniformCurve)
        } else if keyword == "UNIFORM_CURVE"@ {
            Some(EntityType::UniformCurve)
        } else {
            None
        },
        EntityType::RationalBsplineCurve => named(keyword, "RATIONAL_BSPLINE_CURVE"@, t),
        EntityType::BsplineCurveAny => if keyword == "NON_RATIONAL_BSPLINE_CURVE"@ {
            Some(EntityType::NonRationalBsplineCurve)
        } else if keyword == "RATIONAL_BSPLINE_CURVE"@ {
            Some(EntityType::RationalBsplineCurve)
        } else {
            None
        },
        EntityType::Conic => if keyword == "CIRCLE"@ {
            Some(EntityType::Circle)
        } else if keyword == "ELLIPSE"@ {
            Some(EntityType::Ellipse)
        } else if keyword == "HYPERBOLA"@ {
            Some(EntityType::Hyperbola)
        } else if keyword == "PARABOLA"@ {
            Some(EntityType::Parabola)
        } else {
            None
        },
        EntityType::Circle => named(keyword, "CIRCLE"@, t),
        EntityType::Ellipse => named(keyword, "ELLIPSE"@, t),
        EntityType::Hyperbola => named(keyword, "HYPERBOLA"@, t),
        EntityType::Parabola => named(keyword, "PARABOLA"@, t),
        EntityType::GeometricSetSelect => if keyword == "CURVE"@ {
            Some(EntityType::CurveAny)
        } else if keyword == "POINT"@ {
            Some(EntityType::CartesianPoint)
        } else {
            None
        },
        EntityType::GeometricCurveSet => named(keyword, "GEOMETRIC_CURVE_SET"@, t),
        EntityType::Dummy => named(keyword, "DUMMY"@, t),
        EntityType::RepresentationItem => named(keyword, "REPRESENTATION_ITEM"@, t),
        EntityType::RepresentationContext => named(keyword, "REPRESENTATION_CONTEXT"@, t),
        EntityType::DefinitionalRepresentation => named(
            keyword,
            "DEFINITIONAL_REPRESENTATION"@,
            t,
        ),
        EntityType::Pcurve => named(keyword, "PCURVE"@, t),
        EntityType::PcurveOrSurface => if keyword == "PCURVE"@ {
            Some(EntityType::Pcurve)
        } else if keyword == "SURFACE"@ {
            Some(EntityType::SurfaceAny)
        } else {
            None
        },
        EntityType::SurfaceCurve => named(keyword, "SURFACE_CURVE"@, t),
        EntityType::SurfaceAny => if keyword == "ELEMENTARY_SURFACE"@ {
            Some(EntityType::ElementarySurfaceAny)
        } else if keyword == "BSPLINE_SURFACE"@ {
            Some(EntityType::BsplineSurfaceAny)
        } else if keyword == "SWEPT_SURFACE"@ {
            Some(EntityType::SweptSurfaceAny)
        } else {
            None
        },
        EntityType::ElementarySurfaceAny => if keyword == "PLANE"@ {
            Some(EntityType::Plane)
        } else if keyword == "SPHERICAL_SURFACE"@ {
            Some(EntityType::SphericalSurface)
        } else if keyword == "CYLINDRICAL_SURFACE"@ {
            Some(EntityType::CylindricalSurface)
        } else if keyword == "TOROIDAL_SURFACE"@ {
            Some(EntityType::ToroidalSurface)
        } else if keyword == "DEGENERATE_TOROIDAL_SURFACE"@ {
            Some(EntityType::DegenerateToroidalSurface)
        } else if keyword == "CONICAL_SURFACE"@ {
            Some(EntityType::ConicalSurface)
        } else {
            None
        },
        EntityType::Plane => named(keyword, "PLANE"@, t),
        EntityType::SphericalSurface => named(keyword, "SPHERICAL_SURFACE"@, t),
        EntityType::CylindricalSurface => named(keyword, "CYLINDRICAL_SURFACE"@, t),
        EntityType::ToroidalSurface => named(keyword, "TOROIDAL_SURFACE"@, t),
        EntityType::DegenerateToroidalSurface => named(keyword, "DEGENERATE_TOROIDAL_SURFACE"@, t),
        EntityType::ConicalSurface => named(keyword, "CONICAL_SURFACE"@, t),
        EntityType::BsplineSurfaceAny => if keyword == "NON_RATIONAL_BSPLINE_SURFACE"@ {
            Some(EntityType::NonRationalBsplineSurface)
        } else if keyword == "RATIONAL_BSPLINE_SURFACE"@ {
            Some(EntityType::RationalBsplineSurface)
        } else {
            None
        },
        EntityType::BsplineSurfaceWithKnots => named(keyword, "BSPLINE_SURFACE_WITH_KNOTS"@, t),
        EntityType::UniformSurface => named(keyword, "UNIFORM_SURFACE"@, t),
        EntityType::QuasiUniformSurface => named(keyword, "QUASI_UNIFORM_SURFACE"@, t),
        EntityType::BezierSurface => named(keyword, "BEZIER_SURFACE"@, t),
        EntityType::NonRationalBsplineSurface => if keyword == "BSPLINE_SURFACE_WITH_KNOTS"@ {
            Some(EntityType::BsplineSurfaceWithKnots)
        } else if keyword == "UNIFORM_SURFACE"@ {
            Some(EntityType::UniformSurface)
        } else if keyword == "QUASI_UNIFORM_SURFACE"@ {
            Some(EntityType::QuasiUniformSurface)
        } else if keyword == "BEZIER_SURFACE"@ {
            Some(EntityType::BezierSurface)
        } else {
            None
        },
        EntityType::RationalBsplineSurface => named(keyword, "RATIONAL_BSPLINE_SURFACE"@, t),
        EntityType::SweptSurfaceAny => if keyword == "SURFACE_OF_LINEAR_EXTRUSION"@ {
            Some(EntityType::SurfaceOfLinearExtrusion)
        } else if keyword == "SURFACE_OF_REVOLUTION"@ {
            Some(EntityType::SurfaceOfRevolution)
        } else {
            None
        },
        EntityType::SurfaceOfLinearExtrusion => named(keyword, "SURFACE_OF_LINEAR_EXTRUSION"@, t),
        EntityType::SurfaceOfRevolution => named(keyword, "SURFACE_OF_REVOLUTION"@, t),
        EntityType::VertexPoint => named(keyword, "VERTEX_POINT"@, t),
        EntityType::EdgeAny => if keyword == "EDGE_CURVE"@ {
            Some(EntityType::EdgeCurve)
        } else if keyword == "ORIENTED_EDGE"@ {
            Some(EntityType::OrientedEdge)
        } else {
            None
        },
        EntityType::EdgeCurve => named(keyword, "EDGE_CURVE"@, t),
        EntityType::OrientedEdge => named(keyword, "ORIENTED_EDGE"@, t),
        EntityType::EdgeLoop => named(keyword, "EDGE_LOOP"@, t),
        EntityType::VertexLoop => named(keyword, "VERTEX_LOOP"@, t),
        EntityType::FaceBound => named(keyword, "FACE_BOUND"@, t),
        EntityType::FaceAny => if keyword == "FACE_SURFACE"@ {
            Some(EntityType::FaceSurface)
        } else if keyword == "ORIENTED_FACE"@ {
            Some(EntityType::OrientedFace)
        } else {
            None
        },
        EntityType::FaceSurface => named(keyword, "FACE_SURFACE"@, t),
        EntityType::OrientedFace => named(keyword, "ORIENTED_FACE"@, t),
        EntityType::Shell => named(keyword, "SHELL"@, t),
        EntityType::OrientedShell => named(keyword, "ORIENTED_SHELL"@, t),
        EntityType::ShellAny => if keyword == "SHELL"@ {
            Some(EntityType::Shell)
        } else if keyword == "ORIENTED_SHELL"@ {
            Some(EntityType::OrientedShell)
        } else {
            None
        },
        EntityType::ShellBasedSurfaceModel => named(keyword, "SHELL_BASED_SURFACE_MODEL"@, t),
        EntityType::ManifoldSolidBrep => named(keyword, "MANIFOLD_SOLID_BREP"@, t),
        EntityType::ApplicationContext => named(keyword, "APPLICATION_CONTEXT"@, t),
        EntityType::ProductContext => named(keyword, "PRODUCT_CONTEXT"@, t),
        EntityType::Product => named(keyword, "PRODUCT"@, t),
        EntityType::ProductDefinitionFormation => named(
            keyword,
            "PRODUCT_DEFINITION_FORMATION"@,
            t,
        ),
        EntityType::ProductDefinitionContext => named(keyword, "PRODUCT_DEFINITION_CONTEXT"@, t),
        EntityType::ProductDefinition => named(keyword, "PRODUCT_DEFINITION"@, t),
        EntityType::CharacterizedDefinition => if keyword == "PRODUCT_DEFINITION"@ {
            Some(EntityType::ProductDefinition)
        } else if keyword == "PRODUCT_DEFINITION_SHAPE"@ {
            Some(EntityType::ProductDefinitionShape)
        } else {
            None
        },
        EntityType::ProductDefinitionShape => named(keyword, "PRODUCT_DEFINITION_SHAPE"@, t),
        EntityType::ShapeRepresentation => named(keyword, "SHAPE_REPRESENTATION"@, t),
        EntityType::ContextDependentShapeRepresentation => named(
            keyword,
            "CONTEXT_DEPENDENT_SHAPE_REPRESENTATION"@,
            t,
        ),
        EntityType::ShapeDefinitionRepresentation => named(
            keyword,
            "SHAPE_DEFINITION_REPRESENTATION"@,
            t,
        ),
        EntityType::ShapeRepresentationRelationship => named(
            keyword,
            "SHAPE_REPRESENTATION_RELATIONSHIP"@,
            t,
        ),
        EntityType::ShapeRepresentationRelationshipWithTransformation => named(
            keyword,
            "SHAPE_REPRESENTATION_RELATIONSHIP_WITH_TRANSFORMATION"@,
            t,
        ),
        EntityType::NextAssemblyUsageOccurrence => named(
            keyword,
            "NEXT_ASSEMBLY_USAGE_OCCURRENCE"@,
            t,
        ),
        EntityType::ItemDefinedTransformation => named(keyword, "ITEM_DEFINED_TRANSFORMATION"@, t),
    }
}

/// What a record of geometry is read as, if it is read as a whole.
pub open spec fn shape_record(name: Seq<char>) -> Option<EntityType> {
    if name == "CARTESIAN_POINT"@ {
        Some(EntityType::CartesianPoint)
    } else if name == "DIRECTION"@ {
        Some(EntityType::Direction)
    } else if name == "VECTOR"@ {
        Some(EntityType::Vector)
    } else if name == "PLACEMENT"@ {
        Some(EntityType::Placement)
    } else if name == "AXIS1_PLACEMENT"@ {
        Some(EntityType::Axis1Placement)
    } else if name == "AXIS2_PLACEMENT_2D"@ {
        Some(EntityType::Axis2Placement2d)
    } else if name == "AXIS2_PLACEMENT_3D"@ {
        Some(EntityType::Axis2Placement3d)
    } else if name == "LINE"@ {
        Some(EntityType::Line)
    } else if name == "POLYLINE"@ {
        Some(EntityType::Polyline)
    } else if name == "B_SPLINE_CURVE_WITH_KNOTS"@ {
        Some(EntityType::BsplineCurveWithKnots)
    } else if name == "BEZIER_CURVE"@ {
        Some(EntityType::BezierCurve)
    } else if name == "QUASI_UNIFORM_CURVE"@ {
        Some(EntityType::QuasiUniformCurve)
    } else if name == "UNIFORM_CURVE"@ {
        Some(EntityType::UniformCurve)
    } else if name == "CIRCLE"@ {
        Some(EntityType::Circle)
    } else if name == "ELLIPSE"@ {
        Some(EntityType::Ellipse)
    } else if name == "HYPERBOLA"@ {
        Some(EntityType::Hyperbola)
    } else if name == "PARABOLA"@ {
        Some(EntityType::Parabola)
    } else if name == "PCURVE"@ {
        Some(EntityType::Pcurve)
    } else if name == "PLANE"@ {
        Some(EntityType::Plane)
    } else if name == "SPHERICAL_SURFACE"@ {
        Some(EntityType::SphericalSurface)
    } else if name == "CYLINDRICAL_SURFACE"@ {
        Some(EntityType::CylindricalSurface)
    } else if name == "TOROIDAL_SURFACE"@ {
        Some(EntityType::ToroidalSurface)
    } else if name == "DEGENERATE_TOROIDAL_SURFACE"@ {
        Some(EntityType::DegenerateToroidalSurface)
    } else if name == "CONICAL_SURFACE"@ {
        Some(EntityType::ConicalSurface)
    } else if name == "B_SPLINE_SURFACE_WITH_KNOTS"@ {
        Some(EntityType::BsplineSurfaceWithKnots)
    } else if name == "UNIFORM_SURFACE"@ {
        Some(EntityType::UniformSurface)
    } else if name == "QUASI_UNIFORM_SURFACE"@ {
        Some(EntityType::QuasiUniformSurface)
    } else if name == "BEZIER_SURFACE"@ {
        Some(EntityType::BezierSurface)
    } else if name == "SURFACE_OF_LINEAR_EXTRUSION"@ {
        Some(EntityType::SurfaceOfLinearExtrusion)
    } else if name == "SURFACE_OF_REVOLUTION"@ {
        Some(EntityType::SurfaceOfRevolution)
    } else {
        None
    }
}

/// What a record of topology is read as, if it is read as a whole.
pub open spec fn solid_record(name: Seq<char>) -> Option<EntityType> {
    if name == "VERTEX_POINT"@ {
        Some(EntityType::VertexPoint)
    } else if name == "EDGE_CURVE"@ {
        Some(EntityType::EdgeCurve)
    } else if name == "EDGE_LOOP"@ {
        Some(EntityType::EdgeLoop)
    } else if name == "VERTEX_LOOP"@ {
        Some(EntityType::VertexLoop)
    } else if name == "FACE_BOUND"@ {
        Some(EntityType::FaceBound)
    } else if name == "FACE_OUTER_BOUND"@ {
        Some(EntityType::FaceBound)
    } else if name == "FACE_SURFACE"@ {
        Some(EntityType::FaceSurface)
    } else if name == "ADVANCED_FACE"@ {
        Some(EntityType::FaceSurface)
    } else if name == "OPEN_SHELL"@ {
        Some(EntityType::Shell)
    } else if name == "CLOSED_SHELL"@ {
        Some(EntityType::Shell)
    } else if name == "SHELL_BASED_SURFACE_MODEL"@ {
        Some(EntityType::ShellBasedSurfaceModel)
    } else if name == "BREP_WITH_VOIDS"@ {
        Some(EntityType::ManifoldSolidBrep)
    } else if name == "GEOMETRIC_CURVE_SET"@ {
        Some(EntityType::GeometricCurveSet)
    } else {
        None
    }
}

/// What a record of a product is read as, if it is read as a whole.
pub open spec fn product_record(name: Seq<char>) -> Option<EntityType> {
    if name == "APPLICATION_CONTEXT"@ {
        Some(EntityType::ApplicationContext)
    } else if name == "PRODUCT_CONTEXT"@ {
        Some(EntityType::ProductContext)
    } else if name == "PRODUCT"@ {
        Some(EntityType::Product)
    } else if name == "PRODUCT_DEFINITION_FORMATION"@ {
        Some(EntityType::ProductDefinitionFormation)
    } else if name == "PRODUCT_DEFINITION_CONTEXT"@ {
        Some(EntityType::ProductDefinitionContext)
    } else if name == "PRODUCT_DEFINITION"@ {
        Some(EntityType::ProductDefinition)
    } else if name == "PRODUCT_DEFINITION_SHAPE"@ {
        Some(EntityType::ProductDefinitionShape)
    } else if name == "SHAPE_DEFINITION_REPRESENTATION"@ {
        Some(EntityType::ShapeDefinitionRepresentation)
    } else if name == "SHAPE_REPRESENTATION"@ {
        Some(EntityType::ShapeRepresentation)
    } else if name == "ADVANCED_BREP_SHAPE_REPRESENTATION"@ {
        Some(EntityType::ShapeRepresentation)
    } else if name == "CONTEXT_DEPENDENT_SHAPE_REPRESENTATION"@ {
        Some(EntityType::ContextDependentShapeRepresentation)
    } else if name == "SHAPE_REPRESENTATION_RELATIONSHIP"@ {
        Some(EntityType::ShapeRepresentationRelationship)
    } else if name == "NEXT_ASSEMBLY_USAGE_OCCURRENCE"@ {
        Some(EntityType::NextAssemblyUsageOccurrence)
    } else if name == "ITEM_DEFINED_TRANSFORMATION"@ {
        Some(EntityType::ItemDefinedTransformation)
    } else {
        None
    }
}

/// What a record is read as, if it is read as a whole.
pub open spec fn record_type(name: Seq<char>) -> Option<EntityType> {
    if shape_record(name) is Some {
        shape_record(name)
    } else if solid_record(name) is Some {
        solid_record(name)
    } else {
        product_record(name)
    }
}

/// A parameter that is read, by its place.
#[derive(Clone, Copy, Debug, PartialEq, Eq, Structural)]
pub struct Pick {
    pub place: usize,
    pub field: Field,
}

/// The parameters that are read of a record which is not read as a whole, in
/// the order in which that happens, and the number of parameters that the record
/// must have for that, or zero for any.
pub open spec fn record_picks(name: Seq<char>) -> Option<(usize, Seq<Pick>)> {
    if name == "SURFACE_CURVE"@ || name == "SEAM_CURVE"@ || name == "INTERSECTION_CURVE"@ {
        Some(
            (
                0,
                seq![
                    Pick { place: 0, field: Field::Text },
                    Pick { place: 1, field: Field::Ref(EntityType::CurveAny) },
                    Pick { place: 2, field: Field::Refs(EntityType::PcurveOrSurface) },
                    Pick { place: 3, field: Field::MasterForm },
                ],
            ),
        )
    } else if name == "ORIENTED_EDGE"@ {
        Some(
            (
                5,
                seq![
                    Pick { place: 0, field: Field::Text },
                    Pick { place: 3, field: Field::Ref(EntityType::EdgeCurve) },
                    Pick { place: 4, field: Field::Flag },
                ],
            ),
        )
    } else if name == "ORIENTED_FACE"@ {
        Some(
            (
                4,
                seq![
                    Pick { place: 0, field: Field::Text },
                    Pick { place: 2, field: Field::Ref(EntityType::FaceSurface) },
                    Pick { place: 3, field: Field::Flag },
                ],
            ),
        )
    } else if name == "ORIENTED_OPEN_SHELL"@ || name == "ORIENTED_CLOSED_SHELL"@ {
        Some(
            (
                4,
                seq![
                    Pick { place: 0, field: Field::Text },
                    Pick { place: 2, field: Field::Ref(EntityType::Shell) },
                    Pick { place: 3, field: Field::Flag },
                ],
            ),
        )
    } else if name == "MANIFOLD_SOLID_BREP"@ {
        Some(
            (
                2,
                seq![
                    Pick { place: 0, field: Field::Text },
                    Pick { place: 1, field: Field::Ref(EntityType::ShellAny) },
                ],
            ),
        )
    } else if name == "DEFINITIONAL_REPRESENTATION"@ {
        Some(
            (
                3,
                seq![
                    Pick { place: 0, field: Field::Text },
                    Pick { place: 1, field: Field::Refs(EntityType::CurveAny) },
                ],
            ),
        )
    } else if name == "PRODUCT_DEFINITION_FORMATION_WITH_SPECIFIED_SOURCE"@ {
        Some(
            (
                0,
                seq![
                    Pick { place: 0, field: Field::Text },
                    Pick { place: 1, field: Field::OptionalText },
                    Pick { place: 2, field: Field::Ref(EntityType::Product) },
                ],
            ),
        )
    } else {
        None
    }
}

pub(crate) fn is_word(name: &str, word: &str) -> (r: bool)
    ensures
        r == (name@ == word@),
{
    if name.is_empty() || word.is_empty() {
        assert(name@.len() == 0 ==> name@ =~= Seq::empty());
        assert(word@.len() == 0 ==> word@ =~= Seq::empty());
        return name.is_empty() && word.is_empty();
    }
    name.get_char(0) == word.get_char(0) && name.unicode_len() == word.unicode_len() && same_text(
        name,
        word,
    )
}

pub(crate) fn stands_for_others(t: EntityType) -> (r: bool)
    ensures
        r == is_choice(t),
{
    match t {
        EntityType::Axis2Placement
        | EntityType::CurveAny
        | EntityType::BoundedCurveAny
        | EntityType::NonRationalBsplineCurve
        | EntityType::BsplineCurveAny
        | EntityType::Conic
        | EntityType::GeometricSetSelect
        | EntityType::PcurveOrSurface
        | EntityType::SurfaceAny
        | EntityType::ElementarySurfaceAny
        | EntityType::BsplineSurfaceAny
        | EntityType::NonRationalBsplineSurface
        | EntityType::SweptSurfaceAny
        | EntityType::EdgeAny
        | EntityType::FaceAny
        | EntityType::ShellAny
        | EntityType::CharacterizedDefinition => true,
        _ => false,
    }
}

pub(crate) fn fields_of(t: EntityType) -> (r: Vec<Field>)
    ensures
        r@ == fields(t),
{
    let r = match t {
        EntityType::CartesianPoint
        | EntityType::Direction => vec![Field::Text, Field::Reals],
        EntityType::Vector => vec![Field::Text, Field::Ref(EntityType::Direction), Field::Real],
        EntityType::Placement
        | EntityType::VertexPoint => vec![Field::Text, Field::Ref(EntityType::CartesianPoint)],
        EntityType::Axis1Placement
        | EntityType::Axis2Placement2d => vec![
            Field::Text,
            Field::Ref(EntityType::CartesianPoint),
            Field::OptionalRef(EntityType::Direction),
        ],
        EntityType::Axis2Placement3d => vec![
            Field::Text,
            Field::Ref(EntityType::CartesianPoint),
            Field::OptionalRef(EntityType::Direction),
            Field::OptionalRef(EntityType::Direction),
        ],
        EntityType::Line => vec![
            Field::Text,
            Field::Ref(EntityType::CartesianPoint),
            Field::Ref(EntityType::Vector),
        ],
        EntityType::Polyline => vec![Field::Text, Field::Refs(EntityType::CartesianPoint)],
        EntityType::BsplineCurveWithKnots => vec![
            Field::Text,
            Field::Whole,
            Field::Refs(EntityType::CartesianPoint),
            Field::CurveForm,
            Field::Logical,
            Field::Logical,
            Field::Wholes,
            Field::Reals,
            Field::KnotForm,
        ],
        EntityType::BezierCurve
        | EntityType::QuasiUniformCurve
        | EntityType::UniformCurve => vec![
            Field::Text,
            Field::Whole,
            Field::Refs(EntityType::CartesianPoint),
            Field::CurveForm,
            Field::Logical,
            Field::Logical,
        ],
        EntityType::RationalBsplineCurve => vec![Field::Ref(EntityType::NonRationalBsplineCurve), Field::Reals],
        EntityType::Circle
        | EntityType::Parabola => vec![Field::Text, Field::Ref(EntityType::Axis2Placement), Field::Real],
        EntityType::Ellipse
        | EntityType::Hyperbola => vec![Field::Text, Field::Ref(EntityType::Axis2Placement), Field::Real, Field::Real],
        EntityType::GeometricCurveSet => vec![Field::Text, Field::Refs(EntityType::GeometricSetSelect)],
        EntityType::Dummy => vec![Field::Text, Field::Flag],
        EntityType::RepresentationItem
        | EntityType::ApplicationContext => vec![Field::Text],
        EntityType::RepresentationContext => vec![Field::Text, Field::Text],
        EntityType::DefinitionalRepresentation => vec![Field::Text, Field::Refs(EntityType::CurveAny), Field::Ref(EntityType::Dummy)],
        EntityType::Pcurve => vec![
            Field::Text,
            Field::Ref(EntityType::SurfaceAny),
            Field::Ref(EntityType::DefinitionalRepresentation),
        ],
        EntityType::SurfaceCurve => vec![
            Field::Text,
            Field::Ref(EntityType::CurveAny),
            Field::Refs(EntityType::PcurveOrSurface),
            Field::MasterForm,
            Field::CurveOrigin,
        ],
        EntityType::Plane => vec![Field::Text, Field::Ref(EntityType::Axis2Placement3d)],
        EntityType::SphericalSurface
        | EntityType::CylindricalSurface => vec![Field::Text, Field::Ref(EntityType::Axis2Placement3d), Field::Real],
        EntityType::ToroidalSurface
        | EntityType::ConicalSurface => vec![
            Field::Text,
            Field::Ref(EntityType::Axis2Placement3d),
            Field::Real,
            Field::Real,
        ],
        EntityType::DegenerateToroidalSurface => vec![
            Field::Text,
            Field::Ref(EntityType::Axis2Placement3d),
            Field::Real,
            Field::Real,
            Field::Flag,
        ],
        EntityType::BsplineSurfaceWithKnots => vec![
            Field::Text,
            Field::Whole,
            Field::Whole,
            Field::RefRows(EntityType::CartesianPoint),
            Field::SurfaceForm,
            Field::Logical,
            Field::Logical,
            Field::Logical,
            Field::Wholes,
            Field::Wholes,
            Field::Reals,
            Field::Reals,
            Field::KnotForm,
        ],
        EntityType::UniformSurface
        | EntityType::QuasiUniformSurface
        | EntityType::BezierSurface => vec![
            Field::Text,
            Field::Whole,
            Field::Whole,
            Field::RefRows(EntityType::CartesianPoint),
            Field::SurfaceForm,
            Field::Logical,
            Field::Logical,
            Field::Logical,
        ],
        EntityType::RationalBsplineSurface => vec![Field::Ref(EntityType::NonRationalBsplineSurface), Field::RealRows],
        EntityType::SurfaceOfLinearExtrusion => vec![Field::Text, Field::Ref(EntityType::CurveAny), Field::Ref(EntityType::Vector)],
        EntityType::SurfaceOfRevolution => vec![
            Field::Text,
            Field::Ref(EntityType::CurveAny),
            Field::Ref(EntityType::Axis1Placement),
        ],
        EntityType::EdgeCurve => vec![
            Field::Text,
            Field::Ref(EntityType::VertexPoint),
            Field::Ref(EntityType::VertexPoint),
            Field::Ref(EntityType::CurveAny),
            Field::Flag,
        ],
        EntityType::OrientedEdge => vec![Field::Text, Field::Ref(EntityType::EdgeCurve), Field::Flag],
        EntityType::EdgeLoop => vec![Field::Text, Field::Refs(EntityType::EdgeAny)],
        EntityType::VertexLoop => vec![Field::Text, Field::Ref(EntityType::VertexPoint)],
        EntityType::FaceBound => vec![Field::Text, Field::Ref(EntityType::EdgeLoop), Field::Flag],
        EntityType::FaceSurface => vec![
            Field::Text,
            Field::Refs(EntityType::FaceBound),
            Field::Ref(EntityType::SurfaceAny),
            Field::Flag,
        ],
        EntityType::OrientedFace => vec![Field::Text, Field::Ref(EntityType::FaceSurface), Field::Flag],
        EntityType::Shell => vec![Field::Text, Field::Refs(EntityType::FaceAny)],
        EntityType::OrientedShell => vec![Field::Text, Field::Ref(EntityType::Shell), Field::Flag],
        EntityType::ShellBasedSurfaceModel => vec![Field::Text, Field::Refs(EntityType::ShellAny)],
        EntityType::ManifoldSolidBrep => vec![
            Field::Text,
            Field::Ref(EntityType::ShellAny),
            Field::Refs(EntityType::OrientedShell),
        ],
        EntityType::ProductContext
        | EntityType::ProductDefinitionContext => vec![Field::Text, Field::Ref(EntityType::ApplicationContext), Field::Text],
        EntityType::Product => vec![
            Field::Text,
            Field::Text,
            Field::OptionalText,
            Field::Refs(EntityType::ProductContext),
        ],
        EntityType::ProductDefinitionFormation => vec![Field::Text, Field::OptionalText, Field::Ref(EntityType::Product)],
        EntityType::ProductDefinition => vec![
            Field::Text,
            Field::Text,
            Field::Ref(EntityType::ProductDefinitionFormation),
            Field::Ref(EntityType::ProductDefinitionContext),
        ],
        EntityType::ProductDefinitionShape => vec![
            Field::OptionalText,
            Field::OptionalText,
            Field::Ref(EntityType::CharacterizedDefinition),
        ],
        EntityType::ShapeRepresentation => vec![
            Field::Text,
            Field::Refs(EntityType::RepresentationItem),
            Field::Ref(EntityType::RepresentationContext),
        ],
        EntityType::ContextDependentShapeRepresentation => vec![
            Field::Ref(EntityType::ShapeRepresentationRelationshipWithTransformation),
            Field::Ref(EntityType::ProductDefinitionShape),
        ],
        EntityType::ShapeDefinitionRepresentation => vec![
            Field::Ref(EntityType::ProductDefinitionShape),
            Field::Ref(EntityType::ShapeRepresentation),
        ],
        EntityType::ShapeRepresentationRelationship => vec![
            Field::OptionalText,
            Field::OptionalText,
            Field::Ref(EntityType::ShapeRepresentation),
            Field::Ref(EntityType::ShapeRepresentation),
        ],
        EntityType::ShapeRepresentationRelationshipWithTransformation => vec![
            Field::OptionalText,
            Field::OptionalText,
            Field::Ref(EntityType::ShapeRepresentation),
            Field::Ref(EntityType::ShapeRepresentation),
            Field::Ref(EntityType::ItemDefinedTransformation),
        ],
        EntityType::NextAssemblyUsageOccurrence => vec![
            Field::Text,
            Field::Text,
            Field::Text,
            Field::Ref(EntityType::ProductDefinition),
            Field::Ref(EntityType::ProductDefinition),
            Field::OptionalText,
        ],
        EntityType::ItemDefinedTransformation => vec![
            Field::OptionalText,
            Field::OptionalText,
            Field::Ref(EntityType::Axis2Placement),
            Field::Ref(EntityType::Axis2Placement),
        ],
        _ => Vec::new(),
    };
    assert(r@ =~= fields(t));
    r
}

fn if_named(keyword: &str, name: &str, t: EntityType) -> (r: Option<EntityType>)
    ensures
        r == named(keyword@, name@, t),
{
    if is_word(keyword, name) {
        Some(t)
    } else {
        None
    }
}

pub(crate) fn find_inline_type(t: EntityType, keyword: &str) -> (r: Option<EntityType>)
    ensures
        r == inline_type(t, keyword@),
{
    match t {
        EntityType::CartesianPoint => if_named(keyword, "CARTESIAN_POINT", t),
        EntityType::Direction => if_named(keyword, "DIRECTION", t),
        EntityType::Vector => if_named(keyword, "VECTOR", t),
        EntityType::Placement => if_named(keyword, "PLACEMENT", t),
        EntityType::Axis1Placement => if_named(keyword, "AXIS_1_PLACEMENT", t),
        EntityType::Axis2Placement => if is_word(keyword, "AXIS_2_PLACEMENT_2D") {
            Some(EntityType::Axis2Placement2d)
        } else if is_word(keyword, "AXIS_2_PLACEMENT_3D") {
            Some(EntityType::Axis2Placement3d)
        } else {
            None
        },
        EntityType::Axis2Placement2d => if_named(keyword, "AXIS_2_PLACEMENT_2D", t),
        EntityType::Axis2Placement3d => if_named(keyword, "AXIS_2_PLACEMENT_3D", t),
        EntityType::CurveAny => if is_word(keyword, "LINE") {
            Some(EntityType::Line)
        } else if is_word(keyword, "BOUNDED_CURVE") {
            Some(EntityType::BoundedCurveAny)
        } else if is_word(keyword, "CONIC") {
            Some(EntityType::Conic)
        } else if is_word(keyword, "PCURVE") {
            Some(EntityType::Pcurve)
        } else if is_word(keyword, "SURFACE_CURVE") {
            Some(EntityType::SurfaceCurve)
        } else {
            None
        },
        EntityType::Line => if_named(keyword, "LINE", t),
        EntityType::BoundedCurveAny => if is_word(keyword, "POLYLINE") {
            Some(EntityType::Polyline)
        } else if is_word(keyword, "BSPLINE_CURVE") {
            Some(EntityType::BsplineCurveAny)
        } else {
            None
        },
        EntityType::Polyline => if_named(keyword, "POLYLINE", t),
        EntityType::BsplineCurveWithKnots => if_named(keyword, "BSPLINE_CURVE_WITH_KNOTS", t),
        EntityType::BezierCurve => if_named(keyword, "BEZIER_CURVE", t),
        EntityType::QuasiUniformCurve => if_named(keyword, "QUASI_UNIFORM_CURVE", t),
        EntityType::UniformCurve => if_named(keyword, "UNIFORM_CURVE", t),
        EntityType::NonRationalBsplineCurve => if is_word(keyword, "BSPLINE_CURVE_WITH_KNOTS") {
            Some(EntityType::BsplineCurveWithKnots)
        } else if is_word(keyword, "BEZIER_CURVE") {
            Some(EntityType::BezierCurve)
        } else if is_word(keyword, "QUASI_UNIFORM_CURVE") {
            Some(EntityType::QuasiUniformCurve)
        } else if is_word(keyword, "UNIFORM_CURVE") {
            Some(EntityType::UniformCurve)
        } else {
            None
        },
        EntityType::RationalBsplineCurve => if_named(keyword, "RATIONAL_BSPLINE_CURVE", t),
        EntityType::BsplineCurveAny => if is_word(keyword, "NON_RATIONAL_BSPLINE_CURVE") {
            Some(EntityType::NonRationalBsplineCurve)
        } else if is_word(keyword, "RATIONAL_BSPLINE_CURVE") {
            Some(EntityType::RationalBsplineCurve)
        } else {
            None
        },
        EntityType::Conic => if is_word(keyword, "CIRCLE") {
            Some(EntityType::Circle)
        } else if is_word(keyword, "ELLIPSE") {
            Some(EntityType::Ellipse)
        } else if is_word(keyword, "HYPERBOLA") {
            Some(EntityType::Hyperbola)
        } else if is_word(keyword, "PARABOLA") {
            Some(EntityType::Parabola)
        } else {
            None
        },
        EntityType::Circle => if_named(keyword, "CIRCLE", t),
        EntityType::Ellipse => if_named(keyword, "ELLIPSE", t),
        EntityType::Hyperbola => if_named(keyword, "HYPERBOLA", t),
        EntityType::Parabola => if_named(keyword, "PARABOLA", t),
        EntityType::GeometricSetSelect => if is_word(keyword, "CURVE") {
            Some(EntityType::CurveAny)
        } else if is_word(keyword, "POINT") {
            Some(EntityType::CartesianPoint)
        } else {
            None
        },
        EntityType::GeometricCurveSet => if_named(keyword, "GEOMETRIC_CURVE_SET", t),
        EntityType::Dummy => if_named(keyword, "DUMMY", t),
        EntityType::RepresentationItem => if_named(keyword, "REPRESENTATION_ITEM", t),
        EntityType::RepresentationContext => if_named(keyword, "REPRESENTATION_CONTEXT", t),
        EntityType::DefinitionalRepresentation => if_named(
            keyword,
            "DEFINITIONAL_REPRESENTATION",
            t,
        ),
        EntityType::Pcurve => if_named(keyword, "PCURVE", t),
        EntityType::PcurveOrSurface => if is_word(keyword, "PCURVE") {
            Some(EntityType::Pcurve)
        } else if is_word(keyword, "SURFACE") {
            Some(EntityType::SurfaceAny)
        } else {
            None
        },
        EntityType::SurfaceCurve => if_named(keyword, "SURFACE_CURVE", t),
        EntityType::SurfaceAny => if is_word(keyword, "ELEMENTARY_SURFACE") {
            Some(EntityType::ElementarySurfaceAny)
        } else if is_word(keyword, "BSPLINE_SURFACE") {
            Some(EntityType::BsplineSurfaceAny)
        } else if is_word(keyword, "SWEPT_SURFACE") {
            Some(EntityType::SweptSurfaceAny)
        } else {
            None
        },
        EntityType::ElementarySurfaceAny => if is_word(keyword, "PLANE") {
            Some(EntityType::Plane)
        } else if is_word(keyword, "SPHERICAL_SURFACE") {
            Some(EntityType::SphericalSurface)
        } else if is_word(keyword, "CYLINDRICAL_SURFACE") {
            Some(EntityType::CylindricalSurface)
        } else if is_word(keyword, "TOROIDAL_SURFACE") {
            Some(EntityType::ToroidalSurface)
        } else if is_word(keyword, "DEGENERATE_TOROIDAL_SURFACE") {
            Some(EntityType::DegenerateToroidalSurface)
        } else if is_word(keyword, "CONICAL_SURFACE") {
            Some(EntityType::ConicalSurface)
        } else {
            None
        },
        EntityType::Plane => if_named(keyword, "PLANE", t),
        EntityType::SphericalSurface => if_named(keyword, "SPHERICAL_SURFACE", t),
        EntityType::CylindricalSurface => if_named(keyword, "CYLINDRICAL_SURFACE", t),
        EntityType::ToroidalSurface => if_named(keyword, "TOROIDAL_SURFACE", t),
        EntityType::DegenerateToroidalSurface => if_named(
            keyword,
            "DEGENERATE_TOROIDAL_SURFACE",
            t,
        ),
        EntityType::ConicalSurface => if_named(keyword, "CONICAL_SURFACE", t),
        EntityType::BsplineSurfaceAny => if is_word(keyword, "NON_RATIONAL_BSPLINE_SURFACE") {
            Some(EntityType::NonRationalBsplineSurface)
        } else if is_word(keyword, "RATIONAL_BSPLINE_SURFACE") {
            Some(EntityType::RationalBsplineSurface)
        } else {
            None
        },
        EntityType::BsplineSurfaceWithKnots => if_named(keyword, "BSPLINE_SURFACE_WITH_KNOTS", t),
        EntityType::UniformSurface => if_named(keyword, "UNIFORM_SURFACE", t),
        EntityType::QuasiUniformSurface => if_named(keyword, "QUASI_UNIFORM_SURFACE", t),
        EntityType::BezierSurface => if_named(keyword, "BEZIER_SURFACE", t),
        EntityType::NonRationalBsplineSurface => if is_word(keyword, "BSPLINE_SURFACE_WITH_KNOTS") {
            Some(EntityType::BsplineSurfaceWithKnots)
        } else if is_word(keyword, "UNIFORM_SURFACE") {
            Some(EntityType::UniformSurface)
        } else if is_word(keyword, "QUASI_UNIFORM_SURFACE") {
            Some(EntityType::QuasiUniformSurface)
        } else if is_word(keyword, "BEZIER_SURFACE") {
            Some(EntityType::BezierSurface)
        } else {
            None
        },
        EntityType::RationalBsplineSurface => if_named(keyword, "RATIONAL_BSPLINE_SURFACE", t),
        EntityType::SweptSurfaceAny => if is_word(keyword, "SURFACE_OF_LINEAR_EXTRUSION") {
            Some(EntityType::SurfaceOfLinearExtrusion)
        } else if is_word(keyword, "SURFACE_OF_REVOLUTION") {
            Some(EntityType::SurfaceOfRevolution)
        } else {
            None
        },
        EntityType::SurfaceOfLinearExtrusion => if_named(
            keyword,
            "SURFACE_OF_LINEAR_EXTRUSION",
            t,
        ),
        EntityType::SurfaceOfRevolution => if_named(keyword, "SURFACE_OF_REVOLUTION", t),
        EntityType::VertexPoint => if_named(keyword, "VERTEX_POINT", t),
        EntityType::EdgeAny => if is_word(keyword, "EDGE_CURVE") {
            Some(EntityType::EdgeCurve)
        } else if is_word(keyword, "ORIENTED_EDGE") {
            Some(EntityType::OrientedEdge)
        } else {
            None
        },
        EntityType::EdgeCurve => if_named(keyword, "EDGE_CURVE", t),
        EntityType::OrientedEdge => if_named(keyword, "ORIENTED_EDGE", t),
        EntityType::EdgeLoop => if_named(keyword, "EDGE_LOOP", t),
        EntityType::VertexLoop => if_named(keyword, "VERTEX_LOOP", t),
        EntityType::FaceBound => if_named(keyword, "FACE_BOUND", t),
        EntityType::FaceAny => if is_word(keyword, "FACE_SURFACE") {
            Some(EntityType::FaceSurface)
        } else if is_word(keyword, "ORIENTED_FACE") {
            Some(EntityType::OrientedFace)
        } else {
            None
        },
        EntityType::FaceSurface => if_named(keyword, "FACE_SURFACE", t),
        EntityType::OrientedFace => if_named(keyword, "ORIENTED_FACE", t),
        EntityType::Shell => if_named(keyword, "SHELL", t),
        EntityType::OrientedShell => if_named(keyword, "ORIENTED_SHELL", t),
        EntityType::ShellAny => if is_word(keyword, "SHELL") {
            Some(EntityType::Shell)
        } else if is_word(keyword, "ORIENTED_SHELL") {
            Some(EntityType::OrientedShell)
        } else {
            None
        },
        EntityType::ShellBasedSurfaceModel => if_named(keyword, "SHELL_BASED_SURFACE_MODEL", t),
        EntityType::ManifoldSolidBrep => if_named(keyword, "MANIFOLD_SOLID_BREP", t),
        EntityType::ApplicationContext => if_named(keyword, "APPLICATION_CONTEXT", t),
        EntityType::ProductContext => if_named(keyword, "PRODUCT_CONTEXT", t),
        EntityType::Product => if_named(keyword, "PRODUCT", t),
        EntityType::ProductDefinitionFormation => if_named(
            keyword,
            "PRODUCT_DEFINITION_FORMATION",
            t,
        ),
        EntityType::ProductDefinitionContext => if_named(keyword, "PRODUCT_DEFINITION_CONTEXT", t),
        EntityType::ProductDefinition => if_named(keyword, "PRODUCT_DEFINITION", t),
        EntityType::CharacterizedDefinition => if is_word(keyword, "PRODUCT_DEFINITION") {
            Some(EntityType::ProductDefinition)
        } else if is_word(keyword, "PRODUCT_DEFINITION_SHAPE") {
            Some(EntityType::ProductDefinitionShape)
        } else {
            None
        },
        EntityType::ProductDefinitionShape => if_named(keyword, "PRODUCT_DEFINITION_SHAPE", t),
        EntityType::ShapeRepresentation => if_named(keyword, "SHAPE_REPRESENTATION", t),
        EntityType::ContextDependentShapeRepresentation => if_named(
            keyword,
            "CONTEXT_DEPENDENT_SHAPE_REPRESENTATION",
            t,
        ),
        EntityType::ShapeDefinitionRepresentation => if_named(
            keyword,
            "SHAPE_DEFINITION_REPRESENTATION",
            t,
        ),
        EntityType::ShapeRepresentationRelationship => if_named(
            keyword,
            "SHAPE_REPRESENTATION_RELATIONSHIP",
            t,
        ),
        EntityType::ShapeRepresentationRelationshipWithTransformation => if_named(
            keyword,
            "SHAPE_REPRESENTATION_RELATIONSHIP_WITH_TRANSFORMATION",
            t,
        ),
        EntityType::NextAssemblyUsageOccurrence => if_named(
            keyword,
            "NEXT_ASSEMBLY_USAGE_OCCURRENCE",
            t,
        ),
        EntityType::ItemDefinedTransformation => if_named(
            keyword,
            "ITEM_DEFINED_TRANSFORMATION",
            t,
        ),
    }
}

fn find_shape_record(name: &str) -> (r: Option<EntityType>)
    ensures
        r == shape_record(name@),
{
    if is_word(name, "CARTESIAN_POINT") {
        Some(EntityType::CartesianPoint)
    } else if is_word(name, "DIRECTION") {
        Some(EntityType::Direction)
    } else if is_word(name, "VECTOR") {
        Some(EntityType::Vector)
    } else if is_word(name, "PLACEMENT") {
        Some(EntityType::Placement)
    } else if is_word(name, "AXIS1_PLACEMENT") {
        Some(EntityType::Axis1Placement)
    } else if is_word(name, "AXIS2_PLACEMENT_2D") {
        Some(EntityType::Axis2Placement2d)
    } else if is_word(name, "AXIS2_PLACEMENT_3D") {
        Some(EntityType::Axis2Placement3d)
    } else if is_word(name, "LINE") {
        Some(EntityType::Line)
    } else if is_word(name, "POLYLINE") {
        Some(EntityType::Polyline)
    } else if is_word(name, "B_SPLINE_CURVE_WITH_KNOTS") {
        Some(EntityType::BsplineCurveWithKnots)
    } else if is_word(name, "BEZIER_CURVE") {
        Some(EntityType::BezierCurve)
    } else if is_word(name, "QUASI_UNIFORM_CURVE") {
        Some(EntityType::QuasiUniformCurve)
    } else if is_word(name, "UNIFORM_CURVE") {
        Some(EntityType::UniformCurve)
    } else if is_word(name, "CIRCLE") {
        Some(EntityType::Circle)
    } else if is_word(name, "ELLIPSE") {
        Some(EntityType::Ellipse)
    } else if is_word(name, "HYPERBOLA") {
        Some(EntityType::Hyperbola)
    } else if is_word(name, "PARABOLA") {
        Some(EntityType::Parabola)
    } else if is_word(name, "PCURVE") {
        Some(EntityType::Pcurve)
    } else if is_word(name, "PLANE") {
        Some(EntityType::Plane)
    } else if is_word(name, "SPHERICAL_SURFACE") {
        Some(EntityType::SphericalSurface)
    } else if is_word(name, "CYLINDRICAL_SURFACE") {
        Some(EntityType::CylindricalSurface)
    } else if is_word(name, "TOROIDAL_SURFACE") {
        Some(EntityType::ToroidalSurface)
    } else if is_word(name, "DEGENERATE_TOROIDAL_SURFACE") {
        Some(EntityType::DegenerateToroidalSurface)
    } else if is_word(name, "CONICAL_SURFACE") {
        Some(EntityType::ConicalSurface)
    } else if is_word(name, "B_SPLINE_SURFACE_WITH_KNOTS") {
        Some(EntityType::BsplineSurfaceWithKnots)
    } else if is_word(name, "UNIFORM_SURFACE") {
        Some(EntityType::UniformSurface)
    } else if is_word(name, "QUASI_UNIFORM_SURFACE") {
        Some(EntityType::QuasiUniformSurface)
    } else if is_word(name, "BEZIER_SURFACE") {
        Some(EntityType::BezierSurface)
    } else if is_word(name, "SURFACE_OF_LINEAR_EXTRUSION") {
        Some(EntityType::SurfaceOfLinearExtrusion)
    } else if is_word(name, "SURFACE_OF_REVOLUTION") {
        Some(EntityType::SurfaceOfRevolution)
    } else {
        None
    }
}

fn find_solid_record(name: &str) -> (r: Option<EntityType>)
    ensures
        r == solid_record(name@),
{
    if is_word(name, "VERTEX_POINT") {
        Some(EntityType::VertexPoint)
    } else if is_word(name, "EDGE_CURVE") {
        Some(EntityType::EdgeCurve)
    } else if is_word(name, "EDGE_LOOP") {
        Some(EntityType::EdgeLoop)
    } else if is_word(name, "VERTEX_LOOP") {
        Some(EntityType::VertexLoop)
    } else if is_word(name, "FACE_BOUND") {
        Some(EntityType::FaceBound)
    } else if is_word(name, "FACE_OUTER_BOUND") {
        Some(EntityType::FaceBound)
    } else if is_word(name, "FACE_SURFACE") {
        Some(EntityType::FaceSurface)
    } else if is_word(name, "ADVANCED_FACE") {
        Some(EntityType::FaceSurface)
    } else if is_word(name, "OPEN_SHELL") {
        Some(EntityType::Shell)
    } else if is_word(name, "CLOSED_SHELL") {
        Some(EntityType::Shell)
    } else if is_word(name, "SHELL_BASED_SURFACE_MODEL") {
        Some(EntityType::ShellBasedSurfaceModel)
    } else if is_word(name, "BREP_WITH_VOIDS") {
        Some(EntityType::ManifoldSolidBrep)
    } else if is_word(name, "GEOMETRIC_CURVE_SET") {
        Some(EntityType::GeometricCurveSet)
    } else {
        None
    }
}

fn find_product_record(name: &str) -> (r: Option<EntityType>)
    ensures
        r == product_record(name@),
{
    if is_word(name, "APPLICATION_CONTEXT") {
        Some(EntityType::ApplicationContext)
    } else if is_word(name, "PRODUCT_CONTEXT") {
        Some(EntityType::ProductContext)
    } else if is_word(name, "PRODUCT") {
        Some(EntityType::Product)
    } else if is_word(name, "PRODUCT_DEFINITION_FORMATION") {
        Some(EntityType::ProductDefinitionFormation)
    } else if is_word(name, "PRODUCT_DEFINITION_CONTEXT") {
        Some(EntityType::ProductDefinitionContext)
    } else if is_word(name, "PRODUCT_DEFINITION") {
        Some(EntityType::ProductDefinition)
    } else if is_word(name, "PRODUCT_DEFINITION_SHAPE") {
        Some(EntityType::ProductDefinitionShape)
    } else if is_word(name, "SHAPE_DEFINITION_REPRESENTATION") {
        Some(EntityType::ShapeDefinitionRepresentation)
    } else if is_word(name, "SHAPE_REPRESENTATION") {
        Some(EntityType::ShapeRepresentation)
    } else if is_word(name, "ADVANCED_BREP_SHAPE_REPRESENTATION") {
        Some(EntityType::ShapeRepresentation)
    } else if is_word(name, "CONTEXT_DEPENDENT_SHAPE_REPRESENTATION") {
        Some(EntityType::ContextDependentShapeRepresentation)
    } else if is_word(name, "SHAPE_REPRESENTATION_RELATIONSHIP") {
        Some(EntityType::ShapeRepresentationRelationship)
    } else if is_word(name, "NEXT_ASSEMBLY_USAGE_OCCURRENCE") {
        Some(EntityType::NextAssemblyUsageOccurrence)
    } else if is_word(name, "ITEM_DEFINED_TRANSFORMATION") {
        Some(EntityType::ItemDefinedTransformation)
    } else {
        None
    }
}

pub(crate) fn find_record_type(name: &str) -> (r: Option<EntityType>)
    ensures
        r == record_type(name@),
{
    match find_shape_record(name) {
        Some(t) => Some(t),
        None => match find_solid_record(name) {
            Some(t) => Some(t),
            None => find_product_record(name),
        },
    }
}

pub(crate) fn find_record_picks(name: &str) -> (r: Option<(usize, Vec<Pick>)>)
    ensures
        match r {
            Some((count, picks)) => record_picks(name@) == Some((count, picks@)),
            None => record_picks(name@) is None,
        },
{
    if is_word(name, "SURFACE_CURVE") ||
        is_word(name, "SEAM_CURVE") ||
        is_word(name, "INTERSECTION_CURVE") {
        let picks = vec![
            Pick { place: 0, field: Field::Text },
            Pick { place: 1, field: Field::Ref(EntityType::CurveAny) },
            Pick { place: 2, field: Field::Refs(EntityType::PcurveOrSurface) },
            Pick { place: 3, field: Field::MasterForm },
        ];
        assert(picks@ =~= (record_picks(name@)->0).1);
        Some((0, picks))
    } else if is_word(name, "ORIENTED_EDGE") {
        let picks = vec![
            Pick { place: 0, field: Field::Text },
            Pick { place: 3, field: Field::Ref(EntityType::EdgeCurve) },
            Pick { place: 4, field: Field::Flag },
        ];
        assert(picks@ =~= (record_picks(name@)->0).1);
        Some((5, picks))
    } else if is_word(name, "ORIENTED_FACE") {
        let picks = vec![
            Pick { place: 0, field: Field::Text },
            Pick { place: 2, field: Field::Ref(EntityType::FaceSurface) },
            Pick { place: 3, field: Field::Flag },
        ];
        assert(picks@ =~= (record_picks(name@)->0).1);
        Some((4, picks))
    } else if is_word(name, "ORIENTED_OPEN_SHELL") || is_word(name, "ORIENTED_CLOSED_SHELL") {
        let picks = vec![
            Pick { place: 0, field: Field::Text },
            Pick { place: 2, field: Field::Ref(EntityType::Shell) },
            Pick { place: 3, field: Field::Flag },
        ];
        assert(picks@ =~= (record_picks(name@)->0).1);
        Some((4, picks))
    } else if is_word(name, "MANIFOLD_SOLID_BREP") {
        let picks = vec![
            Pick { place: 0, field: Field::Text },
            Pick { place: 1, field: Field::Ref(EntityType::ShellAny) },
        ];
        assert(picks@ =~= (record_picks(name@)->0).1);
        Some((2, picks))
    } else if is_word(name, "DEFINITIONAL_REPRESENTATION") {
        let picks = vec![
            Pick { place: 0, field: Field::Text },
            Pick { place: 1, field: Field::Refs(EntityType::CurveAny) },
        ];
        assert(picks@ =~= (record_picks(name@)->0).1);
        Some((3, picks))
    } else if is_word(name, "PRODUCT_DEFINITION_FORMATION_WITH_SPECIFIED_SOURCE") {
        let picks = vec![
            Pick { place: 0, field: Field::Text },
            Pick { place: 1, field: Field::OptionalText },
            Pick { place: 2, field: Field::Ref(EntityType::Product) },
        ];
        assert(picks@ =~= (record_picks(name@)->0).1);
        Some((0, picks))
    } else {
        None
    }
}

} // verus!
