//! The records of the entities of a STEP file, and whether a table can be made
//! of them: what is read as a reference must not be an enumeration.

use monstertruck::step::load::step_p21::ast::Parameter as AstParameter;
use vstd::prelude::*;

use crate::exchange;
use crate::exchange::ParameterModel;
use crate::schema;
use crate::schema::{
    fields_of, find_inline_type, find_record_picks, find_record_type, is_word, stands_for_others,
    EntityType, Field, Pick,
};
use crate::text;
use crate::text::chars_of;

verus! {

/// A record with its name and its parameter.
pub struct RecordRef<'a> {
    pub name: &'a str,
    pub parameter: &'a monstertruck::step::load::step_p21::ast::Parameter,
}

/// The records of an entity.
pub struct EntityRecords<'a> {
    /// The entity is one record, and no list of partial ones.
    pub simple: bool,
    pub records: Vec<RecordRef<'a>>,
}

pub ghost struct RecordModel {
    pub name: Seq<char>,
    pub parameter: ParameterModel,
}

pub ghost struct EntityModel {
    pub simple: bool,
    pub records: Seq<RecordModel>,
}

pub open spec fn record_model(r: RecordRef) -> RecordModel {
    RecordModel { name: r.name@, parameter: exchange::ast_parameter(*r.parameter) }
}

pub open spec fn record_models(records: Seq<RecordRef>) -> Seq<RecordModel> {
    Seq::new(records.len(), |i: int| record_model(records[i]))
}

pub open spec fn entity_models(entities: Seq<EntityRecords>) -> Seq<EntityModel> {
    Seq::new(
        entities.len(),
        |i: int|
            EntityModel {
                simple: entities[i].simple,
                records: record_models(entities[i].records@),
            },
    )
}

pub open spec fn part_models(
    parts: Seq<&monstertruck::step::load::step_p21::ast::Parameter>,
) -> Seq<ParameterModel> {
    Seq::new(parts.len(), |i: int| exchange::ast_parameter(*parts[i]))
}

// How a parameter is read.

pub open spec fn is_capital(c: char) -> bool {
    'A' <= c <= 'Z'
}

/// The word is one that an enumeration can have.
pub open spec fn is_plain_word(w: Seq<char>) -> bool {
    forall|i: int|
        0 <= i < w.len() ==> is_capital(#[trigger] w[i]) || text::is_digit(w[i]) || w[i] == '_'
}

/// The word with one underscore before each letter that follows no letter, and
/// no other. By that it is told from other words.
pub open spec fn normal_word(w: Seq<char>) -> Seq<char>
    decreases w.len(),
{
    if w.len() == 0 {
        Seq::empty()
    } else {
        let before = normal_word(w.drop_last());
        if w.last() == '_' {
            before
        } else if is_capital(w.last()) && before.len() > 0 && !is_capital(w[w.len() - 2]) {
            before.push('_').push(w.last())
        } else {
            before.push(w.last())
        }
    }
}

pub open spec fn is_flag(w: Seq<char>) -> bool {
    w == "T"@ || w == "TRUE"@ || w == "F"@ || w == "FALSE"@
}

/// The field is read as one of some words.
pub open spec fn is_word_field(f: Field) -> bool {
    f == Field::Logical || f == Field::CurveForm || f == Field::SurfaceForm || f == Field::KnotForm
        || f == Field::MasterForm || f == Field::CurveOrigin
}

/// The word is one of those of the field.
pub open spec fn is_word_of(f: Field, w: Seq<char>) -> bool {
    match f {
        Field::Logical => {
            ||| w == "T"@
            ||| w == "TRUE"@
            ||| w == "F"@
            ||| w == "FALSE"@
            ||| w == "U"@
            ||| w == "UNKNOWN"@
        },
        Field::CurveForm => {
            ||| w == "POLYLINE_FORM"@
            ||| w == "CIRCULAR_ARC"@
            ||| w == "ELLIPTIC_ARC"@
            ||| w == "PARABOLIC_ARC"@
            ||| w == "HYPERBOLIC_ARC"@
            ||| w == "UNSPECIFIED"@
        },
        Field::SurfaceForm => {
            ||| w == "PLANE_SURF"@
            ||| w == "CYLINDRICAL_SURF"@
            ||| w == "CONICAL_SURF"@
            ||| w == "SPHERICAL_SURF"@
            ||| w == "TOROIDAL_SURF"@
            ||| w == "SURF_OF_REVOLUTION"@
            ||| w == "RULED_SURF"@
            ||| w == "GENERALISED_CONE"@
            ||| w == "QUADRIC_SURF"@
            ||| w == "SURF_OF_LINEAR_EXTRUSION"@
            ||| w == "UNSPECIFIED"@
        },
        Field::KnotForm => {
            ||| w == "UNIFORM_KNOTS"@
            ||| w == "UNSPECIFIED"@
            ||| w == "QUASI_UNIFORM_KNOTS"@
            ||| w == "PIECEWISE_BEZIER_KNOTS"@
        },
        Field::MasterForm => {
            ||| w == "CURVE3_D"@
            ||| w == "PCURVE_S1"@
            ||| w == "PCURVE_S2"@
        },
        Field::CurveOrigin => {
            ||| w == "SURFACE"@
            ||| w == "SEAM"@
            ||| w == "INTERSECTION"@
        },
        _ => false,
    }
}

/// An enumeration of such a word is taken for the kind of a reference, and
/// refused because it is none.
pub open spec fn is_reference_word(n: Seq<char>) -> bool {
    n == "ENTITY"@ || n == "VALUE"@ || n == "CONSTANT_ENTITY"@ || n == "CONSTANT_VALUE"@
}

pub open spec fn is_missing(p: ParameterModel) -> bool {
    p is NotProvided || p is Omitted
}

pub open spec fn is_list_field(f: Field) -> bool {
    f is Wholes || f is Reals || f is RealRows || f is Refs || f is RefRows
}

/// What the items of a list are read as.
pub open spec fn element(f: Field) -> Field {
    match f {
        Field::Wholes => Field::Whole,
        Field::Reals => Field::Real,
        Field::RealRows => Field::Reals,
        Field::Refs(t) => Field::Ref(t),
        Field::RefRows(t) => Field::Refs(t),
        _ => f,
    }
}

/// The parameter is taken as the field.
pub open spec fn is_taken(f: Field, p: ParameterModel) -> bool
    decreases p, 1int,
{
    if is_list_field(f) {
        match p {
            ParameterModel::List(items) => forall|i: int|
                0 <= i < items.len() ==> is_taken(element(f), #[trigger] items[i]),
            _ => false,
        }
    } else if is_word_field(f) {
        match p {
            ParameterModel::Enumeration(w) => is_plain_word(w) && is_word_of(f, normal_word(w)),
            _ => false,
        }
    } else {
        match f {
            Field::Text => p is Text,
            Field::OptionalText => p is Text || is_missing(p),
            Field::Whole => p is Integer,
            Field::Real => p is Integer || p is Real,
            Field::Flag => match p {
                ParameterModel::Enumeration(w) => is_flag(w),
                _ => false,
            },
            Field::Ref(t) => p is Ref || is_entity(t, p),
            Field::OptionalRef(t) => is_missing(p) || p is Ref || is_entity(t, p),
            _ => false,
        }
    }
}

/// The parameter is taken as an inline entity of the type: a list of its
/// fields, or that behind a keyword.
pub open spec fn is_entity(t: EntityType, p: ParameterModel) -> bool
    decreases p, 0int,
{
    match p {
        ParameterModel::List(items) => {
            let fields = schema::fields(t);
            &&& !schema::is_choice(t)
            &&& items.len() == fields.len()
            &&& forall|i: int| 0 <= i < items.len() ==> is_taken(fields[i], #[trigger] items[i])
        },
        ParameterModel::Typed { keyword, parameter } => match schema::inline_type(t, keyword) {
            Some(inner) => is_entity(inner, *parameter),
            None => false,
        },
        _ => false,
    }
}

/// Reading the parameter as the field comes upon an enumeration that is read as
/// a reference. What stands behind a part that is refused is not read.
pub open spec fn breaks(f: Field, p: ParameterModel) -> bool
    decreases p, 1int,
{
    if is_list_field(f) {
        match p {
            ParameterModel::List(items) => exists|i: int|
                0 <= i < items.len() && breaks(element(f), #[trigger] items[i]) && forall|j: int|
                    0 <= j < i ==> is_taken(element(f), #[trigger] items[j]),
            _ => false,
        }
    } else if is_word_field(f) {
        match p {
            ParameterModel::Enumeration(w) => !is_plain_word(w),
            _ => false,
        }
    } else {
        match f {
            Field::Ref(t) => match p {
                ParameterModel::Enumeration(w) => !is_plain_word(w) || !is_reference_word(
                    normal_word(w),
                ),
                _ => breaks_entity(t, p),
            },
            Field::OptionalRef(t) => match p {
                ParameterModel::Enumeration(w) => !is_plain_word(w) || !is_reference_word(
                    normal_word(w),
                ),
                _ => breaks_entity(t, p),
            },
            _ => false,
        }
    }
}

/// The same of an inline entity.
pub open spec fn breaks_entity(t: EntityType, p: ParameterModel) -> bool
    decreases p, 0int,
{
    match p {
        ParameterModel::List(items) => {
            let fields = schema::fields(t);
            &&& !schema::is_choice(t)
            &&& items.len() == fields.len()
            &&& exists|i: int|
                0 <= i < items.len() && breaks(fields[i], #[trigger] items[i]) && forall|j: int|
                    0 <= j < i ==> is_taken(fields[j], #[trigger] items[j])
        },
        ParameterModel::Typed { keyword, parameter } => match schema::inline_type(t, keyword) {
            Some(inner) => breaks_entity(inner, *parameter),
            None => false,
        },
        _ => false,
    }
}

/// Of the parameters that are picked one breaks, and all before it are there
/// and are taken.
pub open spec fn breaks_picks(items: Seq<ParameterModel>, picks: Seq<Pick>) -> bool {
    exists|k: int|
        0 <= k < picks.len() && (#[trigger] picks[k]).place < items.len() && breaks(
            picks[k].field,
            items[picks[k].place as int],
        ) && takes_picks(items, picks.take(k))
}

pub open spec fn takes_picks(items: Seq<ParameterModel>, picks: Seq<Pick>) -> bool {
    forall|k: int|
        0 <= k < picks.len() ==> (#[trigger] picks[k]).place < items.len() && is_taken(
            picks[k].field,
            items[picks[k].place as int],
        )
}

/// Reading the record breaks.
pub open spec fn breaks_record(record: RecordModel) -> bool {
    match schema::record_type(record.name) {
        Some(t) => breaks_entity(t, record.parameter),
        None => match schema::record_picks(record.name) {
            Some((count, picks)) => match record.parameter {
                ParameterModel::List(items) => (count == 0 || items.len() == count)
                    && breaks_picks(items, picks),
                _ => false,
            },
            None => false,
        },
    }
}

/// How the partial records of a rational spline are joined to one: those at
/// `label`, `net` and, if there is one, `knots`. Of the label only the first
/// parameter is taken where `first_label` holds. What is joined is read as
/// `spline`.
#[derive(Clone, Copy, Debug, PartialEq, Eq, Structural)]
pub struct SplineLayout {
    pub label: usize,
    pub first_label: bool,
    pub net: usize,
    pub knots: Option<usize>,
    pub weights: usize,
    pub spline: EntityType,
}

pub open spec fn are_named(
    records: Seq<RecordModel>,
    a: Seq<char>,
    b: Seq<char>,
    c: Seq<char>,
    d: Seq<char>,
    e: Seq<char>,
    f: Seq<char>,
    g: Seq<char>,
) -> bool {
    &&& records.len() == 7
    &&& records[0].name == a
    &&& records[1].name == b
    &&& records[2].name == c
    &&& records[3].name == d
    &&& records[4].name == e
    &&& records[5].name == f
    &&& records[6].name == g
}

/// The layout of a rational curve.
pub open spec fn curve_layout(records: Seq<RecordModel>) -> Option<SplineLayout> {
    let item = "GEOMETRIC_REPRESENTATION_ITEM"@;
    let weights = "RATIONAL_B_SPLINE_CURVE"@;
    let label = "REPRESENTATION_ITEM"@;
    if are_named(
        records,
        "BOUNDED_CURVE"@,
        "B_SPLINE_CURVE"@,
        "B_SPLINE_CURVE_WITH_KNOTS"@,
        "CURVE"@,
        item,
        weights,
        label,
    ) {
        Some(
            SplineLayout {
                label: 6,
                first_label: false,
                net: 1,
                knots: Some(2),
                weights: 5,
                spline: EntityType::BsplineCurveWithKnots,
            },
        )
    } else if are_named(
        records,
        "BEZIER_CURVE"@,
        "BOUNDED_CURVE"@,
        "B_SPLINE_CURVE"@,
        "CURVE"@,
        item,
        weights,
        label,
    ) {
        Some(
            SplineLayout {
                label: 6,
                first_label: false,
                net: 2,
                knots: None,
                weights: 5,
                spline: EntityType::BezierCurve,
            },
        )
    } else if are_named(
        records,
        "BOUNDED_CURVE"@,
        "B_SPLINE_CURVE"@,
        "CURVE"@,
        item,
        "QUASI_UNIFORM_CURVE"@,
        weights,
        label,
    ) {
        Some(
            SplineLayout {
                label: 6,
                first_label: true,
                net: 1,
                knots: None,
                weights: 5,
                spline: EntityType::QuasiUniformCurve,
            },
        )
    } else if are_named(
        records,
        "BOUNDED_CURVE"@,
        "B_SPLINE_CURVE"@,
        "CURVE"@,
        item,
        weights,
        label,
        "UNIFORM_CURVE"@,
    ) {
        Some(
            SplineLayout {
                label: 5,
                first_label: true,
                net: 1,
                knots: None,
                weights: 4,
                spline: EntityType::UniformCurve,
            },
        )
    } else {
        None
    }
}

/// The layout of a rational surface.
pub open spec fn surface_layout(records: Seq<RecordModel>) -> Option<SplineLayout> {
    let item = "GEOMETRIC_REPRESENTATION_ITEM"@;
    let weights = "RATIONAL_B_SPLINE_SURFACE"@;
    let label = "REPRESENTATION_ITEM"@;
    if are_named(
        records,
        "BOUNDED_SURFACE"@,
        "B_SPLINE_SURFACE"@,
        "B_SPLINE_SURFACE_WITH_KNOTS"@,
        item,
        weights,
        label,
        "SURFACE"@,
    ) {
        Some(
            SplineLayout {
                label: 5,
                first_label: false,
                net: 1,
                knots: Some(2),
                weights: 4,
                spline: EntityType::BsplineSurfaceWithKnots,
            },
        )
    } else if are_named(
        records,
        "BEZIER_SURFACE"@,
        "BOUNDED_SURFACE"@,
        "B_SPLINE_SURFACE"@,
        item,
        weights,
        label,
        "SURFACE"@,
    ) {
        Some(
            SplineLayout {
                label: 5,
                first_label: false,
                net: 2,
                knots: None,
                weights: 4,
                spline: EntityType::BezierSurface,
            },
        )
    } else if are_named(
        records,
        "BOUNDED_SURFACE"@,
        "B_SPLINE_SURFACE"@,
        item,
        "QUASI_UNIFORM_SURFACE"@,
        weights,
        label,
        "SURFACE"@,
    ) {
        Some(
            SplineLayout {
                label: 5,
                first_label: false,
                net: 1,
                knots: None,
                weights: 4,
                spline: EntityType::QuasiUniformSurface,
            },
        )
    } else if are_named(
        records,
        "BOUNDED_SURFACE"@,
        "B_SPLINE_SURFACE"@,
        item,
        weights,
        label,
        "SURFACE"@,
        "UNIFORM_SURFACE"@,
    ) {
        Some(
            SplineLayout {
                label: 4,
                first_label: false,
                net: 1,
                knots: None,
                weights: 3,
                spline: EntityType::UniformSurface,
            },
        )
    } else {
        None
    }
}

/// The parameters of a spline joined to one list: of its label, of its control
/// points and of its knots.
pub open spec fn joined_parameters(
    label: Seq<ParameterModel>,
    net: Seq<ParameterModel>,
    knots: Seq<ParameterModel>,
    first_label: bool,
) -> Seq<ParameterModel> {
    (if first_label {
        label.take(1)
    } else {
        label
    }) + net + knots
}

pub open spec fn items(record: RecordModel) -> Seq<ParameterModel> {
    record.parameter->List_0
}

/// Joining and reading the partial records of a rational spline breaks: a
/// parameter that is taken for granted is missing, or what is joined breaks. The
/// weights are looked at last.
pub open spec fn breaks_spline(records: Seq<RecordModel>, at: SplineLayout) -> bool {
    let label = records[at.label as int];
    let net = records[at.net as int];
    let weights = records[at.weights as int];
    let knots = match at.knots {
        Some(k) => items(records[k as int]),
        None => Seq::empty(),
    };
    let joined = ParameterModel::List(
        joined_parameters(items(label), items(net), knots, at.first_label),
    );
    &&& label.parameter is List
    &&& net.parameter is List
    &&& weights.parameter is List
    &&& at.knots matches Some(k) ==> records[k as int].parameter is List
    &&& {
        ||| at.first_label && items(label).len() == 0
        ||| breaks_entity(at.spline, joined)
        ||| is_entity(at.spline, joined) && items(weights).len() == 0
    }
}

/// The records are those of a relationship with a transformation.
pub open spec fn is_relationship(records: Seq<RecordModel>) -> bool {
    &&& records.len() == 3
    &&& records[0].name == "REPRESENTATION_RELATIONSHIP"@
    &&& records[1].name == "REPRESENTATION_RELATIONSHIP_WITH_TRANSFORMATION"@
    &&& records[2].name == "SHAPE_REPRESENTATION_RELATIONSHIP"@
    &&& records[0].parameter is List
    &&& records[1].parameter is List
}

/// What is read of the relationship and then of the transformation.
pub open spec fn relationship_picks() -> Seq<Pick> {
    seq![
        Pick { place: 0, field: Field::OptionalText },
        Pick { place: 1, field: Field::OptionalText },
        Pick { place: 2, field: Field::Ref(EntityType::ShapeRepresentation) },
        Pick { place: 3, field: Field::Ref(EntityType::ShapeRepresentation) },
    ]
}

/// Of the parameters that are picked one is missing, and all before it are
/// taken.
pub open spec fn lacks_picks(items: Seq<ParameterModel>, picks: Seq<Pick>) -> bool {
    exists|k: int|
        0 <= k < picks.len() && (#[trigger] picks[k]).place >= items.len() && takes_picks(
            items,
            picks.take(k),
        )
}

/// Reading the relationship breaks: at its name, its description or its two
/// representations, or behind them at its transformation.
pub open spec fn breaks_relationship(records: Seq<RecordModel>) -> bool {
    let relation = items(records[0]);
    let transformation = items(records[1]);
    ||| breaks_picks(relation, relationship_picks())
    ||| lacks_picks(relation, relationship_picks())
    ||| takes_picks(relation, relationship_picks()) && (transformation.len() == 0 || breaks(
        Field::Ref(EntityType::ItemDefinedTransformation),
        transformation[0],
    ))
}

/// Reading the entity breaks.
pub open spec fn breaks_whole(entity: EntityModel) -> bool {
    let records = entity.records;
    if entity.simple {
        records.len() > 0 && breaks_record(records[0])
    } else if curve_layout(records) is Some {
        breaks_spline(records, curve_layout(records)->0)
    } else if surface_layout(records) is Some {
        breaks_spline(records, surface_layout(records)->0)
    } else {
        is_relationship(records) && breaks_relationship(records)
    }
}

/// A table can be made of the entities.
pub open spec fn section_reads(entities: Seq<EntityModel>) -> bool {
    forall|i: int| 0 <= i < entities.len() ==> !breaks_whole(#[trigger] entities[i])
}

/// A parameter with its parts.
pub enum ParameterParts<'a> {
    Typed(&'a str, &'a monstertruck::step::load::step_p21::ast::Parameter),
    Integer,
    Real,
    Text,
    Enumeration(&'a str),
    List(Vec<&'a monstertruck::step::load::step_p21::ast::Parameter>),
    Ref,
    Missing,
}

/// The parameter has these parts.
pub open spec fn has_parts(p: ParameterModel, parts: ParameterParts) -> bool {
    match parts {
        ParameterParts::Typed(keyword, inner) => p == ParameterModel::Typed {
            keyword: keyword@,
            parameter: Box::new(exchange::ast_parameter(*inner)),
        },
        ParameterParts::Integer => p is Integer,
        ParameterParts::Real => p is Real,
        ParameterParts::Text => p is Text,
        ParameterParts::Enumeration(w) => p == ParameterModel::Enumeration(w@),
        ParameterParts::List(items) => p == ParameterModel::List(part_models(items@)),
        ParameterParts::Ref => p is Ref,
        ParameterParts::Missing => is_missing(p),
    }
}

/// The parts of a parameter of `step_p21`, without copies: a typed parameter
/// has its keyword and one part, a list those that it holds.
#[verifier::external_body]
fn parts_of<'a>(p: &'a monstertruck::step::load::step_p21::ast::Parameter) -> (r: ParameterParts<
    'a,
>)
    ensures
        has_parts(exchange::ast_parameter(*p), r),
{
    match p {
        AstParameter::Typed { keyword, parameter } => ParameterParts::Typed(keyword, parameter),
        AstParameter::Integer(_) => ParameterParts::Integer,
        AstParameter::Real(_) => ParameterParts::Real,
        AstParameter::String(_) => ParameterParts::Text,
        AstParameter::Enumeration(w) => ParameterParts::Enumeration(w),
        AstParameter::List(items) => ParameterParts::List(items.iter().collect()),
        AstParameter::Ref(_) => ParameterParts::Ref,
        AstParameter::NotProvided => ParameterParts::Missing,
        AstParameter::Omitted => ParameterParts::Missing,
    }
}

/// What comes of reading a parameter.
#[derive(Clone, Copy, Debug, PartialEq, Eq, Structural)]
pub enum Reading {
    Taken,
    Refused,
    /// An enumeration is read as a reference.
    Broken,
}

fn plain_word(w: &str) -> (r: Option<String>)
    ensures
        match r {
            Some(n) => is_plain_word(w@) && n@ == normal_word(w@),
            None => !is_plain_word(w@),
        },
{
    let s = chars_of(w);
    let mut out = String::new();
    let mut empty = true;
    let mut i: usize = 0;
    while i < s.len()
        invariant
            i <= s.len(),
            s@ == w@,
            is_plain_word(w@.take(i as int)),
            out@ == normal_word(w@.take(i as int)),
            empty == (out@.len() == 0),
        decreases s.len() - i,
    {
        let c: char = s[i];
        let capital = 'A' <= c && c <= 'Z';
        if !capital && !('0' <= c && c <= '9') && c != '_' {
            assert(w@[i as int] == c);
            return None;
        }
        proof {
            assert(w@.take(i + 1).drop_last() =~= w@.take(i as int));
            assert(w@.take(i + 1).last() == c);
            assert forall|k: int| 0 <= k < i + 1 implies is_capital(#[trigger] w@.take(i + 1)[k])
                || text::is_digit(w@.take(i + 1)[k]) || w@.take(i + 1)[k] == '_' by {
                if k < i {
                    assert(w@.take(i + 1)[k] == w@.take(i as int)[k]);
                }
            }
        }
        if c != '_' {
            if capital && !empty && !('A' <= s[i - 1] && s[i - 1] <= 'Z') {
                out.push('_');
            }
            out.push(c);
            empty = false;
        }
        i += 1;
    }
    assert(w@.take(w@.len() as int) =~= w@);
    Some(out)
}

fn is_flag_word(w: &str) -> (r: bool)
    ensures
        r == is_flag(w@),
{
    is_word(w, "T") || is_word(w, "TRUE") || is_word(w, "F") || is_word(w, "FALSE")
}

fn fits_word_field(f: Field, n: &str) -> (r: bool)
    ensures
        r == is_word_of(f, n@),
{
    match f {
        Field::Logical => {
            is_word(n, "T")
            || is_word(n, "TRUE")
            || is_word(n, "F")
            || is_word(n, "FALSE")
            || is_word(n, "U")
            || is_word(n, "UNKNOWN")
        },
        Field::CurveForm => {
            is_word(n, "POLYLINE_FORM")
            || is_word(n, "CIRCULAR_ARC")
            || is_word(n, "ELLIPTIC_ARC")
            || is_word(n, "PARABOLIC_ARC")
            || is_word(n, "HYPERBOLIC_ARC")
            || is_word(n, "UNSPECIFIED")
        },
        Field::SurfaceForm => {
            is_word(n, "PLANE_SURF")
            || is_word(n, "CYLINDRICAL_SURF")
            || is_word(n, "CONICAL_SURF")
            || is_word(n, "SPHERICAL_SURF")
            || is_word(n, "TOROIDAL_SURF")
            || is_word(n, "SURF_OF_REVOLUTION")
            || is_word(n, "RULED_SURF")
            || is_word(n, "GENERALISED_CONE")
            || is_word(n, "QUADRIC_SURF")
            || is_word(n, "SURF_OF_LINEAR_EXTRUSION")
            || is_word(n, "UNSPECIFIED")
        },
        Field::KnotForm => {
            is_word(n, "UNIFORM_KNOTS")
            || is_word(n, "UNSPECIFIED")
            || is_word(n, "QUASI_UNIFORM_KNOTS")
            || is_word(n, "PIECEWISE_BEZIER_KNOTS")
        },
        Field::MasterForm => {
            is_word(n, "CURVE3_D")
            || is_word(n, "PCURVE_S1")
            || is_word(n, "PCURVE_S2")
        },
        Field::CurveOrigin => {
            is_word(n, "SURFACE")
            || is_word(n, "SEAM")
            || is_word(n, "INTERSECTION")
        },
        _ => false,
    }
}

fn read_word(f: Field, w: &str) -> (r: Reading)
    requires
        is_word_field(f),
    ensures
        r == Reading::Taken <==> is_taken(f, ParameterModel::Enumeration(w@)),
        r == Reading::Broken <==> breaks(f, ParameterModel::Enumeration(w@)),
{
    match plain_word(w) {
        Some(n) => if fits_word_field(f, n.as_str()) {
            Reading::Taken
        } else {
            Reading::Refused
        },
        None => Reading::Broken,
    }
}

fn read_as_reference(w: &str) -> (r: Reading)
    ensures
        r == Reading::Broken <==> !is_plain_word(w@) || !is_reference_word(normal_word(w@)),
        r != Reading::Taken,
{
    match plain_word(w) {
        Some(n) => {
            let n = n.as_str();
            if is_word(n, "ENTITY") || is_word(n, "VALUE") || is_word(n, "CONSTANT_ENTITY")
                || is_word(n, "CONSTANT_VALUE") {
                Reading::Refused
            } else {
                Reading::Broken
            }
        },
        None => Reading::Broken,
    }
}

fn item_field(f: Field) -> (r: Option<Field>)
    ensures
        match r {
            Some(e) => is_list_field(f) && e == element(f),
            None => !is_list_field(f),
        },
{
    match f {
        Field::Wholes => Some(Field::Whole),
        Field::Reals => Some(Field::Real),
        Field::RealRows => Some(Field::Reals),
        Field::Refs(t) => Some(Field::Ref(t)),
        Field::RefRows(t) => Some(Field::Refs(t)),
        _ => None,
    }
}

pub proof fn lemma_list_field(f: Field, items: Seq<ParameterModel>)
    requires
        is_list_field(f),
    ensures
        is_taken(f, ParameterModel::List(items)) <==> forall|i: int|
            0 <= i < items.len() ==> is_taken(element(f), #[trigger] items[i]),
        breaks(f, ParameterModel::List(items)) <==> exists|i: int|
            0 <= i < items.len() && breaks(element(f), #[trigger] items[i]) && forall|j: int|
                0 <= j < i ==> is_taken(element(f), #[trigger] items[j]),
{
}

pub proof fn lemma_list_entity(t: EntityType, items: Seq<ParameterModel>)
    ensures
        is_entity(t, ParameterModel::List(items)) <==> {
            let fields = schema::fields(t);
            &&& !schema::is_choice(t)
            &&& items.len() == fields.len()
            &&& forall|i: int| 0 <= i < items.len() ==> is_taken(fields[i], #[trigger] items[i])
        },
        breaks_entity(t, ParameterModel::List(items)) <==> {
            let fields = schema::fields(t);
            &&& !schema::is_choice(t)
            &&& items.len() == fields.len()
            &&& exists|i: int|
                0 <= i < items.len() && breaks(fields[i], #[trigger] items[i]) && forall|j: int|
                    0 <= j < i ==> is_taken(fields[j], #[trigger] items[j])
        },
{
}

proof fn lemma_no_entity(t: EntityType, p: ParameterModel)
    requires
        !(p is List),
        !(p is Typed),
    ensures
        !is_entity(t, p),
        !breaks_entity(t, p),
{
}

fn read_field(f: Field, p: &monstertruck::step::load::step_p21::ast::Parameter) -> (r: Reading)
    ensures
        r == Reading::Taken <==> is_taken(f, exchange::ast_parameter(*p)),
        r == Reading::Broken <==> breaks(f, exchange::ast_parameter(*p)),
    decreases exchange::ast_parameter(*p), 3nat,
{
    match item_field(f) {
        Some(e) => match parts_of(p) {
            ParameterParts::List(parts) => {
                proof {
                    lemma_list_field(f, part_models(parts@));
                }
                read_each(e, &parts)
            },
            _ => Reading::Refused,
        },
        None => match f {
            Field::Ref(t) => read_reference(t, false, p),
            Field::OptionalRef(t) => read_reference(t, true, p),
            _ => read_value(f, p),
        },
    }
}

fn read_reference(
    t: EntityType,
    optional: bool,
    p: &monstertruck::step::load::step_p21::ast::Parameter,
) -> (r: Reading)
    ensures
        ({
            let f = if optional {
                Field::OptionalRef(t)
            } else {
                Field::Ref(t)
            };
            &&& r == Reading::Taken <==> is_taken(f, exchange::ast_parameter(*p))
            &&& r == Reading::Broken <==> breaks(f, exchange::ast_parameter(*p))
        }),
    decreases exchange::ast_parameter(*p), 2nat,
{
    proof {
        let model = exchange::ast_parameter(*p);
        if !(model is List) && !(model is Typed) {
            lemma_no_entity(t, model);
        }
    }
    match parts_of(p) {
        ParameterParts::Ref => Reading::Taken,
        ParameterParts::Enumeration(w) => read_as_reference(w),
        ParameterParts::Missing => if optional {
            Reading::Taken
        } else {
            Reading::Refused
        },
        _ => read_entity(t, p),
    }
}

/// Reads a parameter that is no list and no reference.
fn read_value(f: Field, p: &monstertruck::step::load::step_p21::ast::Parameter) -> (r: Reading)
    requires
        !is_list_field(f),
        !(f is Ref),
        !(f is OptionalRef),
    ensures
        r == Reading::Taken <==> is_taken(f, exchange::ast_parameter(*p)),
        r == Reading::Broken <==> breaks(f, exchange::ast_parameter(*p)),
{
    let parts = parts_of(p);
    let taken = match f {
        Field::Text => matches!(parts, ParameterParts::Text),
        Field::OptionalText => matches!(parts, ParameterParts::Text | ParameterParts::Missing),
        Field::Whole => matches!(parts, ParameterParts::Integer),
        Field::Real => matches!(parts, ParameterParts::Integer | ParameterParts::Real),
        Field::Flag => match parts {
            ParameterParts::Enumeration(w) => is_flag_word(w),
            _ => false,
        },
        _ => match parts {
            ParameterParts::Enumeration(w) => return read_word(f, w),
            _ => false,
        },
    };
    if taken {
        Reading::Taken
    } else {
        Reading::Refused
    }
}

fn read_entity(t: EntityType, p: &monstertruck::step::load::step_p21::ast::Parameter) -> (r:
    Reading)
    ensures
        r == Reading::Taken <==> is_entity(t, exchange::ast_parameter(*p)),
        r == Reading::Broken <==> breaks_entity(t, exchange::ast_parameter(*p)),
    decreases exchange::ast_parameter(*p), 1nat,
{
    let ghost model = exchange::ast_parameter(*p);
    match parts_of(p) {
        ParameterParts::List(parts) => read_fields(t, &parts),
        ParameterParts::Typed(keyword, inner) => {
            assert(decreases_to!(model => *model->parameter));
            match find_inline_type(t, keyword) {
                Some(u) => read_entity(u, inner),
                None => Reading::Refused,
            }
        },
        _ => Reading::Refused,
    }
}

/// Reads the items of a list, all in the same way.
fn read_each(f: Field, parts: &Vec<&monstertruck::step::load::step_p21::ast::Parameter>) -> (r:
    Reading)
    ensures
        r == Reading::Taken <==> forall|i: int|
            0 <= i < parts@.len() ==> is_taken(f, #[trigger] part_models(parts@)[i]),
        r == Reading::Broken <==> exists|i: int|
            0 <= i < parts@.len() && breaks(f, #[trigger] part_models(parts@)[i]) && forall|j: int|
                0 <= j < i ==> is_taken(f, #[trigger] part_models(parts@)[j]),
    decreases ParameterModel::List(part_models(parts@)), 0nat,
{
    let ghost models = part_models(parts@);
    let mut i: usize = 0;
    while i < parts.len()
        invariant
            i <= parts.len(),
            models == part_models(parts@),
            forall|k: int|
                0 <= k < i ==> is_taken(f, #[trigger] models[k]) && !breaks(f, models[k]),
        decreases parts.len() - i,
    {
        proof {
            lemma_item_is_smaller(models, i as int);
            assert(models[i as int] == exchange::ast_parameter(*parts@[i as int]));
        }
        let reading = read_field(f, parts[i]);
        if reading != Reading::Taken {
            assert(!is_taken(f, models[i as int]));
            return reading;
        }
        i += 1;
    }
    Reading::Taken
}

/// Reads the items of a list as the fields of a type.
fn read_fields(
    t: EntityType,
    parts: &Vec<&monstertruck::step::load::step_p21::ast::Parameter>,
) -> (r: Reading)
    ensures
        r == Reading::Taken <==> is_entity(t, ParameterModel::List(part_models(parts@))),
        r == Reading::Broken <==> breaks_entity(t, ParameterModel::List(part_models(parts@))),
    decreases ParameterModel::List(part_models(parts@)), 0nat,
{
    let ghost models = part_models(parts@);
    proof {
        lemma_list_entity(t, models);
    }
    let fields = fields_of(t);
    if stands_for_others(t) || parts.len() != fields.len() {
        return Reading::Refused;
    }
    let mut i: usize = 0;
    while i < parts.len()
        invariant
            i <= parts.len(),
            models == part_models(parts@),
            fields@ == schema::fields(t),
            fields@.len() == parts@.len(),
            !schema::is_choice(t),
            forall|k: int|
                0 <= k < i ==> is_taken(fields@[k], #[trigger] models[k]) && !breaks(
                    fields@[k],
                    models[k],
                ),
        decreases parts.len() - i,
    {
        proof {
            lemma_item_is_smaller(models, i as int);
            assert(models[i as int] == exchange::ast_parameter(*parts@[i as int]));
        }
        let reading = read_field(fields[i], parts[i]);
        if reading != Reading::Taken {
            proof {
                lemma_list_entity(t, models);
                assert(!is_taken(fields@[i as int], models[i as int]));
            }
            return reading;
        }
        i += 1;
    }
    Reading::Taken
}

proof fn lemma_item_is_smaller(models: Seq<ParameterModel>, i: int)
    requires
        0 <= i < models.len(),
    ensures
        decreases_to!(ParameterModel::List(models) => models[i]),
{
    let model = ParameterModel::List(models);
    assert(decreases_to!(model => model->List_0));
    assert(decreases_to!(models => models[i]));
}

/// The items of a list.
fn items_of<'a>(p: &'a monstertruck::step::load::step_p21::ast::Parameter) -> (r: Option<
    Vec<&'a monstertruck::step::load::step_p21::ast::Parameter>,
>)
    ensures
        match r {
            Some(v) => exchange::ast_parameter(*p) == ParameterModel::List(part_models(v@)),
            None => !(exchange::ast_parameter(*p) is List),
        },
{
    match parts_of(p) {
        ParameterParts::List(v) => Some(v),
        _ => None,
    }
}

/// What comes of picking parameters and reading them.
pub enum Picking {
    Taken,
    Refused,
    Missing,
    Broken,
}

fn read_picks(
    parts: &Vec<&monstertruck::step::load::step_p21::ast::Parameter>,
    picks: &Vec<Pick>,
) -> (r: Picking)
    ensures
        r is Taken <==> takes_picks(part_models(parts@), picks@),
        r is Broken <==> breaks_picks(part_models(parts@), picks@),
        r is Missing <==> lacks_picks(part_models(parts@), picks@),
{
    let ghost models = part_models(parts@);
    let mut k: usize = 0;
    while k < picks.len()
        invariant
            k <= picks.len(),
            models == part_models(parts@),
            forall|j: int|
                0 <= j < k ==> (#[trigger] picks@[j]).place < models.len() && is_taken(
                    picks@[j].field,
                    models[picks@[j].place as int],
                ) && !breaks(picks@[j].field, models[picks@[j].place as int]),
        decreases picks.len() - k,
    {
        let pick = picks[k];
        assert(takes_picks(models, picks@.take(k as int)));
        proof {
            assert forall|j: int| k < j <= picks@.len() && takes_picks(
                models,
                #[trigger] picks@.take(j),
            ) implies pick.place < models.len() && is_taken(
                pick.field,
                models[pick.place as int],
            ) by {
                assert(picks@.take(j)[k as int] == pick);
            }
            assert(picks@.take(picks@.len() as int) =~= picks@);
        }
        if pick.place >= parts.len() {
            return Picking::Missing;
        }
        assert(models[pick.place as int] == exchange::ast_parameter(*parts@[pick.place as int]));
        match read_field(pick.field, parts[pick.place]) {
            Reading::Taken => {},
            Reading::Refused => {
                return Picking::Refused;
            },
            Reading::Broken => {
                return Picking::Broken;
            },
        }
        k += 1;
    }
    Picking::Taken
}

fn has_names(
    records: &Vec<RecordRef>,
    a: &str,
    b: &str,
    c: &str,
    d: &str,
    e: &str,
    f: &str,
    g: &str,
) -> (r: bool)
    ensures
        r == are_named(record_models(records@), a@, b@, c@, d@, e@, f@, g@),
{
    records.len() == 7 && is_word(records[0].name, a) && is_word(records[1].name, b) && is_word(
        records[2].name,
        c,
    ) && is_word(records[3].name, d) && is_word(records[4].name, e) && is_word(
        records[5].name,
        f,
    ) && is_word(records[6].name, g)
}

fn find_curve_layout(records: &Vec<RecordRef>) -> (r: Option<SplineLayout>)
    ensures
        r == curve_layout(record_models(records@)),
{
    let item = "GEOMETRIC_REPRESENTATION_ITEM";
    let weights = "RATIONAL_B_SPLINE_CURVE";
    let label = "REPRESENTATION_ITEM";
    if has_names(
        records,
        "BOUNDED_CURVE",
        "B_SPLINE_CURVE",
        "B_SPLINE_CURVE_WITH_KNOTS",
        "CURVE",
        item,
        weights,
        label,
    ) {
        Some(
            SplineLayout {
                label: 6,
                first_label: false,
                net: 1,
                knots: Some(2),
                weights: 5,
                spline: EntityType::BsplineCurveWithKnots,
            },
        )
    } else if has_names(
        records,
        "BEZIER_CURVE",
        "BOUNDED_CURVE",
        "B_SPLINE_CURVE",
        "CURVE",
        item,
        weights,
        label,
    ) {
        Some(
            SplineLayout {
                label: 6,
                first_label: false,
                net: 2,
                knots: None,
                weights: 5,
                spline: EntityType::BezierCurve,
            },
        )
    } else if has_names(
        records,
        "BOUNDED_CURVE",
        "B_SPLINE_CURVE",
        "CURVE",
        item,
        "QUASI_UNIFORM_CURVE",
        weights,
        label,
    ) {
        Some(
            SplineLayout {
                label: 6,
                first_label: true,
                net: 1,
                knots: None,
                weights: 5,
                spline: EntityType::QuasiUniformCurve,
            },
        )
    } else if has_names(
        records,
        "BOUNDED_CURVE",
        "B_SPLINE_CURVE",
        "CURVE",
        item,
        weights,
        label,
        "UNIFORM_CURVE",
    ) {
        Some(
            SplineLayout {
                label: 5,
                first_label: true,
                net: 1,
                knots: None,
                weights: 4,
                spline: EntityType::UniformCurve,
            },
        )
    } else {
        None
    }
}

fn find_surface_layout(records: &Vec<RecordRef>) -> (r: Option<SplineLayout>)
    ensures
        r == surface_layout(record_models(records@)),
{
    let item = "GEOMETRIC_REPRESENTATION_ITEM";
    let weights = "RATIONAL_B_SPLINE_SURFACE";
    let label = "REPRESENTATION_ITEM";
    if has_names(
        records,
        "BOUNDED_SURFACE",
        "B_SPLINE_SURFACE",
        "B_SPLINE_SURFACE_WITH_KNOTS",
        item,
        weights,
        label,
        "SURFACE",
    ) {
        Some(
            SplineLayout {
                label: 5,
                first_label: false,
                net: 1,
                knots: Some(2),
                weights: 4,
                spline: EntityType::BsplineSurfaceWithKnots,
            },
        )
    } else if has_names(
        records,
        "BEZIER_SURFACE",
        "BOUNDED_SURFACE",
        "B_SPLINE_SURFACE",
        item,
        weights,
        label,
        "SURFACE",
    ) {
        Some(
            SplineLayout {
                label: 5,
                first_label: false,
                net: 2,
                knots: None,
                weights: 4,
                spline: EntityType::BezierSurface,
            },
        )
    } else if has_names(
        records,
        "BOUNDED_SURFACE",
        "B_SPLINE_SURFACE",
        item,
        "QUASI_UNIFORM_SURFACE",
        weights,
        label,
        "SURFACE",
    ) {
        Some(
            SplineLayout {
                label: 5,
                first_label: false,
                net: 1,
                knots: None,
                weights: 4,
                spline: EntityType::QuasiUniformSurface,
            },
        )
    } else if has_names(
        records,
        "BOUNDED_SURFACE",
        "B_SPLINE_SURFACE",
        item,
        weights,
        label,
        "SURFACE",
        "UNIFORM_SURFACE",
    ) {
        Some(
            SplineLayout {
                label: 4,
                first_label: false,
                net: 1,
                knots: None,
                weights: 3,
                spline: EntityType::UniformSurface,
            },
        )
    } else {
        None
    }
}

fn can_read_record(record: &RecordRef) -> (r: bool)
    ensures
        r == !breaks_record(record_model(*record)),
{
    match find_record_type(record.name) {
        Some(t) => read_entity(t, record.parameter) != Reading::Broken,
        None => match find_record_picks(record.name) {
            Some((count, picks)) => match items_of(record.parameter) {
                Some(parts) => if count == 0 || parts.len() == count {
                    match read_picks(&parts, &picks) {
                        Picking::Broken => false,
                        _ => true,
                    }
                } else {
                    true
                },
                None => true,
            },
            None => true,
        },
    }
}

fn can_read_spline(records: &Vec<RecordRef>, at: SplineLayout) -> (r: bool)
    requires
        at.label < records@.len(),
        at.net < records@.len(),
        at.weights < records@.len(),
        at.knots matches Some(k) ==> k < records@.len(),
    ensures
        r == !breaks_spline(record_models(records@), at),
{
    let ghost models = record_models(records@);
    let label = match items_of(records[at.label].parameter) {
        Some(v) => v,
        None => return true,
    };
    let net = match items_of(records[at.net].parameter) {
        Some(v) => v,
        None => return true,
    };
    let weights = match items_of(records[at.weights].parameter) {
        Some(v) => v,
        None => return true,
    };
    let knots = match at.knots {
        Some(k) => match items_of(records[k].parameter) {
            Some(v) => v,
            None => return true,
        },
        None => Vec::new(),
    };
    if at.first_label && label.len() == 0 {
        return false;
    }
    let ghost all = joined_parameters(
        part_models(label@),
        part_models(net@),
        part_models(knots@),
        at.first_label,
    );
    let mut joined: Vec<&monstertruck::step::load::step_p21::ast::Parameter> = Vec::new();
    if at.first_label {
        joined.push(label[0]);
    } else {
        push_all(&mut joined, &label);
    }
    push_all(&mut joined, &net);
    push_all(&mut joined, &knots);
    assert(part_models(joined@) =~= all);
    assert(all == joined_parameters(
        items(models[at.label as int]),
        items(models[at.net as int]),
        match at.knots {
            Some(k) => items(models[k as int]),
            None => Seq::empty(),
        },
        at.first_label,
    )) by {
        if at.knots is None {
            assert(part_models(knots@) =~= Seq::empty());
        }
    }
    match read_fields(at.spline, &joined) {
        Reading::Taken => weights.len() > 0,
        Reading::Refused => true,
        Reading::Broken => false,
    }
}

fn push_all<'a>(
    joined: &mut Vec<&'a monstertruck::step::load::step_p21::ast::Parameter>,
    parts: &Vec<&'a monstertruck::step::load::step_p21::ast::Parameter>,
)
    ensures
        final(joined)@ == old(joined)@ + parts@,
{
    let mut i: usize = 0;
    while i < parts.len()
        invariant
            i <= parts.len(),
            joined@ == old(joined)@ + parts@.take(i as int),
        decreases parts.len() - i,
    {
        joined.push(parts[i]);
        i += 1;
        assert(joined@ =~= old(joined)@ + parts@.take(i as int));
    }
    assert(parts@.take(parts@.len() as int) =~= parts@);
}

fn can_read_relationship(records: &Vec<RecordRef>) -> (r: bool)
    ensures
        r == ({
            let models = record_models(records@);
            !(is_relationship(models) && breaks_relationship(models))
        }),
{
    if records.len() != 3 || !is_word(records[0].name, "REPRESENTATION_RELATIONSHIP") || !is_word(
        records[1].name,
        "REPRESENTATION_RELATIONSHIP_WITH_TRANSFORMATION",
    ) || !is_word(records[2].name, "SHAPE_REPRESENTATION_RELATIONSHIP") {
        return true;
    }
    let relation = match items_of(records[0].parameter) {
        Some(v) => v,
        None => return true,
    };
    let transformation = match items_of(records[1].parameter) {
        Some(v) => v,
        None => return true,
    };
    let picks = vec![
        Pick { place: 0, field: Field::OptionalText },
        Pick { place: 1, field: Field::OptionalText },
        Pick { place: 2, field: Field::Ref(EntityType::ShapeRepresentation) },
        Pick { place: 3, field: Field::Ref(EntityType::ShapeRepresentation) },
    ];
    assert(picks@ =~= relationship_picks());
    match read_picks(&relation, &picks) {
        Picking::Refused => true,
        Picking::Taken => {
            if transformation.len() == 0 {
                return false;
            }
            let field = Field::Ref(EntityType::ItemDefinedTransformation);
            assert(part_models(transformation@)[0] == exchange::ast_parameter(
                *transformation@[0],
            ));
            read_field(field, transformation[0]) != Reading::Broken
        },
        _ => false,
    }
}

fn can_read_entity(entity: &EntityRecords) -> (r: bool)
    ensures
        r == !breaks_whole(
            EntityModel { simple: entity.simple, records: record_models(entity.records@) },
        ),
{
    if entity.simple {
        return entity.records.len() == 0 || can_read_record(&entity.records[0]);
    }
    match find_curve_layout(&entity.records) {
        Some(at) => can_read_spline(&entity.records, at),
        None => match find_surface_layout(&entity.records) {
            Some(at) => can_read_spline(&entity.records, at),
            None => can_read_relationship(&entity.records),
        },
    }
}

/// Tells whether a table can be made of the entities.
pub(crate) fn can_read_section(entities: &Vec<EntityRecords>) -> (r: bool)
    ensures
        r == section_reads(entity_models(entities@)),
{
    let ghost models = entity_models(entities@);
    let mut i: usize = 0;
    while i < entities.len()
        invariant
            i <= entities.len(),
            models == entity_models(entities@),
            forall|k: int| 0 <= k < i ==> !breaks_whole(#[trigger] models[k]),
        decreases entities.len() - i,
    {
        if !can_read_entity(&entities[i]) {
            assert(breaks_whole(models[i as int]));
            return false;
        }
        i += 1;
    }
    true
}

} // verus!
