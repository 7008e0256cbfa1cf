//! The exchange structure of a STEP file: its header, and the table of its
//! entities.

use monstertruck::step::load::step_p21::ast::EntityInstance;
use monstertruck::step::load::step_p21::ast::Name;
use monstertruck::step::load::step_p21::ast::Parameter as AstParameter;
use monstertruck::step::load::step_p21::parser::exchange::exchange_file;
use monstertruck::step::load::step_p21::tables::PlaceHolder;
use monstertruck::step::load::Table;
use std::collections::HashMap;
use vstd::prelude::*;

use crate::entities;
use crate::entities::{can_read_section, EntityModel, EntityRecords, RecordRef};
use crate::numbers;
use crate::order;
use crate::order::{reversed, sort_ids};
use crate::parameter::{HeaderEntry, HeaderParameter, StepMetadata};

verus! {

broadcast use vstd::std_specs::hash::group_hash_axioms;

/// The exchange structure of `step_p21`.
#[verifier::external_type_specification]
#[verifier::external_body]
pub struct ExExchange(monstertruck::step::load::step_p21::ast::Exchange);

/// The parameter of `step_p21`.
#[verifier::external_type_specification]
#[verifier::external_body]
pub struct ExAstParameter(monstertruck::step::load::step_p21::ast::Parameter);

/// The table of entities of `monstertruck`.
#[verifier::external_type_specification]
#[verifier::external_body]
pub struct ExTable(monstertruck::step::load::Table);

/// A parameter, with its texts as sequences.
pub ghost enum ParameterModel {
    Typed { keyword: Seq<char>, parameter: Box<ParameterModel> },
    Integer(i64),
    Real(Seq<char>),
    Text(Seq<char>),
    Enumeration(Seq<char>),
    List(Seq<ParameterModel>),
    Ref(Seq<char>),
    NotProvided,
    Omitted,
}

pub open spec fn parameter_model(p: HeaderParameter) -> ParameterModel
    decreases p,
{
    match p {
        HeaderParameter::Typed { keyword, parameter } => ParameterModel::Typed {
            keyword: keyword@,
            parameter: Box::new(parameter_model(*parameter)),
        },
        HeaderParameter::Integer(n) => ParameterModel::Integer(n),
        HeaderParameter::Real(x) => ParameterModel::Real(x@),
        HeaderParameter::String(s) => ParameterModel::Text(s@),
        HeaderParameter::Enumeration(e) => ParameterModel::Enumeration(e@),
        HeaderParameter::List(items) => ParameterModel::List(
            Seq::new(
                items@.len(),
                |i: int|
                    if 0 <= i < items@.len() {
                        parameter_model(items@[i])
                    } else {
                        ParameterModel::Omitted
                    },
            ),
        ),
        HeaderParameter::Ref(name) => ParameterModel::Ref(name@),
        HeaderParameter::NotProvided => ParameterModel::NotProvided,
        HeaderParameter::Omitted => ParameterModel::Omitted,
    }
}

/// What a table knows of a solid: its outer shell and its voids, as far as
/// they are given by the numbers of entities.
pub ghost struct SolidModel {
    pub outer: Option<u64>,
    pub voids: Seq<Option<u64>>,
}

/// What a table holds of shells and solids, by the numbers of the entities.
pub ghost struct TableModel {
    pub shells: Set<u64>,
    /// The shell that an oriented shell stands for, if it is given by number.
    pub oriented: Map<u64, Option<u64>>,
    pub solids: Map<u64, SolidModel>,
}

/// A data section: the records of its entities, and what a table made of it
/// holds.
pub ghost struct SectionModel {
    pub entities: Seq<EntityModel>,
    pub table: TableModel,
}

/// What an exchange structure holds: the names and parameters of its header,
/// and its data sections.
pub ghost struct ExchangeModel {
    pub headers: Seq<(Seq<char>, ParameterModel)>,
    pub sections: Seq<SectionModel>,
}

/// What a parameter of `step_p21` holds.
pub uninterp spec fn ast_parameter(
    p: monstertruck::step::load::step_p21::ast::Parameter,
) -> ParameterModel;

/// What an exchange structure holds in its header: names with parameters.
pub uninterp spec fn exchange_headers(
    e: monstertruck::step::load::step_p21::ast::Exchange,
) -> Seq<(Seq<char>, ParameterModel)>;

/// What an exchange structure holds in its data sections. The table of a
/// section matters only where one can be made of its entities.
pub uninterp spec fn exchange_sections(
    e: monstertruck::step::load::step_p21::ast::Exchange,
) -> Seq<SectionModel>;

/// What a table holds.
pub uninterp spec fn table_model(t: monstertruck::step::load::Table) -> TableModel;

/// What `step_p21::parser::exchange::exchange_file` makes of a text, if it
/// accepts it: the header and the data sections.
pub uninterp spec fn parsed_exchange(raw: Seq<char>) -> Option<ExchangeModel>;

/// `step_p21::parser::exchange::exchange_file`, the parser of a whole file. It
/// panics on a whole number or an exponent that does not fit an `i64`, and it
/// calls itself for each bracket that is open, so texts with such a number or
/// with many open brackets are left out. What it accepts and what it makes of
/// that depends on the text alone. What follows the end of the structure is
/// dropped.
#[verifier::external_body]
pub(crate) fn parse_exchange(raw: &str) -> (r: Option<
    monstertruck::step::load::step_p21::ast::Exchange,
>)
    requires
        numbers::readable(raw@),
    ensures
        match r {
            Some(e) => parsed_exchange(raw@) == Some(
                ExchangeModel { headers: exchange_headers(e), sections: exchange_sections(e) },
            ),
            None => parsed_exchange(raw@) is None,
        },
{
    exchange_file(raw).ok().map(|(_, e)| e)
}

/// A parameter of `step_p21` without its parts.
pub enum ParameterHead {
    Typed(String),
    Integer(i64),
    Real(String),
    Text(String),
    Enumeration(String),
    List,
    Ref(String),
    NotProvided,
    Omitted,
}

/// The parameter that is made of a head and its parts.
pub open spec fn assembled(head: ParameterHead, parts: Seq<ParameterModel>) -> ParameterModel {
    match head {
        ParameterHead::Typed(keyword) => ParameterModel::Typed {
            keyword: keyword@,
            parameter: Box::new(parts[0]),
        },
        ParameterHead::Integer(n) => ParameterModel::Integer(n),
        ParameterHead::Real(x) => ParameterModel::Real(x@),
        ParameterHead::Text(s) => ParameterModel::Text(s@),
        ParameterHead::Enumeration(e) => ParameterModel::Enumeration(e@),
        ParameterHead::List => ParameterModel::List(parts),
        ParameterHead::Ref(name) => ParameterModel::Ref(name@),
        ParameterHead::NotProvided => ParameterModel::NotProvided,
        ParameterHead::Omitted => ParameterModel::Omitted,
    }
}

pub open spec fn ast_parameters(
    parts: Seq<monstertruck::step::load::step_p21::ast::Parameter>,
) -> Seq<ParameterModel> {
    parts.map_values(|p: monstertruck::step::load::step_p21::ast::Parameter| ast_parameter(p))
}

/// The parts of a parameter of `step_p21`: a typed parameter has one, a list
/// those that it holds, any other none. A real number comes as its decimal
/// text and a reference as its debug text.
#[verifier::external_body]
fn take_apart(p: monstertruck::step::load::step_p21::ast::Parameter) -> (r: (
    ParameterHead,
    Vec<monstertruck::step::load::step_p21::ast::Parameter>,
))
    ensures
        ast_parameter(p) == assembled(r.0, ast_parameters(r.1@)),
        r.0 is Typed ==> r.1@.len() == 1,
{
    match p {
        AstParameter::Typed { keyword, parameter } => (ParameterHead::Typed(keyword), vec![*parameter]),
        AstParameter::Integer(n) => (ParameterHead::Integer(n), vec![]),
        AstParameter::Real(x) => (ParameterHead::Real(x.to_string()), vec![]),
        AstParameter::String(s) => (ParameterHead::Text(s), vec![]),
        AstParameter::Enumeration(e) => (ParameterHead::Enumeration(e), vec![]),
        AstParameter::List(items) => (ParameterHead::List, items),
        AstParameter::Ref(name) => (ParameterHead::Ref(format!("{name:?}")), vec![]),
        AstParameter::NotProvided => (ParameterHead::NotProvided, vec![]),
        AstParameter::Omitted => (ParameterHead::Omitted, vec![]),
    }
}

pub open spec fn parameter_models(items: Seq<HeaderParameter>) -> Seq<ParameterModel> {
    Seq::new(items.len(), |i: int| parameter_model(items[i]))
}

fn convert_parameter(p: monstertruck::step::load::step_p21::ast::Parameter) -> (r: HeaderParameter)
    ensures
        parameter_model(r) == ast_parameter(p),
    decreases ast_parameter(p), 1nat,
{
    let ghost model = ast_parameter(p);
    let (head, mut parts) = take_apart(p);
    let ghost given = parts@;
    match head {
        ParameterHead::Typed(keyword) => {
            assert(ast_parameters(given)[0] == ast_parameter(given[0]));
            match parts.pop() {
                Some(part) => {
                    assert(part == given[0]);
                    assert(ast_parameter(part) == *model->parameter);
                    assert(decreases_to!(model => *model->parameter));
                    let inner = convert_parameter(part);
                    HeaderParameter::Typed { keyword, parameter: Box::new(inner) }
                },
                None => HeaderParameter::Omitted,
            }
        },
        ParameterHead::Integer(n) => HeaderParameter::Integer(n),
        ParameterHead::Real(x) => HeaderParameter::Real(x),
        ParameterHead::Text(s) => HeaderParameter::String(s),
        ParameterHead::Enumeration(e) => HeaderParameter::Enumeration(e),
        ParameterHead::List => {
            let items = convert_parameters(parts);
            let r = HeaderParameter::List(items);
            assert(parameter_model(r)->List_0 =~= parameter_models(items@));
            r
        },
        ParameterHead::Ref(name) => HeaderParameter::Ref(name),
        ParameterHead::NotProvided => HeaderParameter::NotProvided,
        ParameterHead::Omitted => HeaderParameter::Omitted,
    }
}

fn convert_parameters(list: Vec<monstertruck::step::load::step_p21::ast::Parameter>) -> (r: Vec<
    HeaderParameter,
>)
    ensures
        parameter_models(r@) == ast_parameters(list@),
    decreases ParameterModel::List(ast_parameters(list@)), 0nat,
{
    let mut rest = reversed(list);
    let ghost given = list@;
    let mut items: Vec<HeaderParameter> = Vec::new();
    while rest.len() > 0
        invariant
            given == list@,
            rest@ == given.reverse().take(rest@.len() as int),
            rest@.len() + items@.len() == given.len(),
            forall|k: int|
                0 <= k < items@.len() ==> parameter_model(#[trigger] items@[k]) == ast_parameter(
                    given[k],
                ),
        decreases rest.len(),
    {
        let ghost at = items@.len() as int;
        match rest.pop() {
            Some(part) => {
                proof {
                    assert(part == given[at]);
                    let parts = ast_parameters(given);
                    let model = ParameterModel::List(parts);
                    assert(parts[at] == ast_parameter(part));
                    assert(decreases_to!(model => model->List_0));
                    assert(decreases_to!(parts => parts[at]));
                    assert(decreases_to!(model => parts[at]));
                }
                items.push(convert_parameter(part));
            },
            None => {},
        }
    }
    assert(parameter_models(items@) =~= ast_parameters(given));
    items
}

/// The records of the header of an exchange structure, with its names and
/// parameters copied.
#[verifier::external_body]
fn header_records(e: &monstertruck::step::load::step_p21::ast::Exchange) -> (r: Vec<
    (String, monstertruck::step::load::step_p21::ast::Parameter),
>)
    ensures
        r@.len() == exchange_headers(*e).len(),
        forall|i: int|
            0 <= i < r@.len() ==> (#[trigger] r@[i]).0@ == exchange_headers(*e)[i].0
                && ast_parameter(r@[i].1) == exchange_headers(*e)[i].1,
{
    e.header.iter().map(|record| (record.name.clone(), record.parameter.clone())).collect()
}

/// The number of entities in each data section of an exchange structure.
#[verifier::external_body]
fn section_sizes(e: &monstertruck::step::load::step_p21::ast::Exchange) -> (r: Vec<usize>)
    ensures
        r@.len() == exchange_sections(*e).len(),
        forall|i: int| 0 <= i < r@.len() ==> #[trigger] r@[i] == exchange_sections(
            *e,
        )[i].entities.len(),
{
    e.data.iter().map(|section| section.entities.len()).collect()
}

/// The records of the first data section of an exchange structure, without
/// copies.
#[verifier::external_body]
fn first_records<'a>(e: &'a monstertruck::step::load::step_p21::ast::Exchange) -> (r: Vec<
    EntityRecords<'a>,
>)
    requires
        exchange_sections(*e).len() > 0,
    ensures
        entities::entity_models(r@) == exchange_sections(*e)[0].entities,
{
    e.data[0].entities.iter().map(|entity| match entity {
        EntityInstance::Simple { record, .. } => EntityRecords {
            simple: true,
            records: vec![RecordRef { name: &record.name, parameter: &record.parameter }],
        },
        EntityInstance::Complex { subsuper, .. } => EntityRecords {
            simple: false,
            records: subsuper.0.iter().map(|record| RecordRef {
                name: &record.name,
                parameter: &record.parameter,
            }).collect(),
        },
    }).collect()
}

/// `Table::from_data_section` on the first data section of an exchange
/// structure. It reads each entity field by field and passes over one that it
/// refuses. It panics where it reads an enumeration as a reference, and where a
/// partial record lacks a parameter that it takes for granted, so those are left
/// out.
#[verifier::external_body]
fn first_table(e: &monstertruck::step::load::step_p21::ast::Exchange) -> (r:
    monstertruck::step::load::Table)
    requires
        exchange_sections(*e).len() > 0,
        entities::section_reads(exchange_sections(*e)[0].entities),
    ensures
        table_model(r) == exchange_sections(*e)[0].table,
{
    Table::from_data_section(&e.data[0])
}

/// The keys of `Table::shell`, in no fixed order.
#[verifier::external_body]
fn shell_keys(table: &monstertruck::step::load::Table) -> (r: Vec<u64>)
    ensures
        r@.no_duplicates(),
        r@.to_set() == table_model(*table).shells,
{
    table.shell.keys().copied().collect()
}

/// The keys of `Table::manifold_solid_brep`, in no fixed order.
#[verifier::external_body]
fn solid_keys(table: &monstertruck::step::load::Table) -> (r: Vec<u64>)
    ensures
        r@.no_duplicates(),
        r@.to_set() == table_model(*table).solids.dom(),
{
    table.manifold_solid_brep.keys().copied().collect()
}

/// The entry of `Table::oriented_shell` with the given key: the number of the
/// shell that it stands for, if it is given by number.
#[verifier::external_body]
fn oriented_target(table: &monstertruck::step::load::Table, id: u64) -> (r: Option<u64>)
    ensures
        r == (if table_model(*table).oriented.dom().contains(id) {
            table_model(*table).oriented[id]
        } else {
            None
        }),
{
    match table.oriented_shell.get(&id).map(|shell| &shell.shell_element) {
        Some(PlaceHolder::Ref(Name::Entity(target))) => Some(*target),
        _ => None,
    }
}

/// The entry of `Table::manifold_solid_brep` with the given key: the numbers
/// of its outer shell and of its voids, as far as they are given by number.
#[verifier::external_body]
fn solid_references(table: &monstertruck::step::load::Table, id: u64) -> (r: (
    Option<u64>,
    Vec<Option<u64>>,
))
    requires
        table_model(*table).solids.dom().contains(id),
    ensures
        r.0 == table_model(*table).solids[id].outer,
        r.1@ == table_model(*table).solids[id].voids,
{
    let solid = &table.manifold_solid_brep[&id];
    let outer = match &solid.outer {
        PlaceHolder::Ref(Name::Entity(target)) => Some(*target),
        _ => None,
    };
    let voids = solid.voids.iter().map(|void| match void {
        PlaceHolder::Ref(Name::Entity(target)) => Some(*target),
        _ => None,
    }).collect();
    (outer, voids)
}

/// The shell that a number stands for: an oriented shell stands for another.
pub open spec fn resolved(t: TableModel, id: u64) -> u64 {
    if t.oriented.dom().contains(id) && t.oriented[id] is Some {
        t.oriented[id]->0
    } else {
        id
    }
}

/// The shell is the outer shell or a void of the solid.
pub open spec fn bounds(t: TableModel, solid: u64, shell: u64) -> bool {
    &&& t.solids.dom().contains(solid)
    &&& {
        ||| t.solids[solid].outer is Some && resolved(t, t.solids[solid].outer->0) == shell
        ||| exists|i: int|
            0 <= i < t.solids[solid].voids.len() && (#[trigger] t.solids[solid].voids[i]) is Some
                && resolved(t, t.solids[solid].voids[i]->0) == shell
    }
}

/// The map gives for each shell that bounds a solid the one with the largest
/// number, and holds no other shell.
pub open spec fn owns_shells(owners: Map<u64, u64>, t: TableModel) -> bool {
    &&& forall|shell: u64| #[trigger]
        owners.dom().contains(shell) ==> bounds(t, owners[shell], shell)
    &&& forall|shell: u64, solid: u64| #[trigger]
        bounds(t, solid, shell) ==> owners.dom().contains(shell) && solid <= owners[shell]
}

/// The number of the shell that a number stands for.
pub fn resolve_to_shell_id(table: &monstertruck::step::load::Table, id: u64) -> (r: u64)
    ensures
        r == resolved(table_model(*table), id),
{
    match oriented_target(table, id) {
        Some(target) => target,
        None => id,
    }
}

/// The solid that each shell bounds. Where a shell bounds more than one, it is
/// the one with the largest number.
pub fn build_shell_to_solid_map(table: &monstertruck::step::load::Table) -> (r: HashMap<u64, u64>)
    ensures
        owns_shells(r@, table_model(*table)),
{
    let ghost t = table_model(*table);
    let keys = solid_keys(table);
    let solids = sort_ids(keys.as_slice());
    let mut owners: HashMap<u64, u64> = HashMap::new();
    let mut i: usize = 0;
    while i < solids.len()
        invariant
            t == table_model(*table),
            i <= solids.len(),
            order::ascending(solids@),
            keys@.to_set() == t.solids.dom(),
            forall|x: u64| #[trigger] solids@.contains(x) <==> keys@.contains(x),
            forall|shell: u64| #[trigger]
                owners@.dom().contains(shell) ==> bounds(t, owners@[shell], shell)
                    && solids@.take(i as int).contains(owners@[shell]),
            forall|shell: u64, k: int|
                0 <= k < i && #[trigger] bounds(t, solids@[k], shell) ==> owners@.dom().contains(
                    shell,
                ) && solids@[k] <= owners@[shell],
        decreases solids.len() - i,
    {
        let solid: u64 = solids[i];
        proof {
            assert(solids@.contains(solid));
            assert(keys@.to_set().contains(solid));
        }
        let (outer, voids) = solid_references(table, solid);
        let ghost before = owners@;
        match outer {
            Some(id) => {
                owners.insert(resolve_to_shell_id(table, id), solid);
            },
            None => {},
        }
        let mut k: usize = 0;
        while k < voids.len()
            invariant
                t == table_model(*table),
                k <= voids.len(),
                t.solids.dom().contains(solid),
                outer == t.solids[solid].outer,
                voids@ == t.solids[solid].voids,
                forall|shell: u64| #[trigger]
                    owners@.dom().contains(shell) ==> (if owners@[shell] == solid {
                        bounds(t, solid, shell) || before.dom().contains(shell) && before[shell]
                            == solid
                    } else {
                        before.dom().contains(shell) && before[shell] == owners@[shell]
                    }),
                forall|shell: u64| #[trigger]
                    before.dom().contains(shell) ==> owners@.dom().contains(shell) && (
                    owners@[shell] == solid || owners@[shell] == before[shell]),
                outer is Some ==> owners@.dom().contains(resolved(t, outer->0))
                    && owners@[resolved(t, outer->0)] == solid,
                forall|j: int|
                    0 <= j < k && (#[trigger] voids@[j]) is Some ==> owners@.dom().contains(
                        resolved(t, voids@[j]->0),
                    ) && owners@[resolved(t, voids@[j]->0)] == solid,
            decreases voids.len() - k,
        {
            match voids[k] {
                Some(id) => {
                    let shell = resolve_to_shell_id(table, id);
                    proof {
                        assert(t.solids[solid].voids[k as int] is Some);
                        assert(bounds(t, solid, shell));
                    }
                    owners.insert(shell, solid);
                },
                None => {},
            }
            k += 1;
        }
        proof {
            let now = solids@.take(i + 1);
            assert(now[i as int] == solid);
            assert forall|shell: u64| #[trigger] owners@.dom().contains(shell) implies bounds(
                t,
                owners@[shell],
                shell,
            ) && now.contains(owners@[shell]) by {
                if owners@[shell] != solid {
                    let prefix = solids@.take(i as int);
                    assert(before.dom().contains(shell));
                    assert(prefix.contains(before[shell]));
                    let at = choose|at: int|
                        0 <= at < prefix.len() && prefix[at] == before[shell];
                    assert(now[at] == before[shell]);
                }
            }
            assert forall|shell: u64, j: int|
                0 <= j < i + 1 && #[trigger] bounds(t, solids@[j], shell) implies
                owners@.dom().contains(shell) && solids@[j] <= owners@[shell] by {
                if j < i {
                    assert(before.dom().contains(shell));
                    assert(solids@[j] < solids@[i as int]);
                } else {
                    if !(outer is Some && resolved(t, outer->0) == shell) {
                        let at = choose|at: int|
                            0 <= at < t.solids[solid].voids.len() && (#[trigger]
                            t.solids[solid].voids[at]) is Some && resolved(
                                t,
                                t.solids[solid].voids[at]->0,
                            ) == shell;
                        assert(voids@[at] is Some);
                    }
                }
            }
        }
        i += 1;
    }
    proof {
        assert forall|shell: u64, solid: u64| #[trigger] bounds(t, solid, shell) implies
            owners@.dom().contains(shell) && solid <= owners@[shell] by {
            assert(keys@.to_set().contains(solid));
            assert(solids@.contains(solid));
            let at = choose|at: int| 0 <= at < solids@.len() && solids@[at] == solid;
            assert(bounds(t, solids@[at], shell));
        }
    }
    owners
}

/// Why a text is no STEP file that can be loaded.
pub enum OpenFailure {
    /// It is no exchange structure.
    Parse,
    /// It has no data section.
    NoData,
    /// No table can be made of its first data section: an enumeration would be
    /// read as a reference, or a partial record lacks a parameter.
    Unreadable,
}

impl OpenFailure {
    /// What is told of the failure.
    pub fn message(&self) -> (r: &'static str)
        ensures
            r@ == (match self {
                OpenFailure::Parse => "Failed to parse STEP file"@,
                OpenFailure::NoData => "STEP file has no data sections"@,
                OpenFailure::Unreadable => "an entity of the STEP file cannot be read"@,
            }),
    {
        match self {
            OpenFailure::Parse => "Failed to parse STEP file",
            OpenFailure::NoData => "STEP file has no data sections",
            OpenFailure::Unreadable => "an entity of the STEP file cannot be read",
        }
    }
}

/// A STEP file whose entities are known.
pub struct OpenedStep {
    pub metadata: StepMetadata,
    pub table: monstertruck::step::load::Table,
    /// The numbers of the shells, ascending.
    pub shell_ids: Vec<u64>,
    /// The solid that each shell bounds.
    pub owners: HashMap<u64, u64>,
}

pub open spec fn header_models(headers: Seq<HeaderEntry>) -> Seq<(Seq<char>, ParameterModel)> {
    headers.map_values(|h: HeaderEntry| (h.name@, parameter_model(h.parameter)))
}

/// The number of entities in all data sections.
pub open spec fn entity_total(sections: Seq<SectionModel>) -> nat
    decreases sections.len(),
{
    if sections.len() == 0 {
        0
    } else {
        entity_total(sections.drop_last()) + sections.last().entities.len()
    }
}

/// The numbers of the shells of a table stand in the sequence, ascending.
pub open spec fn lists_shells(ids: Seq<u64>, t: TableModel) -> bool {
    order::ascending(ids) && ids.to_set() == t.shells
}

fn header_entries(e: &monstertruck::step::load::step_p21::ast::Exchange) -> (r: Vec<HeaderEntry>)
    ensures
        header_models(r@) == exchange_headers(*e),
{
    let records = header_records(e);
    let ghost given = records@;
    let mut rest = reversed(records);
    let mut headers: Vec<HeaderEntry> = Vec::new();
    while rest.len() > 0
        invariant
            rest@ == given.reverse().take(rest@.len() as int),
            rest@.len() + headers@.len() == given.len(),
            forall|k: int|
                0 <= k < headers@.len() ==> {
                    let h = #[trigger] headers@[k];
                    h.name@ == given[k].0@ && parameter_model(h.parameter) == ast_parameter(
                        given[k].1,
                    )
                },
        decreases rest.len(),
    {
        match rest.pop() {
            Some((name, parameter)) => {
                headers.push(HeaderEntry { name, parameter: convert_parameter(parameter) });
            },
            None => {},
        }
    }
    assert(header_models(headers@) =~= exchange_headers(*e));
    headers
}

pub open spec fn capped(n: nat) -> usize {
    if n <= usize::MAX {
        n as usize
    } else {
        usize::MAX
    }
}

/// The number of entities in all data sections, or the largest number where
/// there are more.
fn count_entities(e: &monstertruck::step::load::step_p21::ast::Exchange) -> (r: usize)
    ensures
        r == capped(entity_total(exchange_sections(*e))),
{
    let sizes = section_sizes(e);
    let ghost sections = exchange_sections(*e);
    let mut sum: usize = 0;
    let mut i: usize = 0;
    while i < sizes.len()
        invariant
            i <= sizes.len(),
            sizes@.len() == sections.len(),
            forall|k: int| 0 <= k < sizes@.len() ==> #[trigger] sizes@[k] == sections[
                k
            ].entities.len(),
            sum == capped(entity_total(sections.take(i as int))),
        decreases sizes.len() - i,
    {
        assert(sections.take(i + 1).drop_last() =~= sections.take(i as int));
        sum = sum.saturating_add(sizes[i]);
        i += 1;
    }
    assert(sections.take(sections.len() as int) =~= sections);
    sum
}

/// What is known of the step file is what the exchange structure holds.
pub open spec fn opens(step: OpenedStep, e: ExchangeModel) -> bool {
    &&& e.sections.len() > 0
    &&& entities::section_reads(e.sections[0].entities)
    &&& header_models(step.metadata.headers@) == e.headers
    &&& step.metadata.entity_count == capped(entity_total(e.sections))
    &&& table_model(step.table) == e.sections[0].table
    &&& lists_shells(step.shell_ids@, table_model(step.table))
    &&& owns_shells(step.owners@, table_model(step.table))
}

/// What is known of a STEP file once its text is read: its header, the number
/// of its entities, its shells in the order of their numbers, and the solids
/// that they bound.
pub fn open_step(raw: &str) -> (r: Result<OpenedStep, OpenFailure>)
    requires
        numbers::readable(raw@),
    ensures
        match r {
            Ok(step) => parsed_exchange(raw@) matches Some(e) && opens(step, e),
            Err(OpenFailure::Parse) => parsed_exchange(raw@) is None,
            Err(OpenFailure::NoData) => parsed_exchange(raw@) matches Some(e) && e.sections.len()
                == 0,
            Err(OpenFailure::Unreadable) => parsed_exchange(raw@) matches Some(e)
                && e.sections.len() > 0 && !entities::section_reads(e.sections[0].entities),
        },
{
    match parse_exchange(raw) {
        Some(e) => {
            let sizes = section_sizes(&e);
            if sizes.len() == 0 {
                return Err(OpenFailure::NoData);
            }
            if !can_read_section(&first_records(&e)) {
                return Err(OpenFailure::Unreadable);
            }
            let table = first_table(&e);
            let metadata = StepMetadata {
                headers: header_entries(&e),
                entity_count: count_entities(&e),
            };
            let keys = shell_keys(&table);
            let shell_ids = sort_ids(keys.as_slice());
            proof {
                assert forall|x: u64| shell_ids@.to_set().contains(x) == keys@.to_set().contains(
                    x,
                ) by {
                    assert(shell_ids@.contains(x) <==> keys@.contains(x));
                }
                assert(shell_ids@.to_set() =~= keys@.to_set());
            }
            let owners = build_shell_to_solid_map(&table);
            Ok(OpenedStep { metadata, table, shell_ids, owners })
        },
        None => Err(OpenFailure::Parse),
    }
}

} // verus!
