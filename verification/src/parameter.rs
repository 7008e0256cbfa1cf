//! Parameters of the header of a STEP file, and the rows that show them.

use vstd::prelude::*;

use crate::text;
use crate::text::{push_decimal, push_signed_decimal};

verus! {

/// A parameter of a STEP entity. A real number and a reference are kept as
/// the text that stands for them.
pub enum HeaderParameter {
    Typed { keyword: String, parameter: Box<HeaderParameter> },
    Integer(i64),
    Real(String),
    String(String),
    Enumeration(String),
    List(Vec<HeaderParameter>),
    Ref(String),
    NotProvided,
    Omitted,
}

/// A named entry of the header.
pub struct HeaderEntry {
    pub name: String,
    pub parameter: HeaderParameter,
}

/// What is known of a file before its shapes are.
pub struct StepMetadata {
    pub headers: Vec<HeaderEntry>,
    pub entity_count: usize,
}

/// How a row of a parameter is shown.
#[derive(Clone, Copy, Debug, PartialEq, Eq, Structural)]
pub enum RowKind {
    /// One line.
    Label,
    /// One line that wraps.
    Wrapped,
    /// A label followed by a text that wraps; the text stands in `detail`.
    LabelledText,
    /// A section that folds, open or not; `detail` tells it from others.
    Section { open: bool },
    /// A line with an indented part below; `detail` tells it from others.
    Indent,
}

/// A row that shows a parameter or a part of it.
pub struct ParameterRow {
    pub depth: usize,
    pub kind: RowKind,
    pub text: String,
    pub detail: String,
}

pub ghost struct RowModel {
    pub depth: nat,
    pub kind: RowKind,
    pub text: Seq<char>,
    pub detail: Seq<char>,
}

impl View for ParameterRow {
    type V = RowModel;

    open spec fn view(&self) -> RowModel {
        RowModel {
            depth: self.depth as nat,
            kind: self.kind,
            text: self.text@,
            detail: self.detail@,
        }
    }
}

pub open spec fn row_views(rows: Seq<ParameterRow>) -> Seq<RowModel> {
    rows.map_values(|r: ParameterRow| r@)
}

pub open spec fn is_leaf(p: HeaderParameter) -> bool {
    !(p is Typed) && !(p is List)
}

/// The text of a parameter that has no parts.
pub open spec fn leaf_text(p: HeaderParameter) -> Seq<char> {
    match p {
        HeaderParameter::String(s) => if s@.len() == 0 {
            "(empty)"@
        } else {
            "'"@ + s@ + "'"@
        },
        HeaderParameter::Integer(n) => text::signed_decimal(n as int),
        HeaderParameter::Real(x) => x@,
        HeaderParameter::Enumeration(e) => "."@ + e@ + "."@,
        HeaderParameter::Ref(name) => name@,
        HeaderParameter::NotProvided => "$"@,
        HeaderParameter::Omitted => "*"@,
        _ => "..."@,
    }
}

/// The texts of the first items with commas between them.
pub open spec fn joined_leaves(items: Seq<HeaderParameter>) -> Seq<char>
    decreases items.len(),
{
    if items.len() == 0 {
        Seq::empty()
    } else if items.len() == 1 {
        leaf_text(items[0])
    } else {
        joined_leaves(items.drop_last()) + ", "@ + leaf_text(items.last())
    }
}

pub open spec fn all_leaves(items: Seq<HeaderParameter>) -> bool {
    forall|i: int| 0 <= i < items.len() ==> is_leaf(#[trigger] items[i])
}

pub open spec fn row(depth: nat, kind: RowKind, text: Seq<char>, detail: Seq<char>) -> RowModel {
    RowModel { depth, kind, text, detail }
}

/// The deepest level at which parts are shown.
pub const MAX_PARAMETER_DEPTH: usize = 4;

/// The rows of a parameter. Short lists of plain values stand in one line,
/// and below the deepest level parts are left out.
pub open spec fn parameter_rows(p: HeaderParameter, label: Seq<char>, depth: nat) -> Seq<RowModel>
    decreases 5 - depth, 0int, 0nat,
{
    let none = Seq::<char>::empty();
    if depth > MAX_PARAMETER_DEPTH {
        seq![row(depth, RowKind::Label, label + ": ..."@, none)]
    } else {
        match p {
            HeaderParameter::List(items) => if items@.len() == 0 {
                seq![row(depth, RowKind::Label, label + ": []"@, none)]
            } else if items@.len() <= 3 && all_leaves(items@) {
                seq![
                    row(
                        depth,
                        RowKind::Wrapped,
                        label + ": ["@ + joined_leaves(items@) + "]"@,
                        none,
                    ),
                ]
            } else {
                seq![
                    row(
                        depth,
                        RowKind::Section { open: depth < 1 },
                        label + " ("@ + text::decimal(items@.len()) + ")"@,
                        label + "_"@ + text::decimal(depth),
                    ),
                ] + item_rows(items@, depth + 1)
            },
            HeaderParameter::Typed { keyword, parameter } => if is_leaf(*parameter) {
                seq![
                    row(
                        depth,
                        RowKind::Wrapped,
                        label + ": "@ + keyword@ + " = "@ + leaf_text(*parameter),
                        none,
                    ),
                ]
            } else {
                seq![
                    row(
                        depth,
                        RowKind::Indent,
                        label + ": "@ + keyword@,
                        label + "_typed_"@ + text::decimal(depth),
                    ),
                ] + parameter_rows(*parameter, "value"@, depth + 1)
            },
            HeaderParameter::String(s) => if s@.len() == 0 {
                seq![row(depth, RowKind::Label, label + ": (empty)"@, none)]
            } else {
                seq![row(depth, RowKind::LabelledText, label + ":"@, s@)]
            },
            _ => seq![row(depth, RowKind::Label, label + ": "@ + leaf_text(p), none)],
        }
    }
}

/// The rows of the first items of a list, each labelled with its place.
pub open spec fn item_rows(items: Seq<HeaderParameter>, depth: nat) -> Seq<RowModel>
    decreases 5 - depth, 1int, items.len(),
{
    if items.len() == 0 {
        Seq::empty()
    } else {
        let i = (items.len() - 1) as nat;
        item_rows(items.drop_last(), depth) + parameter_rows(
            items.last(),
            "["@ + text::decimal(i) + "]"@,
            depth,
        )
    }
}

pub fn is_leaf_param(p: &HeaderParameter) -> (r: bool)
    ensures
        r == is_leaf(*p),
{
    match p {
        HeaderParameter::Typed { .. } => false,
        HeaderParameter::List(_) => false,
        _ => true,
    }
}

/// The text of a parameter that has no parts.
pub fn format_leaf_param(p: &HeaderParameter) -> (r: String)
    ensures
        r@ == leaf_text(*p),
{
    let mut out = String::new();
    match p {
        HeaderParameter::String(s) => {
            if s.as_str().is_empty() {
                out.append("(empty)");
            } else {
                out.append("'");
                out.append(s.as_str());
                out.append("'");
            }
        },
        HeaderParameter::Integer(n) => {
            push_signed_decimal(&mut out, *n);
        },
        HeaderParameter::Real(x) => {
            out.append(x.as_str());
        },
        HeaderParameter::Enumeration(e) => {
            out.append(".");
            out.append(e.as_str());
            out.append(".");
        },
        HeaderParameter::Ref(name) => {
            out.append(name.as_str());
        },
        HeaderParameter::NotProvided => {
            out.append("$");
        },
        HeaderParameter::Omitted => {
            out.append("*");
        },
        _ => {
            out.append("...");
        },
    }
    assert(out@ =~= leaf_text(*p));
    out
}

fn join_leaves(items: &Vec<HeaderParameter>) -> (r: String)
    ensures
        r@ == joined_leaves(items@),
{
    let mut out = String::new();
    let mut i: usize = 0;
    while i < items.len()
        invariant
            i <= items.len(),
            out@ == joined_leaves(items@.take(i as int)),
        decreases items.len() - i,
    {
        if i > 0 {
            out.append(", ");
        }
        let leaf = format_leaf_param(&items[i]);
        out.append(leaf.as_str());
        proof {
            let longer = items@.take(i + 1);
            assert(longer.drop_last() =~= items@.take(i as int));
            assert(out@ =~= joined_leaves(longer));
        }
        i += 1;
    }
    assert(items@.take(items.len() as int) =~= items@);
    out
}

fn only_leaves(items: &Vec<HeaderParameter>) -> (r: bool)
    ensures
        r == all_leaves(items@),
{
    let mut i: usize = 0;
    while i < items.len()
        invariant
            i <= items.len(),
            forall|k: int| 0 <= k < i ==> is_leaf(#[trigger] items@[k]),
        decreases items.len() - i,
    {
        if !is_leaf_param(&items[i]) {
            assert(!is_leaf(items@[i as int]));
            return false;
        }
        i += 1;
    }
    true
}

fn concat3(a: &str, b: &str, c: &str) -> (r: String)
    ensures
        r@ == a@ + b@ + c@,
{
    let mut out = String::new();
    out.append(a);
    out.append(b);
    out.append(c);
    assert(out@ =~= a@ + b@ + c@);
    out
}

fn concat4(a: &str, b: &str, c: &str, d: &str) -> (r: String)
    ensures
        r@ == a@ + b@ + c@ + d@,
{
    let mut out = concat3(a, b, c);
    out.append(d);
    out
}

fn push_row(
    rows: &mut Vec<ParameterRow>,
    depth: usize,
    kind: RowKind,
    text: String,
    detail: String,
)
    ensures
        row_views(final(rows)@) == row_views(old(rows)@) + seq![
            row(depth as nat, kind, text@, detail@),
        ],
{
    let ghost before = rows@;
    let ghost shown = row(depth as nat, kind, text@, detail@);
    rows.push(ParameterRow { depth, kind, text, detail });
    assert(row_views(rows@) =~= row_views(before) + seq![shown]);
}

/// Appends the rows of a parameter.
pub fn parameter_ui(rows: &mut Vec<ParameterRow>, p: &HeaderParameter, label: &str, depth: usize)
    ensures
        row_views(final(rows)@) == row_views(old(rows)@) + parameter_rows(*p, label@, depth as nat),
    decreases 6 - depth,
{
    let ghost start = row_views(rows@);
    if depth > MAX_PARAMETER_DEPTH {
        push_row(rows, depth, RowKind::Label, concat3(label, ": ...", ""), String::new());
        assert(label@ + ": ..."@ + ""@ =~= label@ + ": ..."@) by {
            reveal_strlit("");
        }
        return ;
    }
    proof {
        reveal_strlit("");
    }
    match p {
        HeaderParameter::List(items) => {
            if items.len() == 0 {
                push_row(rows, depth, RowKind::Label, concat3(label, ": []", ""), String::new());
                assert(label@ + ": []"@ + ""@ =~= label@ + ": []"@);
            } else if items.len() <= 3 && only_leaves(items) {
                let values = join_leaves(items);
                push_row(
                    rows,
                    depth,
                    RowKind::Wrapped,
                    concat4(label, ": [", values.as_str(), "]"),
                    String::new(),
                );
            } else {
                let mut title = concat3(label, " (", "");
                push_decimal(&mut title, items.len() as u64);
                title.append(")");
                let mut salt = concat3(label, "_", "");
                push_decimal(&mut salt, depth as u64);
                proof {
                    assert(title@ =~= label@ + " ("@ + text::decimal(items@.len()) + ")"@);
                    assert(salt@ =~= label@ + "_"@ + text::decimal(depth as nat));
                }
                push_row(rows, depth, RowKind::Section { open: depth < 1 }, title, salt);
                let ghost head = row_views(rows@);
                let mut i: usize = 0;
                assert(head + item_rows(items@.take(0), (depth + 1) as nat) =~= head);
                while i < items.len()
                    invariant
                        i <= items.len(),
                        depth <= MAX_PARAMETER_DEPTH,
                        row_views(rows@) == head + item_rows(
                            items@.take(i as int),
                            (depth + 1) as nat,
                        ),
                    decreases items.len() - i,
                {
                    let mut name = String::new();
                    name.append("[");
                    push_decimal(&mut name, i as u64);
                    name.append("]");
                    assert(name@ =~= "["@ + text::decimal(i as nat) + "]"@);
                    parameter_ui(rows, &items[i], name.as_str(), depth + 1);
                    proof {
                        let longer = items@.take(i + 1);
                        assert(longer.drop_last() =~= items@.take(i as int));
                        assert(row_views(rows@) =~= head + item_rows(longer, (depth + 1) as nat));
                    }
                    i += 1;
                }
                assert(items@.take(items.len() as int) =~= items@);
                assert(row_views(rows@) =~= start + parameter_rows(*p, label@, depth as nat));
            }
        },
        HeaderParameter::Typed { keyword, parameter } => {
            if is_leaf_param(parameter) {
                let value = format_leaf_param(parameter);
                let mut line = concat3(label, ": ", keyword.as_str());
                line.append(" = ");
                line.append(value.as_str());
                push_row(rows, depth, RowKind::Wrapped, line, String::new());
            } else {
                let mut salt = concat3(label, "_typed_", "");
                push_decimal(&mut salt, depth as u64);
                assert(salt@ =~= label@ + "_typed_"@ + text::decimal(depth as nat));
                push_row(
                    rows,
                    depth,
                    RowKind::Indent,
                    concat3(label, ": ", keyword.as_str()),
                    salt,
                );
                parameter_ui(rows, parameter, "value", depth + 1);
                assert(row_views(rows@) =~= start + parameter_rows(*p, label@, depth as nat));
            }
        },
        HeaderParameter::String(s) => {
            if s.as_str().is_empty() {
                push_row(
                    rows,
                    depth,
                    RowKind::Label,
                    concat3(label, ": (empty)", ""),
                    String::new(),
                );
                assert(label@ + ": (empty)"@ + ""@ =~= label@ + ": (empty)"@);
            } else {
                push_row(rows, depth, RowKind::LabelledText, concat3(label, ":", ""), s.clone());
                assert(label@ + ":"@ + ""@ =~= label@ + ":"@);
            }
        },
        _ => {
            let value = format_leaf_param(p);
            push_row(
                rows,
                depth,
                RowKind::Label,
                concat3(label, ": ", value.as_str()),
                String::new(),
            );
        },
    }
}

/// Whether two texts are the same.
pub fn same_text(a: &str, b: &str) -> (r: bool)
    ensures
        r == (a@ == b@),
{
    let x = text::chars_of(a);
    let y = text::chars_of(b);
    if x.len() != y.len() {
        return false;
    }
    let mut i: usize = 0;
    while i < x.len()
        invariant
            i <= x.len(),
            x@ == a@,
            y@ == b@,
            x@.len() == y@.len(),
            forall|k: int| 0 <= k < i ==> x@[k] == y@[k],
        decreases x.len() - i,
    {
        if x[i] != y[i] {
            return false;
        }
        i += 1;
    }
    assert(a@ =~= b@);
    true
}

/// The sections of the header that are open at first.
pub fn header_open(name: &str) -> (r: bool)
    ensures
        r == (name@ == "FILE_NAME"@ || name@ == "FILE_SCHEMA"@),
{
    same_text(name, "FILE_NAME") || same_text(name, "FILE_SCHEMA")
}

} // verus!
