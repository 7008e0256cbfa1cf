//! What the rows of a parameter show.

use vstd::prelude::*;

use crate::parameter;
use crate::parameter::{HeaderParameter, RowKind, RowModel};
use crate::text;

verus! {

/// The rows stand in a list one behind the other, from a place on.
pub open spec fn stands_at(all: Seq<RowModel>, at: int, rows: Seq<RowModel>) -> bool {
    0 <= at && at + rows.len() <= all.len() && all.subrange(at, at + rows.len()) == rows
}

/// How many rows the items before the one at `i` have.
pub open spec fn rows_before(items: Seq<HeaderParameter>, depth: nat, i: int) -> int
    decreases i,
{
    if i <= 0 {
        0
    } else {
        rows_before(items, depth, i - 1) + parameter::parameter_rows(
            items[i - 1],
            "["@ + text::decimal((i - 1) as nat) + "]"@,
            depth,
        ).len()
    }
}

proof fn lemma_rows_of_first(items: Seq<HeaderParameter>, depth: nat, n: int, i: int)
    requires
        0 <= i <= n <= items.len(),
    ensures
        rows_before(items.take(n), depth, i) == rows_before(items, depth, i),
    decreases i,
{
    if i > 0 {
        lemma_rows_of_first(items, depth, n, i - 1);
        assert(items.take(n)[i - 1] == items[i - 1]);
    }
}

/// The rows of a list are those of its items, in their order, each labelled with
/// its place.
pub proof fn law_items_are_shown_in_order(items: Seq<HeaderParameter>, depth: nat, i: int)
    requires
        0 <= i < items.len(),
    ensures
        stands_at(
            parameter::item_rows(items, depth),
            rows_before(items, depth, i),
            parameter::parameter_rows(items[i], "["@ + text::decimal(i as nat) + "]"@, depth),
        ),
        parameter::item_rows(items, depth).len() == rows_before(
            items,
            depth,
            items.len() as int,
        ),
    decreases items.len(),
{
    let n = items.len() as int;
    let fewer = items.drop_last();
    assert(fewer =~= items.take(n - 1));
    lemma_item_rows_length(items, depth);
    lemma_item_rows_length(fewer, depth);
    lemma_rows_of_first(items, depth, n - 1, n - 1);
    let own = parameter::parameter_rows(items[i], "["@ + text::decimal(i as nat) + "]"@, depth);
    let all = parameter::item_rows(items, depth);
    let before = parameter::item_rows(fewer, depth);
    let at = rows_before(items, depth, i);
    if i < n - 1 {
        law_items_are_shown_in_order(fewer, depth, i);
        lemma_rows_of_first(items, depth, n - 1, i);
        assert(fewer[i] == items[i]);
        assert(all.subrange(at, at + own.len()) =~= before.subrange(at, at + own.len()));
    } else {
        assert(all == before + own);
        assert(all.subrange(at, at + own.len()) =~= own);
    }
}

proof fn lemma_item_rows_length(items: Seq<HeaderParameter>, depth: nat)
    ensures
        parameter::item_rows(items, depth).len() == rows_before(
            items,
            depth,
            items.len() as int,
        ),
    decreases items.len(),
{
    if items.len() > 0 {
        let n = items.len() as int;
        lemma_item_rows_length(items.drop_last(), depth);
        assert(items.drop_last() =~= items.take(n - 1));
        lemma_rows_of_first(items, depth, n - 1, n - 1);
    }
}

/// Each parameter begins with a row at its own depth that starts with its label.
pub proof fn law_rows_begin_with_label(p: HeaderParameter, label: Seq<char>, depth: nat)
    ensures
        parameter::parameter_rows(p, label, depth).len() > 0,
        parameter::parameter_rows(p, label, depth)[0].depth == depth,
        label.is_prefix_of(parameter::parameter_rows(p, label, depth)[0].text),
{
    let first = parameter::parameter_rows(p, label, depth)[0].text;
    assert(first.take(label.len() as int) =~= label);
}

/// No row stands above the parameter or below the first level that is left out.
pub proof fn law_rows_keep_their_depth(p: HeaderParameter, label: Seq<char>, depth: nat, k: int)
    requires
        0 <= k < parameter::parameter_rows(p, label, depth).len(),
    ensures
        depth <= parameter::parameter_rows(p, label, depth)[k].depth,
        depth <= 5 ==> parameter::parameter_rows(p, label, depth)[k].depth <= 5,
    decreases 5 - depth, 0int, 0nat,
{
    let all = parameter::parameter_rows(p, label, depth);
    if depth <= parameter::MAX_PARAMETER_DEPTH && k > 0 {
        match p {
            HeaderParameter::List(items) => {
                lemma_item_rows_depth(items@, depth + 1, k - 1);
                assert(all[k] == parameter::item_rows(items@, depth + 1)[k - 1]);
            },
            HeaderParameter::Typed { keyword, parameter } => {
                law_rows_keep_their_depth(*parameter, "value"@, depth + 1, k - 1);
                assert(all[k] == parameter::parameter_rows(*parameter, "value"@, depth + 1)[k - 1]);
            },
            _ => {},
        }
    }
}

proof fn lemma_item_rows_depth(items: Seq<HeaderParameter>, depth: nat, k: int)
    requires
        0 <= k < parameter::item_rows(items, depth).len(),
    ensures
        depth <= parameter::item_rows(items, depth)[k].depth,
        depth <= 5 ==> parameter::item_rows(items, depth)[k].depth <= 5,
    decreases 5 - depth, 1int, items.len(),
{
    let before = parameter::item_rows(items.drop_last(), depth);
    let label = "["@ + text::decimal((items.len() - 1) as nat) + "]"@;
    if k < before.len() {
        lemma_item_rows_depth(items.drop_last(), depth, k);
    } else {
        law_rows_keep_their_depth(items.last(), label, depth, k - before.len());
    }
}

/// Short lists of plain values stand in one line, separated by commas.
pub proof fn law_short_lists_stand_in_one_line(
    a: HeaderParameter,
    b: HeaderParameter,
    c: HeaderParameter,
)
    ensures
        parameter::joined_leaves(seq![a]) == parameter::leaf_text(a),
        parameter::joined_leaves(seq![a, b]) == parameter::leaf_text(a) + ", "@
            + parameter::leaf_text(b),
        parameter::joined_leaves(seq![a, b, c]) == parameter::leaf_text(a) + ", "@
            + parameter::leaf_text(b) + ", "@ + parameter::leaf_text(c),
{
    reveal_with_fuel(parameter::joined_leaves, 4);
    assert(seq![a, b].drop_last() =~= seq![a]);
    assert(seq![a, b, c].drop_last() =~= seq![a, b]);
}

/// A list is folded away unless it stands at the top, and tells how many items it
/// has. A list of at most three plain values has no rows of its own for them.
pub proof fn law_lists_are_folded(
    items: Vec<HeaderParameter>,
    label: Seq<char>,
    depth: nat,
)
    requires
        depth <= 4,
    ensures
        ({
            let rows = parameter::parameter_rows(HeaderParameter::List(items), label, depth);
            let plain = forall|i: int|
                0 <= i < items@.len() ==> !(#[trigger] items@[i] is List) && !(items@[i] is Typed);
            if items@.len() == 0 {
                rows.len() == 1 && rows[0].text == label + ": []"@
            } else if items@.len() <= 3 && plain {
                rows.len() == 1 && rows[0].kind == RowKind::Wrapped
            } else {
                &&& rows[0].kind == (RowKind::Section { open: depth == 0 })
                &&& rows[0].text == label + " ("@ + text::decimal(items@.len()) + ")"@
                &&& rows.skip(1) == parameter::item_rows(items@, depth + 1)
            }
        }),
{
    let rows = parameter::parameter_rows(HeaderParameter::List(items), label, depth);
    let plain = forall|i: int|
        0 <= i < items@.len() ==> !(#[trigger] items@[i] is List) && !(items@[i] is Typed);
    assert(parameter::all_leaves(items@) <==> plain) by {
        if plain {
            assert forall|i: int| 0 <= i < items@.len() implies parameter::is_leaf(
                #[trigger] items@[i],
            ) by {}
        }
        if parameter::all_leaves(items@) {
            assert forall|i: int| 0 <= i < items@.len() implies !(#[trigger] items@[i] is List)
                && !(items@[i] is Typed) by {
                assert(parameter::is_leaf(items@[i]));
            }
        }
    }
    if items@.len() > 0 && !(items@.len() <= 3 && plain) {
        assert(rows.skip(1) =~= parameter::item_rows(items@, depth + 1));
    }
}

} // verus!
