//! The way of a colour to a shell, told reference by reference.

use vstd::prelude::*;

use crate::colors;
use crate::colors::{StyleFact, StyleTables};
use crate::parsing;
use crate::text;
use crate::written;
use crate::written::RealText;

verus! {

pub type Rgb = (Seq<char>, Seq<char>, Seq<char>);

/// The fill area leads to the colour: over its style and the colour of that to
/// the components.
pub open spec fn area_shows(t: StyleTables, area: u64, c: Rgb) -> bool {
    &&& t.fill_areas.contains_key(area)
    &&& t.fills.contains_key(t.fill_areas[area])
    &&& t.fill_colours.contains_key(t.fills[t.fill_areas[area]])
    &&& t.colours.contains_key(t.fill_colours[t.fills[t.fill_areas[area]]])
    &&& t.colours[t.fill_colours[t.fills[t.fill_areas[area]]]] == c
}

pub open spec fn area_is_plain(t: StyleTables, area: u64) -> bool {
    forall|c: Rgb| !#[trigger] area_shows(t, area, c)
}

/// The usage leads to the colour: the first of the fill areas of its side style
/// that leads to any colour leads to this one.
pub open spec fn usage_shows(t: StyleTables, usage: u64, c: Rgb) -> bool {
    &&& t.usages.contains_key(usage)
    &&& t.side_styles.contains_key(t.usages[usage])
    &&& exists|i: int|
        0 <= i < t.side_styles[t.usages[usage]].len() && area_shows(
            t,
            #[trigger] t.side_styles[t.usages[usage]][i],
            c,
        ) && forall|k: int|
            0 <= k < i ==> area_is_plain(t, #[trigger] t.side_styles[t.usages[usage]][k])
}

pub open spec fn usage_is_plain(t: StyleTables, usage: u64) -> bool {
    forall|c: Rgb| !#[trigger] usage_shows(t, usage, c)
}

/// The assignment leads to the colour: the first of its references that leads
/// to any colour leads to this one.
pub open spec fn assignment_shows(t: StyleTables, assignment: u64, c: Rgb) -> bool {
    &&& t.assignments.contains_key(assignment)
    &&& exists|i: int|
        0 <= i < t.assignments[assignment].len() && usage_shows(
            t,
            #[trigger] t.assignments[assignment][i],
            c,
        ) && forall|k: int|
            0 <= k < i ==> usage_is_plain(t, #[trigger] t.assignments[assignment][k])
}

pub open spec fn assignment_is_plain(t: StyleTables, assignment: u64) -> bool {
    forall|c: Rgb| !#[trigger] assignment_shows(t, assignment, c)
}

/// The styles of an item lead to the colour, the first that leads to any.
pub open spec fn styles_show(t: StyleTables, styles: Seq<u64>, c: Rgb) -> bool {
    exists|i: int|
        0 <= i < styles.len() && assignment_shows(t, #[trigger] styles[i], c) && forall|k: int|
            0 <= k < i ==> assignment_is_plain(t, #[trigger] styles[k])
}

/// What is styled is the shell, or a solid with that shell.
pub open spec fn is_shell_of(t: StyleTables, target: u64, shell: u64) -> bool {
    if t.manifolds.contains_key(target) {
        t.manifolds[target] == shell
    } else {
        target == shell
    }
}

/// The styled item at the place gives the shell the colour.
pub open spec fn item_shows(t: StyleTables, i: int, shell: u64, c: Rgb) -> bool {
    is_shell_of(t, t.items[i].1, shell) && styles_show(t, t.items[i].0, c)
}

pub open spec fn item_is_plain(t: StyleTables, i: int, shell: u64) -> bool {
    forall|c: Rgb| !#[trigger] item_shows(t, i, shell, c)
}

/// The shell has the colour from the last styled item that gives it any.
pub open spec fn shell_shows(t: StyleTables, shell: u64, c: Rgb) -> bool {
    exists|i: int|
        0 <= i < t.items.len() && #[trigger] item_shows(t, i, shell, c) && forall|k: int|
            i < k < t.items.len() ==> #[trigger] item_is_plain(t, k, shell)
}

proof fn lemma_first_colour(refs: Seq<u64>, colour: spec_fn(u64) -> Option<Rgb>, c: Rgb)
    ensures
        colors::first_colour(refs, colour) == Some(c) <==> exists|i: int|
            0 <= i < refs.len() && colour(#[trigger] refs[i]) == Some(c) && forall|k: int|
                0 <= k < i ==> colour(#[trigger] refs[k]) is None,
    decreases refs.len(),
{
    if refs.len() > 0 {
        let rest = refs.drop_first();
        lemma_first_colour(rest, colour, c);
        if colour(refs[0]) is Some {
            if colour(refs[0]) == Some(c) {
                assert(colour(refs[0]) == Some(c));
            }
        } else {
            if exists|i: int|
                0 <= i < rest.len() && colour(#[trigger] rest[i]) == Some(c) && forall|k: int|
                    0 <= k < i ==> colour(#[trigger] rest[k]) is None {
                let i = choose|i: int|
                    0 <= i < rest.len() && colour(#[trigger] rest[i]) == Some(c) && forall|k: int|
                        0 <= k < i ==> colour(#[trigger] rest[k]) is None;
                assert(colour(refs[i + 1]) == Some(c));
                assert forall|k: int| 0 <= k < i + 1 implies colour(#[trigger] refs[k]) is None by {
                    if k > 0 {
                        assert(rest[k - 1] == refs[k]);
                    }
                }
            }
            if exists|i: int|
                0 <= i < refs.len() && colour(#[trigger] refs[i]) == Some(c) && forall|k: int|
                    0 <= k < i ==> colour(#[trigger] refs[k]) is None {
                let i = choose|i: int|
                    0 <= i < refs.len() && colour(#[trigger] refs[i]) == Some(c) && forall|k: int|
                        0 <= k < i ==> colour(#[trigger] refs[k]) is None;
                assert(i > 0);
                assert(rest[i - 1] == refs[i]);
                assert forall|k: int| 0 <= k < i - 1 implies colour(#[trigger] rest[k]) is None by {
                    assert(rest[k] == refs[k + 1]);
                }
            }
        }
    }
}

proof fn lemma_area(t: StyleTables, area: u64)
    ensures
        forall|c: Rgb| t.fill_area(area) == Some(c) <==> #[trigger] area_shows(t, area, c),
        t.fill_area(area) is None <==> area_is_plain(t, area),
{
    if let Some(c) = t.fill_area(area) {
        assert(area_shows(t, area, c));
    }
}

proof fn lemma_usage(t: StyleTables, usage: u64)
    ensures
        forall|c: Rgb| t.usage(usage) == Some(c) <==> #[trigger] usage_shows(t, usage, c),
        t.usage(usage) is None <==> usage_is_plain(t, usage),
{
    assert forall|c: Rgb| t.usage(usage) == Some(c) <==> #[trigger] usage_shows(t, usage, c) by {
        if t.usages.contains_key(usage) && t.side_styles.contains_key(t.usages[usage]) {
            let refs = t.side_styles[t.usages[usage]];
            let colour = |to: u64| t.fill_area(to);
            lemma_first_colour(refs, colour, c);
            assert forall|i: int| 0 <= i < refs.len() implies (colour(#[trigger] refs[i]) == Some(
                c,
            ) <==> area_shows(t, refs[i], c)) && (colour(refs[i]) is None <==> area_is_plain(
                t,
                refs[i],
            )) by {
                lemma_area(t, refs[i]);
            }
        }
    }
    if let Some(c) = t.usage(usage) {
        assert(usage_shows(t, usage, c));
    }
}

proof fn lemma_assignment(t: StyleTables, assignment: u64)
    ensures
        forall|c: Rgb|
            t.assignment(assignment) == Some(c) <==> #[trigger] assignment_shows(t, assignment, c),
        t.assignment(assignment) is None <==> assignment_is_plain(t, assignment),
{
    assert forall|c: Rgb|
        t.assignment(assignment) == Some(c) <==> #[trigger] assignment_shows(t, assignment, c) by {
        if t.assignments.contains_key(assignment) {
            let refs = t.assignments[assignment];
            let colour = |to: u64| t.usage(to);
            lemma_first_colour(refs, colour, c);
            assert forall|i: int| 0 <= i < refs.len() implies (colour(#[trigger] refs[i]) == Some(
                c,
            ) <==> usage_shows(t, refs[i], c)) && (colour(refs[i]) is None <==> usage_is_plain(
                t,
                refs[i],
            )) by {
                lemma_usage(t, refs[i]);
            }
        }
    }
    if let Some(c) = t.assignment(assignment) {
        assert(assignment_shows(t, assignment, c));
    }
}

proof fn lemma_styles(t: StyleTables, styles: Seq<u64>)
    ensures
        forall|c: Rgb| t.item_colour(styles) == Some(c) <==> #[trigger] styles_show(t, styles, c),
{
    assert forall|c: Rgb| t.item_colour(styles) == Some(c) <==> #[trigger] styles_show(
        t,
        styles,
        c,
    ) by {
        let colour = |to: u64| t.assignment(to);
        lemma_first_colour(styles, colour, c);
        assert forall|i: int| 0 <= i < styles.len() implies (colour(#[trigger] styles[i]) == Some(
            c,
        ) <==> assignment_shows(t, styles[i], c)) && (colour(styles[i]) is None
            <==> assignment_is_plain(t, styles[i])) by {
            lemma_assignment(t, styles[i]);
        }
    }
}

/// A style assignment has a colour exactly where one of its references leads to
/// one over a surface style usage, and it is that of the first such reference.
pub proof fn law_first_style_colours(t: StyleTables, assignment: u64, i: int, c: Rgb)
    requires
        t.assignments.contains_key(assignment),
        0 <= i < t.assignments[assignment].len(),
        usage_shows(t, t.assignments[assignment][i], c),
        forall|k: int|
            0 <= k < i ==> usage_is_plain(t, #[trigger] t.assignments[assignment][k]),
    ensures
        t.assignment(assignment) == Some(c),
{
    lemma_assignment(t, assignment);
    assert(assignment_shows(t, assignment, c));
}

/// A shell has a colour exactly where a chain of references leads from a styled
/// item to it: from the last such item, over the first style, the first usage
/// and the first fill area that lead to any.
pub proof fn law_chains_colour_shells(t: StyleTables, shell: u64, c: Rgb)
    ensures
        t.shell_colours(t.items).contains_key(shell) && t.shell_colours(t.items)[shell] == c
            <==> shell_shows(t, shell, c),
{
    let items = t.items;
    let map = t.shell_colours(items);
    assert forall|i: int, d: Rgb| 0 <= i < items.len() implies (#[trigger] item_shows(
        t,
        i,
        shell,
        d,
    ) <==> colors::colours_shell(t, items, i, shell) && t.item_colour(items[i].0) == Some(d)) by {
        lemma_styles(t, items[i].0);
        assert(is_shell_of(t, items[i].1, shell) <==> t.item_shell(items[i].1) == shell);
    }
    assert forall|i: int| 0 <= i < items.len() implies (#[trigger] item_is_plain(t, i, shell)
        <==> !colors::colours_shell(t, items, i, shell)) by {
        if colors::colours_shell(t, items, i, shell) {
            let d = t.item_colour(items[i].0)->0;
            assert(item_shows(t, i, shell, d));
        }
    }
    if shell_shows(t, shell, c) {
        let i = choose|i: int|
            0 <= i < t.items.len() && #[trigger] item_shows(t, i, shell, c) && forall|k: int|
                i < k < t.items.len() ==> #[trigger] item_is_plain(t, k, shell);
        assert forall|k: int| i < k < items.len() implies !#[trigger] colors::colours_shell(
            t,
            items,
            k,
            shell,
        ) by {
            assert(item_is_plain(t, k, shell));
        }
        colors::law_last_styled_item_colours(t, items, shell, i);
    }
    if map.contains_key(shell) && map[shell] == c {
        let some = colors::law_colours_come_from_items(t, items, shell);
        let i = lemma_last_item(t, items, shell, some, items.len() as int);
        colors::law_last_styled_item_colours(t, items, shell, i);
        assert(item_shows(t, i, shell, c));
        assert forall|k: int| i < k < items.len() implies #[trigger] item_is_plain(t, k, shell) by {
            assert(!colors::colours_shell(t, items, k, shell));
        }
    }
}

proof fn lemma_last_item(
    t: StyleTables,
    items: Seq<(Seq<u64>, u64)>,
    shell: u64,
    some: int,
    n: int,
) -> (i: int)
    requires
        0 <= some < n <= items.len(),
        colors::colours_shell(t, items, some, shell),
        forall|k: int| n <= k < items.len() ==> !#[trigger] colors::colours_shell(t, items, k, shell),
    ensures
        0 <= i < items.len(),
        colors::colours_shell(t, items, i, shell),
        forall|k: int| i < k < items.len() ==> !#[trigger] colors::colours_shell(t, items, k, shell),
    decreases n,
{
    if colors::colours_shell(t, items, n - 1, shell) {
        n - 1
    } else {
        lemma_last_item(t, items, shell, some, n - 1)
    }
}

/// The entities have different numbers.
pub open spec fn numbers_differ(entities: Seq<(u64, Seq<char>)>) -> bool {
    forall|i: int, j: int|
        0 <= i < j < entities.len() ==> (#[trigger] entities[i]).0 != (#[trigger] entities[j]).0
}

/// What an entity says of styles stands in the tables under its number.
pub open spec fn holds_fact(t: StyleTables, id: u64, fact: StyleFact) -> bool {
    match fact {
        StyleFact::Colour(c) => t.colours.contains_key(id) && t.colours[id] == c,
        StyleFact::StyledItem { styles, target } => t.items.contains((styles, target)),
        StyleFact::FillColour(to) => t.fill_colours.contains_key(id) && t.fill_colours[id] == to,
        StyleFact::Fill(to) => t.fills.contains_key(id) && t.fills[id] == to,
        StyleFact::FillArea(to) => t.fill_areas.contains_key(id) && t.fill_areas[id] == to,
        StyleFact::SideStyle(to) => t.side_styles.contains_key(id) && t.side_styles[id] == to,
        StyleFact::Usage(to) => t.usages.contains_key(id) && t.usages[id] == to,
        StyleFact::Assignment(to) => t.assignments.contains_key(id) && t.assignments[id] == to,
        StyleFact::Manifold(to) => t.manifolds.contains_key(id) && t.manifolds[id] == to,
        StyleFact::Unrelated => true,
    }
}

/// Where the numbers of the entities differ, the tables hold what each of them
/// says.
pub proof fn law_tables_hold_all_styles(entities: Seq<(u64, Seq<char>)>, i: int)
    requires
        numbers_differ(entities),
        0 <= i < entities.len(),
    ensures
        holds_fact(
            colors::style_tables(entities),
            entities[i].0,
            colors::style_fact(entities[i].1),
        ),
    decreases entities.len(),
{
    let init = entities.drop_last();
    let before = colors::style_tables(init);
    let last = entities.last();
    let now = colors::style_tables(entities);
    if i < init.len() {
        assert forall|a: int, b: int| 0 <= a < b < init.len() implies (#[trigger] init[a]).0 != (
        #[trigger] init[b]).0 by {
            assert(entities[a].0 != entities[b].0);
        }
        law_tables_hold_all_styles(init, i);
        assert(entities[i].0 != entities[entities.len() - 1].0);
        match colors::style_fact(entities[i].1) {
            StyleFact::StyledItem { styles, target } => {
                let at = before.items.index_of((styles, target));
                assert(now.items[at] == (styles, target));
            },
            _ => {},
        }
    } else {
        match colors::style_fact(last.1) {
            StyleFact::StyledItem { styles, target } => {
                assert(now.items[now.items.len() - 1] == (styles, target));
            },
            _ => {},
        }
    }
}

/// The colours of a file are those of the chains through its entities.
pub proof fn law_file_colours_follow_chains(raw: Seq<char>, shell: u64, c: Rgb)
    ensures
        colors::file_colours(raw).contains_key(shell) && colors::file_colours(raw)[shell] == c
            <==> shell_shows(colors::style_tables(parsing::file_entities(raw)), shell, c),
{
    law_chains_colour_shells(colors::style_tables(parsing::file_entities(raw)), shell, c);
}

/// Some entity with the number says it.
pub open spec fn is_said(entities: Seq<(u64, Seq<char>)>, id: u64, fact: StyleFact) -> bool {
    exists|i: int|
        0 <= i < entities.len() && (#[trigger] entities[i]).0 == id && colors::style_fact(
            entities[i].1,
        ) == fact
}

/// The tables hold nothing but what the entities say.
pub open spec fn holds_only_facts(t: StyleTables, entities: Seq<(u64, Seq<char>)>) -> bool {
    &&& forall|id: u64| #[trigger]
        t.colours.contains_key(id) ==> is_said(entities, id, StyleFact::Colour(t.colours[id]))
    &&& forall|id: u64| #[trigger]
        t.fill_colours.contains_key(id) ==> is_said(
            entities,
            id,
            StyleFact::FillColour(t.fill_colours[id]),
        )
    &&& forall|id: u64| #[trigger]
        t.fills.contains_key(id) ==> is_said(entities, id, StyleFact::Fill(t.fills[id]))
    &&& forall|id: u64| #[trigger]
        t.fill_areas.contains_key(id) ==> is_said(
            entities,
            id,
            StyleFact::FillArea(t.fill_areas[id]),
        )
    &&& forall|id: u64| #[trigger]
        t.side_styles.contains_key(id) ==> is_said(
            entities,
            id,
            StyleFact::SideStyle(t.side_styles[id]),
        )
    &&& forall|id: u64| #[trigger]
        t.usages.contains_key(id) ==> is_said(entities, id, StyleFact::Usage(t.usages[id]))
    &&& forall|id: u64| #[trigger]
        t.assignments.contains_key(id) ==> is_said(
            entities,
            id,
            StyleFact::Assignment(t.assignments[id]),
        )
    &&& forall|id: u64| #[trigger]
        t.manifolds.contains_key(id) ==> is_said(entities, id, StyleFact::Manifold(t.manifolds[id]))
}

/// Nothing gets into the tables that no entity says.
pub proof fn law_tables_hold_only_styles(entities: Seq<(u64, Seq<char>)>)
    ensures
        holds_only_facts(colors::style_tables(entities), entities),
    decreases entities.len(),
{
    if entities.len() > 0 {
        let init = entities.drop_last();
        let last = entities.last();
        law_tables_hold_only_styles(init);
        assert(entities[entities.len() - 1] == last);
        assert(is_said(entities, last.0, colors::style_fact(last.1)));
        assert forall|id: u64, f: StyleFact| #[trigger] is_said(init, id, f) implies is_said(
            entities,
            id,
            f,
        ) by {
            let i = choose|i: int|
                0 <= i < init.len() && (#[trigger] init[i]).0 == id && colors::style_fact(init[i].1)
                    == f;
            assert(entities[i] == init[i]);
        }
    }
}

/// The number of styled items among the first entities.
pub open spec fn items_before(entities: Seq<(u64, Seq<char>)>, n: int) -> int
    decreases n,
{
    if n <= 0 {
        0
    } else {
        items_before(entities, n - 1) + (if colors::style_fact(entities[n - 1].1) is StyledItem {
            1int
        } else {
            0
        })
    }
}

proof fn lemma_items_of_fewer(entities: Seq<(u64, Seq<char>)>, n: int)
    requires
        0 <= n < entities.len(),
    ensures
        items_before(entities.drop_last(), n) == items_before(entities, n),
        items_before(entities, n) >= 0,
    decreases n,
{
    if n > 0 {
        lemma_items_of_fewer(entities, n - 1);
    }
}

/// The styled items stand in the tables in the order of the file, and there are
/// no others.
pub proof fn law_styled_items_keep_their_order(entities: Seq<(u64, Seq<char>)>, i: int)
    requires
        0 <= i < entities.len(),
    ensures
        colors::style_tables(entities).items.len() == items_before(
            entities,
            entities.len() as int,
        ),
        colors::style_fact(entities[i].1) matches StyleFact::StyledItem { styles, target } ==> 0
            <= items_before(entities, i) < colors::style_tables(entities).items.len()
            && colors::style_tables(entities).items[items_before(entities, i)] == (styles, target),
    decreases entities.len(),
{
    let init = entities.drop_last();
    let last = entities.len() - 1;
    lemma_items_of_fewer(entities, last);
    lemma_items_of_fewer(entities, i);
    if init.len() > 0 {
        law_styled_items_keep_their_order(init, if i < last { i } else { 0 });
    } else {
        assert(colors::style_tables(init).items.len() == 0);
    }
    if i < last {
        assert(init[i] == entities[i]);
    }
}

// Entities as they are written.

/// A styled item has the styles that it lists, and its last reference is what
/// it styles.
pub proof fn law_styled_items_are_read(name: Seq<char>, ids: Seq<u64>, after: Seq<char>)
    requires
        text::lacks(name, '#'),
        text::lacks(after, '#'),
        written::starts_no_digit(after),
    ensures
        ids.len() >= 2 ==> colors::style_fact("STYLED_ITEM("@ + (name + written::reference_list(ids) + after)) == (StyleFact::StyledItem {
            styles: ids.drop_last(),
            target: ids.last(),
        }),
{
    let rest = (name + written::reference_list(ids) + after);
    reveal_strlit("STYLED_ITEM(");
    reveal_strlit("STYLED_ITEM");
    reveal_strlit("COLOUR_RGB");
    written::lemma_other_keyword("STYLED_ITEM("@, "COLOUR_RGB"@, rest, 0);
    assert(("STYLED_ITEM("@ + rest).take("STYLED_ITEM"@.len() as int) =~= "STYLED_ITEM"@);
    written::lemma_keyword_lacks("STYLED_ITEM("@, name);
    written::law_reference_lists_are_read("STYLED_ITEM("@ + name, ids, after);
    written::law_no_reference_without_sign(after);
    assert("STYLED_ITEM("@ + rest =~= "STYLED_ITEM("@ + name + written::reference_list(ids) + after);
    assert(ids + Seq::<u64>::empty() =~= ids);
}

/// A colour of a fill area style leads to its first reference.
pub proof fn law_fill_colours_are_read(name: Seq<char>, ids: Seq<u64>, after: Seq<char>)
    requires
        text::lacks(name, '#'),
        text::lacks(after, '#'),
        written::starts_no_digit(after),
    ensures
        ids.len() > 0 ==> colors::style_fact("FILL_AREA_STYLE_COLOUR("@ + (name + written::reference_list(ids) + after)) == StyleFact::FillColour(ids[0]),
{
    let rest = (name + written::reference_list(ids) + after);
    reveal_strlit("FILL_AREA_STYLE_COLOUR(");
    reveal_strlit("FILL_AREA_STYLE_COLOUR");
    reveal_strlit("COLOUR_RGB");
    written::lemma_other_keyword("FILL_AREA_STYLE_COLOUR("@, "COLOUR_RGB"@, rest, 0);
    reveal_strlit("STYLED_ITEM");
    written::lemma_other_keyword("FILL_AREA_STYLE_COLOUR("@, "STYLED_ITEM"@, rest, 0);
    reveal_strlit("OVER_RIDING_STYLED_ITEM");
    written::lemma_other_keyword("FILL_AREA_STYLE_COLOUR("@, "OVER_RIDING_STYLED_ITEM"@, rest, 0);
    assert(("FILL_AREA_STYLE_COLOUR("@ + rest).take("FILL_AREA_STYLE_COLOUR"@.len() as int) =~= "FILL_AREA_STYLE_COLOUR"@);
    written::lemma_keyword_lacks("FILL_AREA_STYLE_COLOUR("@, name);
    written::law_reference_lists_are_read("FILL_AREA_STYLE_COLOUR("@ + name, ids, after);
    written::law_no_reference_without_sign(after);
    assert("FILL_AREA_STYLE_COLOUR("@ + rest =~= "FILL_AREA_STYLE_COLOUR("@ + name + written::reference_list(ids) + after);
    assert(ids + Seq::<u64>::empty() =~= ids);
}

/// A fill area style leads to its first reference.
pub proof fn law_fill_styles_are_read(name: Seq<char>, ids: Seq<u64>, after: Seq<char>)
    requires
        text::lacks(name, '#'),
        text::lacks(after, '#'),
        written::starts_no_digit(after),
    ensures
        ids.len() > 0 ==> colors::style_fact("FILL_AREA_STYLE("@ + (name + written::reference_list(ids) + after)) == StyleFact::Fill(ids[0]),
{
    let rest = (name + written::reference_list(ids) + after);
    reveal_strlit("FILL_AREA_STYLE(");
    reveal_strlit("FILL_AREA_STYLE");
    reveal_strlit("COLOUR_RGB");
    written::lemma_other_keyword("FILL_AREA_STYLE("@, "COLOUR_RGB"@, rest, 0);
    reveal_strlit("STYLED_ITEM");
    written::lemma_other_keyword("FILL_AREA_STYLE("@, "STYLED_ITEM"@, rest, 0);
    reveal_strlit("OVER_RIDING_STYLED_ITEM");
    written::lemma_other_keyword("FILL_AREA_STYLE("@, "OVER_RIDING_STYLED_ITEM"@, rest, 0);
    reveal_strlit("FILL_AREA_STYLE_COLOUR");
    written::lemma_other_keyword("FILL_AREA_STYLE("@, "FILL_AREA_STYLE_COLOUR"@, rest, 15);
    assert(("FILL_AREA_STYLE("@ + rest).take("FILL_AREA_STYLE"@.len() as int) =~= "FILL_AREA_STYLE"@);
    written::lemma_keyword_lacks("FILL_AREA_STYLE("@, name);
    written::law_reference_lists_are_read("FILL_AREA_STYLE("@ + name, ids, after);
    written::law_no_reference_without_sign(after);
    assert("FILL_AREA_STYLE("@ + rest =~= "FILL_AREA_STYLE("@ + name + written::reference_list(ids) + after);
    assert(ids + Seq::<u64>::empty() =~= ids);
}

/// A fill area of a surface style leads to its first reference.
pub proof fn law_fill_areas_are_read(name: Seq<char>, ids: Seq<u64>, after: Seq<char>)
    requires
        text::lacks(name, '#'),
        text::lacks(after, '#'),
        written::starts_no_digit(after),
    ensures
        ids.len() > 0 ==> colors::style_fact("SURFACE_STYLE_FILL_AREA("@ + (name + written::reference_list(ids) + after)) == StyleFact::FillArea(ids[0]),
{
    let rest = (name + written::reference_list(ids) + after);
    reveal_strlit("SURFACE_STYLE_FILL_AREA(");
    reveal_strlit("SURFACE_STYLE_FILL_AREA");
    reveal_strlit("COLOUR_RGB");
    written::lemma_other_keyword("SURFACE_STYLE_FILL_AREA("@, "COLOUR_RGB"@, rest, 0);
    reveal_strlit("STYLED_ITEM");
    written::lemma_other_keyword("SURFACE_STYLE_FILL_AREA("@, "STYLED_ITEM"@, rest, 1);
    reveal_strlit("OVER_RIDING_STYLED_ITEM");
    written::lemma_other_keyword("SURFACE_STYLE_FILL_AREA("@, "OVER_RIDING_STYLED_ITEM"@, rest, 0);
    reveal_strlit("FILL_AREA_STYLE_COLOUR");
    written::lemma_other_keyword("SURFACE_STYLE_FILL_AREA("@, "FILL_AREA_STYLE_COLOUR"@, rest, 0);
    reveal_strlit("FILL_AREA_STYLE");
    written::lemma_other_keyword("SURFACE_STYLE_FILL_AREA("@, "FILL_AREA_STYLE"@, rest, 0);
    assert(("SURFACE_STYLE_FILL_AREA("@ + rest).take("SURFACE_STYLE_FILL_AREA"@.len() as int) =~= "SURFACE_STYLE_FILL_AREA"@);
    written::lemma_keyword_lacks("SURFACE_STYLE_FILL_AREA("@, name);
    written::law_reference_lists_are_read("SURFACE_STYLE_FILL_AREA("@ + name, ids, after);
    written::law_no_reference_without_sign(after);
    assert("SURFACE_STYLE_FILL_AREA("@ + rest =~= "SURFACE_STYLE_FILL_AREA("@ + name + written::reference_list(ids) + after);
    assert(ids + Seq::<u64>::empty() =~= ids);
}

/// A surface style usage leads to its first reference.
pub proof fn law_usages_are_read(name: Seq<char>, ids: Seq<u64>, after: Seq<char>)
    requires
        text::lacks(name, '#'),
        text::lacks(after, '#'),
        written::starts_no_digit(after),
    ensures
        ids.len() > 0 ==> colors::style_fact("SURFACE_STYLE_USAGE("@ + (name + written::reference_list(ids) + after)) == StyleFact::Usage(ids[0]),
{
    let rest = (name + written::reference_list(ids) + after);
    reveal_strlit("SURFACE_STYLE_USAGE(");
    reveal_strlit("SURFACE_STYLE_USAGE");
    reveal_strlit("COLOUR_RGB");
    written::lemma_other_keyword("SURFACE_STYLE_USAGE("@, "COLOUR_RGB"@, rest, 0);
    reveal_strlit("STYLED_ITEM");
    written::lemma_other_keyword("SURFACE_STYLE_USAGE("@, "STYLED_ITEM"@, rest, 1);
    reveal_strlit("OVER_RIDING_STYLED_ITEM");
    written::lemma_other_keyword("SURFACE_STYLE_USAGE("@, "OVER_RIDING_STYLED_ITEM"@, rest, 0);
    reveal_strlit("FILL_AREA_STYLE_COLOUR");
    written::lemma_other_keyword("SURFACE_STYLE_USAGE("@, "FILL_AREA_STYLE_COLOUR"@, rest, 0);
    reveal_strlit("FILL_AREA_STYLE");
    written::lemma_other_keyword("SURFACE_STYLE_USAGE("@, "FILL_AREA_STYLE"@, rest, 0);
    reveal_strlit("SURFACE_STYLE_FILL_AREA");
    written::lemma_other_keyword("SURFACE_STYLE_USAGE("@, "SURFACE_STYLE_FILL_AREA"@, rest, 14);
    reveal_strlit("SURFACE_SIDE_STYLE");
    written::lemma_other_keyword("SURFACE_STYLE_USAGE("@, "SURFACE_SIDE_STYLE"@, rest, 9);
    assert(("SURFACE_STYLE_USAGE("@ + rest).take("SURFACE_STYLE_USAGE"@.len() as int) =~= "SURFACE_STYLE_USAGE"@);
    written::lemma_keyword_lacks("SURFACE_STYLE_USAGE("@, name);
    written::law_reference_lists_are_read("SURFACE_STYLE_USAGE("@ + name, ids, after);
    written::law_no_reference_without_sign(after);
    assert("SURFACE_STYLE_USAGE("@ + rest =~= "SURFACE_STYLE_USAGE("@ + name + written::reference_list(ids) + after);
    assert(ids + Seq::<u64>::empty() =~= ids);
}

/// A solid has its first reference as its shell.
pub proof fn law_solids_are_read(name: Seq<char>, ids: Seq<u64>, after: Seq<char>)
    requires
        text::lacks(name, '#'),
        text::lacks(after, '#'),
        written::starts_no_digit(after),
    ensures
        ids.len() > 0 ==> colors::style_fact("MANIFOLD_SOLID_BREP("@ + (name + written::reference_list(ids) + after)) == StyleFact::Manifold(ids[0]),
{
    let rest = (name + written::reference_list(ids) + after);
    reveal_strlit("MANIFOLD_SOLID_BREP(");
    reveal_strlit("MANIFOLD_SOLID_BREP");
    reveal_strlit("COLOUR_RGB");
    written::lemma_other_keyword("MANIFOLD_SOLID_BREP("@, "COLOUR_RGB"@, rest, 0);
    reveal_strlit("STYLED_ITEM");
    written::lemma_other_keyword("MANIFOLD_SOLID_BREP("@, "STYLED_ITEM"@, rest, 0);
    reveal_strlit("OVER_RIDING_STYLED_ITEM");
    written::lemma_other_keyword("MANIFOLD_SOLID_BREP("@, "OVER_RIDING_STYLED_ITEM"@, rest, 0);
    reveal_strlit("FILL_AREA_STYLE_COLOUR");
    written::lemma_other_keyword("MANIFOLD_SOLID_BREP("@, "FILL_AREA_STYLE_COLOUR"@, rest, 0);
    reveal_strlit("FILL_AREA_STYLE");
    written::lemma_other_keyword("MANIFOLD_SOLID_BREP("@, "FILL_AREA_STYLE"@, rest, 0);
    reveal_strlit("SURFACE_STYLE_FILL_AREA");
    written::lemma_other_keyword("MANIFOLD_SOLID_BREP("@, "SURFACE_STYLE_FILL_AREA"@, rest, 0);
    reveal_strlit("SURFACE_SIDE_STYLE");
    written::lemma_other_keyword("MANIFOLD_SOLID_BREP("@, "SURFACE_SIDE_STYLE"@, rest, 0);
    reveal_strlit("SURFACE_STYLE_USAGE");
    written::lemma_other_keyword("MANIFOLD_SOLID_BREP("@, "SURFACE_STYLE_USAGE"@, rest, 0);
    reveal_strlit("PRESENTATION_STYLE_ASSIGNMENT");
    written::lemma_other_keyword("MANIFOLD_SOLID_BREP("@, "PRESENTATION_STYLE_ASSIGNMENT"@, rest, 0);
    reveal_strlit("PRESENTATION_STYLE_BY_CONTEXT");
    written::lemma_other_keyword("MANIFOLD_SOLID_BREP("@, "PRESENTATION_STYLE_BY_CONTEXT"@, rest, 0);
    assert(("MANIFOLD_SOLID_BREP("@ + rest).take("MANIFOLD_SOLID_BREP"@.len() as int) =~= "MANIFOLD_SOLID_BREP"@);
    written::lemma_keyword_lacks("MANIFOLD_SOLID_BREP("@, name);
    written::law_reference_lists_are_read("MANIFOLD_SOLID_BREP("@ + name, ids, after);
    written::law_no_reference_without_sign(after);
    assert("MANIFOLD_SOLID_BREP("@ + rest =~= "MANIFOLD_SOLID_BREP("@ + name + written::reference_list(ids) + after);
    assert(ids + Seq::<u64>::empty() =~= ids);
}

/// A surface side style leads to all that it lists.
pub proof fn law_side_styles_are_read(name: Seq<char>, ids: Seq<u64>, after: Seq<char>)
    requires
        text::lacks(name, '#'),
        text::lacks(after, '#'),
        written::starts_no_digit(after),
    ensures
        colors::style_fact("SURFACE_SIDE_STYLE("@ + (name + written::reference_list(ids) + after)) == StyleFact::SideStyle(ids),
{
    let rest = (name + written::reference_list(ids) + after);
    reveal_strlit("SURFACE_SIDE_STYLE(");
    reveal_strlit("SURFACE_SIDE_STYLE");
    reveal_strlit("COLOUR_RGB");
    written::lemma_other_keyword("SURFACE_SIDE_STYLE("@, "COLOUR_RGB"@, rest, 0);
    reveal_strlit("STYLED_ITEM");
    written::lemma_other_keyword("SURFACE_SIDE_STYLE("@, "STYLED_ITEM"@, rest, 1);
    reveal_strlit("OVER_RIDING_STYLED_ITEM");
    written::lemma_other_keyword("SURFACE_SIDE_STYLE("@, "OVER_RIDING_STYLED_ITEM"@, rest, 0);
    reveal_strlit("FILL_AREA_STYLE_COLOUR");
    written::lemma_other_keyword("SURFACE_SIDE_STYLE("@, "FILL_AREA_STYLE_COLOUR"@, rest, 0);
    reveal_strlit("FILL_AREA_STYLE");
    written::lemma_other_keyword("SURFACE_SIDE_STYLE("@, "FILL_AREA_STYLE"@, rest, 0);
    reveal_strlit("SURFACE_STYLE_FILL_AREA");
    written::lemma_other_keyword("SURFACE_SIDE_STYLE("@, "SURFACE_STYLE_FILL_AREA"@, rest, 9);
    assert(("SURFACE_SIDE_STYLE("@ + rest).take("SURFACE_SIDE_STYLE"@.len() as int) =~= "SURFACE_SIDE_STYLE"@);
    written::lemma_keyword_lacks("SURFACE_SIDE_STYLE("@, name);
    written::law_reference_lists_are_read("SURFACE_SIDE_STYLE("@ + name, ids, after);
    written::law_no_reference_without_sign(after);
    assert("SURFACE_SIDE_STYLE("@ + rest =~= "SURFACE_SIDE_STYLE("@ + name + written::reference_list(ids) + after);
    assert(ids + Seq::<u64>::empty() =~= ids);
}

/// A style assignment leads to all that it lists.
pub proof fn law_assignments_are_read(name: Seq<char>, ids: Seq<u64>, after: Seq<char>)
    requires
        text::lacks(name, '#'),
        text::lacks(after, '#'),
        written::starts_no_digit(after),
    ensures
        colors::style_fact("PRESENTATION_STYLE_ASSIGNMENT("@ + (name + written::reference_list(ids) + after)) == StyleFact::Assignment(ids),
{
    let rest = (name + written::reference_list(ids) + after);
    reveal_strlit("PRESENTATION_STYLE_ASSIGNMENT(");
    reveal_strlit("PRESENTATION_STYLE_ASSIGNMENT");
    reveal_strlit("COLOUR_RGB");
    written::lemma_other_keyword("PRESENTATION_STYLE_ASSIGNMENT("@, "COLOUR_RGB"@, rest, 0);
    reveal_strlit("STYLED_ITEM");
    written::lemma_other_keyword("PRESENTATION_STYLE_ASSIGNMENT("@, "STYLED_ITEM"@, rest, 0);
    reveal_strlit("OVER_RIDING_STYLED_ITEM");
    written::lemma_other_keyword("PRESENTATION_STYLE_ASSIGNMENT("@, "OVER_RIDING_STYLED_ITEM"@, rest, 0);
    reveal_strlit("FILL_AREA_STYLE_COLOUR");
    written::lemma_other_keyword("PRESENTATION_STYLE_ASSIGNMENT("@, "FILL_AREA_STYLE_COLOUR"@, rest, 0);
    reveal_strlit("FILL_AREA_STYLE");
    written::lemma_other_keyword("PRESENTATION_STYLE_ASSIGNMENT("@, "FILL_AREA_STYLE"@, rest, 0);
    reveal_strlit("SURFACE_STYLE_FILL_AREA");
    written::lemma_other_keyword("PRESENTATION_STYLE_ASSIGNMENT("@, "SURFACE_STYLE_FILL_AREA"@, rest, 0);
    reveal_strlit("SURFACE_SIDE_STYLE");
    written::lemma_other_keyword("PRESENTATION_STYLE_ASSIGNMENT("@, "SURFACE_SIDE_STYLE"@, rest, 0);
    reveal_strlit("SURFACE_STYLE_USAGE");
    written::lemma_other_keyword("PRESENTATION_STYLE_ASSIGNMENT("@, "SURFACE_STYLE_USAGE"@, rest, 0);
    assert(("PRESENTATION_STYLE_ASSIGNMENT("@ + rest).take("PRESENTATION_STYLE_ASSIGNMENT"@.len() as int) =~= "PRESENTATION_STYLE_ASSIGNMENT"@);
    written::lemma_keyword_lacks("PRESENTATION_STYLE_ASSIGNMENT("@, name);
    written::law_reference_lists_are_read("PRESENTATION_STYLE_ASSIGNMENT("@ + name, ids, after);
    written::law_no_reference_without_sign(after);
    assert("PRESENTATION_STYLE_ASSIGNMENT("@ + rest =~= "PRESENTATION_STYLE_ASSIGNMENT("@ + name + written::reference_list(ids) + after);
    assert(ids + Seq::<u64>::empty() =~= ids);
}

/// A style by context leads to all that it lists.
pub proof fn law_context_styles_are_read(name: Seq<char>, ids: Seq<u64>, after: Seq<char>)
    requires
        text::lacks(name, '#'),
        text::lacks(after, '#'),
        written::starts_no_digit(after),
    ensures
        colors::style_fact("PRESENTATION_STYLE_BY_CONTEXT("@ + (name + written::reference_list(ids) + after)) == StyleFact::Assignment(ids),
{
    let rest = (name + written::reference_list(ids) + after);
    reveal_strlit("PRESENTATION_STYLE_BY_CONTEXT(");
    reveal_strlit("PRESENTATION_STYLE_BY_CONTEXT");
    reveal_strlit("COLOUR_RGB");
    written::lemma_other_keyword("PRESENTATION_STYLE_BY_CONTEXT("@, "COLOUR_RGB"@, rest, 0);
    reveal_strlit("STYLED_ITEM");
    written::lemma_other_keyword("PRESENTATION_STYLE_BY_CONTEXT("@, "STYLED_ITEM"@, rest, 0);
    reveal_strlit("OVER_RIDING_STYLED_ITEM");
    written::lemma_other_keyword("PRESENTATION_STYLE_BY_CONTEXT("@, "OVER_RIDING_STYLED_ITEM"@, rest, 0);
    reveal_strlit("FILL_AREA_STYLE_COLOUR");
    written::lemma_other_keyword("PRESENTATION_STYLE_BY_CONTEXT("@, "FILL_AREA_STYLE_COLOUR"@, rest, 0);
    reveal_strlit("FILL_AREA_STYLE");
    written::lemma_other_keyword("PRESENTATION_STYLE_BY_CONTEXT("@, "FILL_AREA_STYLE"@, rest, 0);
    reveal_strlit("SURFACE_STYLE_FILL_AREA");
    written::lemma_other_keyword("PRESENTATION_STYLE_BY_CONTEXT("@, "SURFACE_STYLE_FILL_AREA"@, rest, 0);
    reveal_strlit("SURFACE_SIDE_STYLE");
    written::lemma_other_keyword("PRESENTATION_STYLE_BY_CONTEXT("@, "SURFACE_SIDE_STYLE"@, rest, 0);
    reveal_strlit("SURFACE_STYLE_USAGE");
    written::lemma_other_keyword("PRESENTATION_STYLE_BY_CONTEXT("@, "SURFACE_STYLE_USAGE"@, rest, 0);
    reveal_strlit("PRESENTATION_STYLE_ASSIGNMENT");
    written::lemma_other_keyword("PRESENTATION_STYLE_BY_CONTEXT("@, "PRESENTATION_STYLE_ASSIGNMENT"@, rest, 19);
    assert(("PRESENTATION_STYLE_BY_CONTEXT("@ + rest).take("PRESENTATION_STYLE_BY_CONTEXT"@.len() as int) =~= "PRESENTATION_STYLE_BY_CONTEXT"@);
    written::lemma_keyword_lacks("PRESENTATION_STYLE_BY_CONTEXT("@, name);
    written::law_reference_lists_are_read("PRESENTATION_STYLE_BY_CONTEXT("@ + name, ids, after);
    written::law_no_reference_without_sign(after);
    assert("PRESENTATION_STYLE_BY_CONTEXT("@ + rest =~= "PRESENTATION_STYLE_BY_CONTEXT("@ + name + written::reference_list(ids) + after);
    assert(ids + Seq::<u64>::empty() =~= ids);
}

/// A colour has its components, red before green before blue.
pub proof fn law_colour_entities_are_read(
    name: Seq<char>,
    red: RealText,
    green: RealText,
    blue: RealText,
)
    requires
        text::lacks(name, ','),
        red.valid(),
        green.valid(),
        blue.valid(),
    ensures
        colors::style_fact(
            "COLOUR_RGB("@ + (name + seq![','] + written::three_reals(red, green, blue) + seq![')']),
        ) == StyleFact::Colour((red.filled(), green.filled(), blue.filled())),
{
    let rest = name + seq![','] + written::three_reals(red, green, blue) + seq![')'];
    reveal_strlit("COLOUR_RGB(");
    reveal_strlit("COLOUR_RGB");
    assert(("COLOUR_RGB("@ + rest).take("COLOUR_RGB"@.len() as int) =~= "COLOUR_RGB"@);
    written::law_colours_are_read("COLOUR_RGB"@, name, red, green, blue);
    assert("COLOUR_RGB("@ + rest =~= "COLOUR_RGB"@ + seq!['('] + name + seq![',']
        + written::three_reals(red, green, blue) + seq![')']);
}

} // verus!
