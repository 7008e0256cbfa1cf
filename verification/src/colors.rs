//! Colours of shells, read from the presentation entities of a STEP file.
//!
//! A colour reaches a shell over a chain of references: styled item,
//! presentation style assignment, surface style usage, surface side style,
//! surface style fill area, fill area style, fill area style colour, colour.

use std::collections::HashMap;
use vstd::prelude::*;

use crate::parsing;
use crate::parsing::{parse_colour_components, references, step_entities, Entity, RealTriple};
use crate::text::starts_with;

verus! {

broadcast use vstd::std_specs::hash::group_hash_axioms;

/// What one entity says about styles.
pub enum StyleRecord {
    Colour(RealTriple),
    StyledItem { styles: Vec<u64>, target: u64 },
    FillColour(u64),
    Fill(u64),
    FillArea(u64),
    SideStyle(Vec<u64>),
    Usage(u64),
    Assignment(Vec<u64>),
    Manifold(u64),
    Unrelated,
}

/// The mathematical form of a [`StyleRecord`].
pub ghost enum StyleFact {
    Colour((Seq<char>, Seq<char>, Seq<char>)),
    StyledItem { styles: Seq<u64>, target: u64 },
    FillColour(u64),
    Fill(u64),
    FillArea(u64),
    SideStyle(Seq<u64>),
    Usage(u64),
    Assignment(Seq<u64>),
    Manifold(u64),
    Unrelated,
}

impl View for StyleRecord {
    type V = StyleFact;

    open spec fn view(&self) -> StyleFact {
        match self {
            StyleRecord::Colour(c) => StyleFact::Colour(c@),
            StyleRecord::StyledItem { styles, target } => StyleFact::StyledItem {
                styles: styles@,
                target: *target,
            },
            StyleRecord::FillColour(id) => StyleFact::FillColour(*id),
            StyleRecord::Fill(id) => StyleFact::Fill(*id),
            StyleRecord::FillArea(id) => StyleFact::FillArea(*id),
            StyleRecord::SideStyle(ids) => StyleFact::SideStyle(ids@),
            StyleRecord::Usage(id) => StyleFact::Usage(*id),
            StyleRecord::Assignment(ids) => StyleFact::Assignment(ids@),
            StyleRecord::Manifold(id) => StyleFact::Manifold(*id),
            StyleRecord::Unrelated => StyleFact::Unrelated,
        }
    }
}

/// What the text of an entity says about styles. The keyword decides, and the
/// longer of two keywords with a common start is looked for first.
pub open spec fn style_fact(s: Seq<char>) -> StyleFact {
    let refs = parsing::hash_refs(s);
    if "COLOUR_RGB"@.is_prefix_of(s) {
        match parsing::colour_components(s) {
            Some(rgb) => StyleFact::Colour(rgb),
            None => StyleFact::Unrelated,
        }
    } else if "STYLED_ITEM"@.is_prefix_of(s) || "OVER_RIDING_STYLED_ITEM"@.is_prefix_of(s) {
        if refs.len() >= 2 {
            StyleFact::StyledItem { styles: refs.drop_last(), target: refs.last() }
        } else {
            StyleFact::Unrelated
        }
    } else if "FILL_AREA_STYLE_COLOUR"@.is_prefix_of(s) {
        if refs.len() > 0 {
            StyleFact::FillColour(refs[0])
        } else {
            StyleFact::Unrelated
        }
    } else if "FILL_AREA_STYLE"@.is_prefix_of(s) {
        if refs.len() > 0 {
            StyleFact::Fill(refs[0])
        } else {
            StyleFact::Unrelated
        }
    } else if "SURFACE_STYLE_FILL_AREA"@.is_prefix_of(s) {
        if refs.len() > 0 {
            StyleFact::FillArea(refs[0])
        } else {
            StyleFact::Unrelated
        }
    } else if "SURFACE_SIDE_STYLE"@.is_prefix_of(s) {
        StyleFact::SideStyle(refs)
    } else if "SURFACE_STYLE_USAGE"@.is_prefix_of(s) {
        if refs.len() > 0 {
            StyleFact::Usage(refs[0])
        } else {
            StyleFact::Unrelated
        }
    } else if "PRESENTATION_STYLE_ASSIGNMENT"@.is_prefix_of(s)
        || "PRESENTATION_STYLE_BY_CONTEXT"@.is_prefix_of(s) {
        StyleFact::Assignment(refs)
    } else if "MANIFOLD_SOLID_BREP"@.is_prefix_of(s) {
        if refs.len() > 0 {
            StyleFact::Manifold(refs[0])
        } else {
            StyleFact::Unrelated
        }
    } else {
        StyleFact::Unrelated
    }
}

/// The style references of a file: each map leads from the number of an
/// entity to what it refers to; the items stand in file order.
#[verifier::ext_equal]
pub ghost struct StyleTables {
    pub colours: Map<u64, (Seq<char>, Seq<char>, Seq<char>)>,
    pub items: Seq<(Seq<u64>, u64)>,
    pub fill_colours: Map<u64, u64>,
    pub fills: Map<u64, u64>,
    pub fill_areas: Map<u64, u64>,
    pub side_styles: Map<u64, Seq<u64>>,
    pub usages: Map<u64, u64>,
    pub assignments: Map<u64, Seq<u64>>,
    pub manifolds: Map<u64, u64>,
}

impl StyleTables {
    pub open spec fn empty() -> StyleTables {
        StyleTables {
            colours: Map::empty(),
            items: Seq::empty(),
            fill_colours: Map::empty(),
            fills: Map::empty(),
            fill_areas: Map::empty(),
            side_styles: Map::empty(),
            usages: Map::empty(),
            assignments: Map::empty(),
            manifolds: Map::empty(),
        }
    }

    /// The tables with one more entity; a number given again replaces what
    /// stood under it.
    pub open spec fn with(self, id: u64, fact: StyleFact) -> StyleTables {
        match fact {
            StyleFact::Colour(rgb) => StyleTables { colours: self.colours.insert(id, rgb), ..self },
            StyleFact::StyledItem { styles, target } => StyleTables {
                items: self.items.push((styles, target)),
                ..self
            },
            StyleFact::FillColour(to) => StyleTables {
                fill_colours: self.fill_colours.insert(id, to),
                ..self
            },
            StyleFact::Fill(to) => StyleTables { fills: self.fills.insert(id, to), ..self },
            StyleFact::FillArea(to) => StyleTables {
                fill_areas: self.fill_areas.insert(id, to),
                ..self
            },
            StyleFact::SideStyle(to) => StyleTables {
                side_styles: self.side_styles.insert(id, to),
                ..self
            },
            StyleFact::Usage(to) => StyleTables { usages: self.usages.insert(id, to), ..self },
            StyleFact::Assignment(to) => StyleTables {
                assignments: self.assignments.insert(id, to),
                ..self
            },
            StyleFact::Manifold(to) => StyleTables {
                manifolds: self.manifolds.insert(id, to),
                ..self
            },
            StyleFact::Unrelated => self,
        }
    }
}

pub open spec fn style_tables(entities: Seq<(u64, Seq<char>)>) -> StyleTables
    decreases entities.len(),
{
    if entities.len() == 0 {
        StyleTables::empty()
    } else {
        style_tables(entities.drop_last()).with(
            entities.last().0,
            style_fact(entities.last().1),
        )
    }
}

pub open spec fn lookup<V>(m: Map<u64, V>, id: u64) -> Option<V> {
    if m.contains_key(id) {
        Some(m[id])
    } else {
        None
    }
}

/// The first colour that one of the references leads to.
pub open spec fn first_colour(
    refs: Seq<u64>,
    colour: spec_fn(u64) -> Option<(Seq<char>, Seq<char>, Seq<char>)>,
) -> Option<(Seq<char>, Seq<char>, Seq<char>)>
    decreases refs.len(),
{
    if refs.len() == 0 {
        None
    } else if colour(refs[0]) is Some {
        colour(refs[0])
    } else {
        first_colour(refs.drop_first(), colour)
    }
}

impl StyleTables {
    pub open spec fn fill_colour(self, id: u64) -> Option<(Seq<char>, Seq<char>, Seq<char>)> {
        match lookup(self.fill_colours, id) {
            Some(to) => lookup(self.colours, to),
            None => None,
        }
    }

    pub open spec fn fill(self, id: u64) -> Option<(Seq<char>, Seq<char>, Seq<char>)> {
        match lookup(self.fills, id) {
            Some(to) => self.fill_colour(to),
            None => None,
        }
    }

    pub open spec fn fill_area(self, id: u64) -> Option<(Seq<char>, Seq<char>, Seq<char>)> {
        match lookup(self.fill_areas, id) {
            Some(to) => self.fill(to),
            None => None,
        }
    }

    pub open spec fn side_style(self, id: u64) -> Option<(Seq<char>, Seq<char>, Seq<char>)> {
        match lookup(self.side_styles, id) {
            Some(refs) => first_colour(refs, |to: u64| self.fill_area(to)),
            None => None,
        }
    }

    pub open spec fn usage(self, id: u64) -> Option<(Seq<char>, Seq<char>, Seq<char>)> {
        match lookup(self.usages, id) {
            Some(to) => self.side_style(to),
            None => None,
        }
    }

    pub open spec fn assignment(self, id: u64) -> Option<(Seq<char>, Seq<char>, Seq<char>)> {
        match lookup(self.assignments, id) {
            Some(refs) => first_colour(refs, |to: u64| self.usage(to)),
            None => None,
        }
    }

    /// The colour of a styled item with these styles.
    pub open spec fn item_colour(self, styles: Seq<u64>) -> Option<
        (Seq<char>, Seq<char>, Seq<char>),
    > {
        first_colour(styles, |to: u64| self.assignment(to))
    }

    /// The shell that a styled item colours: the outer shell of a solid, or
    /// the target itself.
    pub open spec fn item_shell(self, target: u64) -> u64 {
        match lookup(self.manifolds, target) {
            Some(shell) => shell,
            None => target,
        }
    }

    /// The colours of the shells that the given styled items colour; a later
    /// item replaces the colour of an earlier one.
    pub open spec fn shell_colours(self, items: Seq<(Seq<u64>, u64)>) -> Map<
        u64,
        (Seq<char>, Seq<char>, Seq<char>),
    >
        decreases items.len(),
    {
        if items.len() == 0 {
            Map::empty()
        } else {
            let before = self.shell_colours(items.drop_last());
            match self.item_colour(items.last().0) {
                Some(rgb) => before.insert(self.item_shell(items.last().1), rgb),
                None => before,
            }
        }
    }
}

/// Whether the styled item at `i` gives a colour to a shell.
pub open spec fn colours_shell(
    tables: StyleTables,
    items: Seq<(Seq<u64>, u64)>,
    i: int,
    shell: u64,
) -> bool {
    tables.item_colour(items[i].0) is Some && tables.item_shell(items[i].1) == shell
}

/// A shell has the colour of the last styled item that gives it one.
pub proof fn law_last_styled_item_colours(
    tables: StyleTables,
    items: Seq<(Seq<u64>, u64)>,
    shell: u64,
    i: int,
)
    requires
        0 <= i < items.len(),
        colours_shell(tables, items, i, shell),
        forall|k: int| i < k < items.len() ==> !#[trigger] colours_shell(tables, items, k, shell),
    ensures
        tables.shell_colours(items).contains_key(shell),
        tables.item_colour(items[i].0) == Some(tables.shell_colours(items)[shell]),
    decreases items.len(),
{
    let init = items.drop_last();
    let last = items.len() - 1;
    if i < last {
        assert(!colours_shell(tables, items, last, shell));
        assert forall|k: int| i < k < init.len() implies !#[trigger] colours_shell(
            tables,
            init,
            k,
            shell,
        ) by {
            assert(!colours_shell(tables, items, k, shell));
        }
        law_last_styled_item_colours(tables, init, shell, i);
    }
}

/// A shell that has a colour has it from a styled item.
pub proof fn law_colours_come_from_items(
    tables: StyleTables,
    items: Seq<(Seq<u64>, u64)>,
    shell: u64,
) -> (i: int)
    requires
        tables.shell_colours(items).contains_key(shell),
    ensures
        0 <= i < items.len(),
        colours_shell(tables, items, i, shell),
    decreases items.len(),
{
    let init = items.drop_last();
    let last = items.len() - 1;
    if colours_shell(tables, items, last, shell) {
        last
    } else {
        law_colours_come_from_items(tables, init, shell)
    }
}

pub open spec fn triple_map(m: Map<u64, RealTriple>) -> Map<
    u64,
    (Seq<char>, Seq<char>, Seq<char>),
> {
    m.map_values(|t: RealTriple| t@)
}

pub open spec fn refs_map(m: Map<u64, Vec<u64>>) -> Map<u64, Seq<u64>> {
    m.map_values(|v: Vec<u64>| v@)
}

/// The colour of each shell that the file gives one.
pub open spec fn file_colours(raw: Seq<char>) -> Map<u64, (Seq<char>, Seq<char>, Seq<char>)> {
    let tables = style_tables(parsing::file_entities(raw));
    tables.shell_colours(tables.items)
}

fn style_record(s: &[char]) -> (r: StyleRecord)
    ensures
        r@ == style_fact(s@),
{
    if starts_with(s, "COLOUR_RGB") {
        match parse_colour_components(s) {
            Some(rgb) => StyleRecord::Colour(rgb),
            None => StyleRecord::Unrelated,
        }
    } else if starts_with(s, "STYLED_ITEM") || starts_with(s, "OVER_RIDING_STYLED_ITEM") {
        let mut refs = references(s);
        let ghost all = refs@;
        if refs.len() >= 2 {
            match refs.pop() {
                Some(target) => {
                    assert(refs@ =~= all.drop_last());
                    StyleRecord::StyledItem { styles: refs, target }
                },
                None => StyleRecord::Unrelated,
            }
        } else {
            StyleRecord::Unrelated
        }
    } else if starts_with(s, "FILL_AREA_STYLE_COLOUR") {
        let refs = references(s);
        if refs.len() > 0 {
            StyleRecord::FillColour(refs[0])
        } else {
            StyleRecord::Unrelated
        }
    } else if starts_with(s, "FILL_AREA_STYLE") {
        let refs = references(s);
        if refs.len() > 0 {
            StyleRecord::Fill(refs[0])
        } else {
            StyleRecord::Unrelated
        }
    } else if starts_with(s, "SURFACE_STYLE_FILL_AREA") {
        let refs = references(s);
        if refs.len() > 0 {
            StyleRecord::FillArea(refs[0])
        } else {
            StyleRecord::Unrelated
        }
    } else if starts_with(s, "SURFACE_SIDE_STYLE") {
        StyleRecord::SideStyle(references(s))
    } else if starts_with(s, "SURFACE_STYLE_USAGE") {
        let refs = references(s);
        if refs.len() > 0 {
            StyleRecord::Usage(refs[0])
        } else {
            StyleRecord::Unrelated
        }
    } else if starts_with(s, "PRESENTATION_STYLE_ASSIGNMENT") || starts_with(
        s,
        "PRESENTATION_STYLE_BY_CONTEXT",
    ) {
        StyleRecord::Assignment(references(s))
    } else if starts_with(s, "MANIFOLD_SOLID_BREP") {
        let refs = references(s);
        if refs.len() > 0 {
            StyleRecord::Manifold(refs[0])
        } else {
            StyleRecord::Unrelated
        }
    } else {
        StyleRecord::Unrelated
    }
}

/// The style references of a file.
struct Styles {
    colours: HashMap<u64, RealTriple>,
    items: Vec<(Vec<u64>, u64)>,
    fill_colours: HashMap<u64, u64>,
    fills: HashMap<u64, u64>,
    fill_areas: HashMap<u64, u64>,
    side_styles: HashMap<u64, Vec<u64>>,
    usages: HashMap<u64, u64>,
    assignments: HashMap<u64, Vec<u64>>,
    manifolds: HashMap<u64, u64>,
}

spec fn item_views(items: Seq<(Vec<u64>, u64)>) -> Seq<(Seq<u64>, u64)> {
    items.map_values(|item: (Vec<u64>, u64)| (item.0@, item.1))
}

impl View for Styles {
    type V = StyleTables;

    closed spec fn view(&self) -> StyleTables {
        StyleTables {
            colours: triple_map(self.colours@),
            items: item_views(self.items@),
            fill_colours: self.fill_colours@,
            fills: self.fills@,
            fill_areas: self.fill_areas@,
            side_styles: refs_map(self.side_styles@),
            usages: self.usages@,
            assignments: refs_map(self.assignments@),
            manifolds: self.manifolds@,
        }
    }
}

impl Styles {
    fn new() -> (r: Styles)
        ensures
            r@ == StyleTables::empty(),
    {
        let r = Styles {
            colours: HashMap::new(),
            items: Vec::new(),
            fill_colours: HashMap::new(),
            fills: HashMap::new(),
            fill_areas: HashMap::new(),
            side_styles: HashMap::new(),
            usages: HashMap::new(),
            assignments: HashMap::new(),
            manifolds: HashMap::new(),
        };
        assert(r@ =~= StyleTables::empty());
        r
    }

    fn record(&mut self, id: u64, record: StyleRecord)
        ensures
            final(self)@ == old(self)@.with(id, record@),
    {
        let ghost before = *self;
        let ghost fact = record@;
        match record {
            StyleRecord::Colour(rgb) => {
                self.colours.insert(id, rgb);
            },
            StyleRecord::StyledItem { styles, target } => {
                self.items.push((styles, target));
            },
            StyleRecord::FillColour(to) => {
                self.fill_colours.insert(id, to);
            },
            StyleRecord::Fill(to) => {
                self.fills.insert(id, to);
            },
            StyleRecord::FillArea(to) => {
                self.fill_areas.insert(id, to);
            },
            StyleRecord::SideStyle(to) => {
                self.side_styles.insert(id, to);
            },
            StyleRecord::Usage(to) => {
                self.usages.insert(id, to);
            },
            StyleRecord::Assignment(to) => {
                self.assignments.insert(id, to);
            },
            StyleRecord::Manifold(to) => {
                self.manifolds.insert(id, to);
            },
            StyleRecord::Unrelated => {},
        }
        assert(self@ =~= before@.with(id, fact));
    }

    fn fill_colour(&self, id: u64) -> (r: Option<&RealTriple>)
        ensures
            shown(r) == self@.fill_colour(id),
    {
        match self.fill_colours.get(&id) {
            Some(to) => self.colours.get(to),
            None => None,
        }
    }

    fn fill(&self, id: u64) -> (r: Option<&RealTriple>)
        ensures
            shown(r) == self@.fill(id),
    {
        match self.fills.get(&id) {
            Some(to) => self.fill_colour(*to),
            None => None,
        }
    }

    fn fill_area(&self, id: u64) -> (r: Option<&RealTriple>)
        ensures
            shown(r) == self@.fill_area(id),
    {
        match self.fill_areas.get(&id) {
            Some(to) => self.fill(*to),
            None => None,
        }
    }

    fn side_style(&self, id: u64) -> (r: Option<&RealTriple>)
        ensures
            shown(r) == self@.side_style(id),
    {
        match self.side_styles.get(&id) {
            None => None,
            Some(refs) => {
                let ghost colour = |to: u64| self@.fill_area(to);
                let mut i: usize = 0;
                assert(refs@.skip(0) =~= refs@);
                while i < refs.len()
                    invariant
                        i <= refs.len(),
                        colour == (|to: u64| self@.fill_area(to)),
                        first_colour(refs@, colour) == first_colour(refs@.skip(i as int), colour),
                        self@.side_style(id) == first_colour(refs@, colour),
                    decreases refs.len() - i,
                {
                    let found = self.fill_area(refs[i]);
                    assert(refs@.skip(i as int).drop_first() =~= refs@.skip(i + 1));
                    if found.is_some() {
                        return found;
                    }
                    i += 1;
                }
                None
            },
        }
    }

    fn usage(&self, id: u64) -> (r: Option<&RealTriple>)
        ensures
            shown(r) == self@.usage(id),
    {
        match self.usages.get(&id) {
            Some(to) => self.side_style(*to),
            None => None,
        }
    }

    fn assignment(&self, id: u64) -> (r: Option<&RealTriple>)
        ensures
            shown(r) == self@.assignment(id),
    {
        match self.assignments.get(&id) {
            None => None,
            Some(refs) => {
                let ghost colour = |to: u64| self@.usage(to);
                let mut i: usize = 0;
                assert(refs@.skip(0) =~= refs@);
                while i < refs.len()
                    invariant
                        i <= refs.len(),
                        colour == (|to: u64| self@.usage(to)),
                        first_colour(refs@, colour) == first_colour(refs@.skip(i as int), colour),
                        self@.assignment(id) == first_colour(refs@, colour),
                    decreases refs.len() - i,
                {
                    let found = self.usage(refs[i]);
                    assert(refs@.skip(i as int).drop_first() =~= refs@.skip(i + 1));
                    if found.is_some() {
                        return found;
                    }
                    i += 1;
                }
                None
            },
        }
    }

    fn item_colour(&self, styles: &Vec<u64>) -> (r: Option<&RealTriple>)
        ensures
            shown(r) == self@.item_colour(styles@),
    {
        let ghost colour = |to: u64| self@.assignment(to);
        let mut i: usize = 0;
        assert(styles@.skip(0) =~= styles@);
        while i < styles.len()
            invariant
                i <= styles.len(),
                colour == (|to: u64| self@.assignment(to)),
                first_colour(styles@, colour) == first_colour(styles@.skip(i as int), colour),
                self@.item_colour(styles@) == first_colour(styles@, colour),
            decreases styles.len() - i,
        {
            let found = self.assignment(styles[i]);
            assert(styles@.skip(i as int).drop_first() =~= styles@.skip(i + 1));
            if found.is_some() {
                return found;
            }
            i += 1;
        }
        None
    }

    fn item_shell(&self, target: u64) -> (r: u64)
        ensures
            r == self@.item_shell(target),
    {
        match self.manifolds.get(&target) {
            Some(shell) => *shell,
            None => target,
        }
    }
}

spec fn shown(t: Option<&RealTriple>) -> Option<(Seq<char>, Seq<char>, Seq<char>)> {
    match t {
        Some(triple) => Some(triple@),
        None => None,
    }
}

/// The colour of each shell that the file gives one, by the number of the
/// shell's entity. The components are the decimal texts of red, green and
/// blue.
pub fn parse_step_colors(raw: &str) -> (r: HashMap<u64, RealTriple>)
    ensures
        triple_map(r@) == file_colours(raw@),
{
    let entities = step_entities(raw);
    let ghost all = parsing::file_entities(raw@);
    let mut styles = Styles::new();
    let mut i: usize = 0;
    assert(all.take(0) =~= Seq::empty());
    while i < entities.len()
        invariant
            i <= entities.len(),
            parsing::entity_views(entities@) == all,
            styles@ == style_tables(all.take(i as int)),
        decreases entities.len() - i,
    {
        assert(all[i as int] == entities@[i as int]@);
        assert(all.take(i + 1).drop_last() =~= all.take(i as int));
        let record = style_record(entities[i].text.as_slice());
        styles.record(entities[i].id, record);
        i += 1;
    }
    assert(all.take(all.len() as int) =~= all);
    let ghost tables = styles@;
    let mut colours: HashMap<u64, RealTriple> = HashMap::new();
    let mut k: usize = 0;
    assert(triple_map(colours@) =~= tables.shell_colours(tables.items.take(0)));
    while k < styles.items.len()
        invariant
            k <= styles.items.len(),
            styles@ == tables,
            triple_map(colours@) == tables.shell_colours(tables.items.take(k as int)),
        decreases styles.items.len() - k,
    {
        assert(tables.items[k as int] == (styles.items@[k as int].0@, styles.items@[k as int].1));
        assert(tables.items.take(k + 1).drop_last() =~= tables.items.take(k as int));
        let ghost before = colours@;
        if let Some(rgb) = styles.item_colour(&styles.items[k].0) {
            let copy = rgb.copy();
            let ghost shown_copy = copy@;
            let shell = styles.item_shell(styles.items[k].1);
            colours.insert(shell, copy);
            assert(triple_map(colours@) =~= triple_map(before).insert(shell, shown_copy));
        }
        k += 1;
    }
    assert(tables.items.take(tables.items.len() as int) =~= tables.items);
    colours
}

} // verus!
