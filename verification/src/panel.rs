//! The panel that shows the hierarchy of a loaded model, and what its
//! switches change.

use vstd::prelude::*;

use crate::records::{
    EdgeFacts, EdgeRecord, FaceFacts, Facts, Hierarchy, LoopFacts, LoopRecord, Selection,
    ShellFacts,
};
use crate::text;
use crate::text::push_decimal;

verus! {

/// A line for an edge.
pub struct EdgeRow {
    pub id: usize,
    pub title: String,
    pub visible: bool,
    pub selected: bool,
}

/// A line for a boundary loop, with its edges.
pub struct LoopRow {
    pub id: usize,
    pub title: String,
    pub trimming_active: bool,
    pub selected: bool,
    pub edges: Vec<EdgeRow>,
}

/// A line for a face, with its boundary loops.
pub struct FaceRow {
    pub id: usize,
    pub title: String,
    pub visible: bool,
    pub selected: bool,
    pub loops: Vec<LoopRow>,
}

/// A line for a shell, with its faces and the edges that bound none of them.
pub struct ShellRow {
    pub id: usize,
    pub title: String,
    pub visible: bool,
    pub expanded: bool,
    pub faces: Vec<FaceRow>,
    pub standalone_title: String,
    pub standalone: Vec<EdgeRow>,
}

pub ghost struct EdgeLine {
    pub id: int,
    pub title: Seq<char>,
    pub visible: bool,
    pub selected: bool,
}

pub ghost struct LoopLine {
    pub id: int,
    pub title: Seq<char>,
    pub trimming_active: bool,
    pub selected: bool,
    pub edges: Seq<EdgeLine>,
}

pub ghost struct FaceLine {
    pub id: int,
    pub title: Seq<char>,
    pub visible: bool,
    pub selected: bool,
    pub loops: Seq<LoopLine>,
}

pub ghost struct ShellLine {
    pub id: usize,
    pub title: Seq<char>,
    pub visible: bool,
    pub expanded: bool,
    pub faces: Seq<FaceLine>,
    pub standalone_title: Seq<char>,
    pub standalone: Seq<EdgeLine>,
}

impl View for EdgeRow {
    type V = EdgeLine;

    open spec fn view(&self) -> EdgeLine {
        EdgeLine {
            id: self.id as int,
            title: self.title@,
            visible: self.visible,
            selected: self.selected,
        }
    }
}

pub open spec fn edge_lines(rows: Seq<EdgeRow>) -> Seq<EdgeLine> {
    rows.map_values(|r: EdgeRow| r@)
}

impl View for LoopRow {
    type V = LoopLine;

    open spec fn view(&self) -> LoopLine {
        LoopLine {
            id: self.id as int,
            title: self.title@,
            trimming_active: self.trimming_active,
            selected: self.selected,
            edges: edge_lines(self.edges@),
        }
    }
}

pub open spec fn loop_lines(rows: Seq<LoopRow>) -> Seq<LoopLine> {
    rows.map_values(|r: LoopRow| r@)
}

impl View for FaceRow {
    type V = FaceLine;

    open spec fn view(&self) -> FaceLine {
        FaceLine {
            id: self.id as int,
            title: self.title@,
            visible: self.visible,
            selected: self.selected,
            loops: loop_lines(self.loops@),
        }
    }
}

pub open spec fn face_lines(rows: Seq<FaceRow>) -> Seq<FaceLine> {
    rows.map_values(|r: FaceRow| r@)
}

impl View for ShellRow {
    type V = ShellLine;

    open spec fn view(&self) -> ShellLine {
        ShellLine {
            id: self.id,
            title: self.title@,
            visible: self.visible,
            expanded: self.expanded,
            faces: face_lines(self.faces@),
            standalone_title: self.standalone_title@,
            standalone: edge_lines(self.standalone@),
        }
    }
}

pub open spec fn shell_lines(rows: Seq<ShellRow>) -> Seq<ShellLine> {
    rows.map_values(|r: ShellRow| r@)
}

/// A name with a count of parts behind it.
pub open spec fn counted(name: Seq<char>, n: nat, parts: Seq<char>) -> Seq<char> {
    name + " ("@ + text::decimal(n) + parts
}

pub open spec fn edge_line(e: EdgeFacts, selection: Option<Selection>) -> EdgeLine {
    EdgeLine {
        id: e.id,
        title: counted(e.name, e.point_count, " pts)"@),
        visible: e.visible,
        selected: selection == Some(Selection::Edge(e.id as usize)),
    }
}

/// The lines of those of the given edges that there are.
pub open spec fn lines_of_edges<C>(
    facts: Facts<C>,
    ids: Seq<usize>,
    selection: Option<Selection>,
) -> Seq<EdgeLine>
    decreases ids.len(),
{
    if ids.len() == 0 {
        Seq::empty()
    } else {
        let before = lines_of_edges(facts, ids.drop_last(), selection);
        if ids.last() < facts.edges.len() {
            before.push(edge_line(facts.edges[ids.last() as int], selection))
        } else {
            before
        }
    }
}

pub open spec fn loop_line<C>(
    facts: Facts<C>,
    l: LoopFacts,
    selection: Option<Selection>,
) -> LoopLine {
    LoopLine {
        id: l.id,
        title: counted(
            if l.is_outer {
                "Outer Loop"@
            } else {
                "Hole"@
            },
            l.edge_ids.len(),
            " edges)"@,
        ),
        trimming_active: l.trimming_active,
        selected: selection == Some(Selection::Loop(l.id as usize)),
        edges: lines_of_edges(facts, l.edge_ids, selection),
    }
}

pub open spec fn lines_of_loops<C>(
    facts: Facts<C>,
    ids: Seq<usize>,
    selection: Option<Selection>,
) -> Seq<LoopLine>
    decreases ids.len(),
{
    if ids.len() == 0 {
        Seq::empty()
    } else {
        let before = lines_of_loops(facts, ids.drop_last(), selection);
        if ids.last() < facts.loops.len() {
            before.push(loop_line(facts, facts.loops[ids.last() as int], selection))
        } else {
            before
        }
    }
}

pub open spec fn face_line<C>(
    facts: Facts<C>,
    f: FaceFacts<C>,
    selection: Option<Selection>,
) -> FaceLine {
    FaceLine {
        id: f.id,
        title: counted(f.name, f.triangles as nat, " tris)"@),
        visible: f.visible,
        selected: selection == Some(Selection::Face(f.id as usize)),
        loops: lines_of_loops(facts, f.loop_ids, selection),
    }
}

pub open spec fn lines_of_faces<C>(
    facts: Facts<C>,
    ids: Seq<usize>,
    selection: Option<Selection>,
) -> Seq<FaceLine>
    decreases ids.len(),
{
    if ids.len() == 0 {
        Seq::empty()
    } else {
        let before = lines_of_faces(facts, ids.drop_last(), selection);
        if ids.last() < facts.faces.len() {
            before.push(face_line(facts, facts.faces[ids.last() as int], selection))
        } else {
            before
        }
    }
}

pub open spec fn shell_line<C>(
    facts: Facts<C>,
    s: ShellFacts,
    selection: Option<Selection>,
) -> ShellLine {
    ShellLine {
        id: s.id,
        title: counted(s.name, s.face_ids.len(), " faces)"@),
        visible: s.visible,
        expanded: s.expanded,
        faces: lines_of_faces(facts, s.face_ids, selection),
        standalone_title: counted("Standalone Curves"@, s.standalone_edge_ids.len(), ")"@),
        standalone: lines_of_edges(facts, s.standalone_edge_ids, selection),
    }
}

/// The lines of the panel: one for each shell.
pub open spec fn panel_lines<C>(facts: Facts<C>, selection: Option<Selection>) -> Seq<ShellLine> {
    facts.shells.map_values(|s: ShellFacts| shell_line(facts, s, selection))
}

fn counted_title(name: &str, n: usize, parts: &str) -> (r: String)
    ensures
        r@ == counted(name@, n as nat, parts@),
{
    let mut out = String::new();
    out.append(name);
    out.append(" (");
    push_decimal(&mut out, n as u64);
    out.append(parts);
    assert(out@ =~= counted(name@, n as nat, parts@));
    out
}

impl<C> Hierarchy<C> {
    fn edge_rows(&self, ids: &Vec<usize>, selection: Option<Selection>) -> (r: Vec<EdgeRow>)
        requires
            self@.numbered(),
        ensures
            edge_lines(r@) == lines_of_edges(self@, ids@, selection),
    {
        let mut out: Vec<EdgeRow> = Vec::new();
        let mut i: usize = 0;
        assert(edge_lines(out@) =~= Seq::empty());
        while i < ids.len()
            invariant
                i <= ids.len(),
                self@.numbered(),
                edge_lines(out@) == lines_of_edges(self@, ids@.take(i as int), selection),
            decreases ids.len() - i,
        {
            let id: usize = ids[i];
            let ghost before = out@;
            proof {
                assert(ids@.take(i + 1).drop_last() =~= ids@.take(i as int));
            }
            if id < self.edges.len() {
                let e: &EdgeRecord = &self.edges[id];
                let is_selected = match selection {
                    Some(Selection::Edge(chosen)) => chosen == id,
                    _ => false,
                };
                assert(self@.edges[id as int] == e@);
                let row = EdgeRow {
                    id,
                    title: counted_title(e.name.as_str(), e.point_count, " pts)"),
                    visible: e.visible,
                    selected: is_selected,
                };
                let ghost shown = row@;
                out.push(row);
                assert(shown == edge_line(self@.edges[id as int], selection));
                assert(edge_lines(out@) =~= edge_lines(before).push(shown));
            }
            i += 1;
        }
        assert(ids@.take(ids.len() as int) =~= ids@);
        out
    }

    fn loop_rows(&self, ids: &Vec<usize>, selection: Option<Selection>) -> (r: Vec<LoopRow>)
        requires
            self@.numbered(),
        ensures
            loop_lines(r@) == lines_of_loops(self@, ids@, selection),
    {
        let mut out: Vec<LoopRow> = Vec::new();
        let mut i: usize = 0;
        assert(loop_lines(out@) =~= Seq::empty());
        while i < ids.len()
            invariant
                i <= ids.len(),
                self@.numbered(),
                loop_lines(out@) == lines_of_loops(self@, ids@.take(i as int), selection),
            decreases ids.len() - i,
        {
            let id: usize = ids[i];
            let ghost before = out@;
            proof {
                assert(ids@.take(i + 1).drop_last() =~= ids@.take(i as int));
            }
            if id < self.loops.len() {
                let l: &LoopRecord = &self.loops[id];
                let is_selected = match selection {
                    Some(Selection::Loop(chosen)) => chosen == id,
                    _ => false,
                };
                assert(self@.loops[id as int] == l@);
                let name: &str = if l.is_outer {
                    "Outer Loop"
                } else {
                    "Hole"
                };
                let row = LoopRow {
                    id,
                    title: counted_title(name, l.edge_ids.len(), " edges)"),
                    trimming_active: l.trimming_active,
                    selected: is_selected,
                    edges: self.edge_rows(&l.edge_ids, selection),
                };
                let ghost shown = row@;
                out.push(row);
                assert(shown == loop_line(self@, self@.loops[id as int], selection));
                assert(loop_lines(out@) =~= loop_lines(before).push(shown));
            }
            i += 1;
        }
        assert(ids@.take(ids.len() as int) =~= ids@);
        out
    }

    fn face_rows(&self, ids: &Vec<usize>, selection: Option<Selection>) -> (r: Vec<FaceRow>)
        requires
            self@.numbered(),
        ensures
            face_lines(r@) == lines_of_faces(self@, ids@, selection),
    {
        let mut out: Vec<FaceRow> = Vec::new();
        let mut i: usize = 0;
        assert(face_lines(out@) =~= Seq::empty());
        while i < ids.len()
            invariant
                i <= ids.len(),
                self@.numbered(),
                face_lines(out@) == lines_of_faces(self@, ids@.take(i as int), selection),
            decreases ids.len() - i,
        {
            let id: usize = ids[i];
            let ghost before = out@;
            proof {
                assert(ids@.take(i + 1).drop_last() =~= ids@.take(i as int));
            }
            if id < self.faces.len() {
                let f = &self.faces[id];
                let is_selected = match selection {
                    Some(Selection::Face(chosen)) => chosen == id,
                    _ => false,
                };
                assert(self@.faces[id as int] == f@);
                let row = FaceRow {
                    id,
                    title: counted_title(f.name.as_str(), f.triangles, " tris)"),
                    visible: f.visible,
                    selected: is_selected,
                    loops: self.loop_rows(&f.loop_ids, selection),
                };
                let ghost shown = row@;
                out.push(row);
                assert(shown == face_line(self@, self@.faces[id as int], selection));
                assert(face_lines(out@) =~= face_lines(before).push(shown));
            }
            i += 1;
        }
        assert(ids@.take(ids.len() as int) =~= ids@);
        out
    }

    /// The lines of the panel. A number without a record has no line.
    pub fn panel_rows(&self, selection: Option<Selection>) -> (r: Vec<ShellRow>)
        requires
            self@.numbered(),
        ensures
            shell_lines(r@) == panel_lines(self@, selection),
    {
        let mut out: Vec<ShellRow> = Vec::new();
        let ghost all = panel_lines(self@, selection);
        let mut i: usize = 0;
        assert(shell_lines(out@) =~= all.take(0));
        while i < self.shells.len()
            invariant
                i <= self.shells.len(),
                self@.numbered(),
                all == panel_lines(self@, selection),
                shell_lines(out@) == all.take(i as int),
            decreases self.shells.len() - i,
        {
            let s = &self.shells[i];
            let ghost before = out@;
            assert(self@.shells[i as int] == s@);
            let row = ShellRow {
                id: s.id,
                title: counted_title(s.name.as_str(), s.face_ids.len(), " faces)"),
                visible: s.visible,
                expanded: s.expanded,
                faces: self.face_rows(&s.face_ids, selection),
                standalone_title: counted_title(
                    "Standalone Curves",
                    s.standalone_edge_ids.len(),
                    ")",
                ),
                standalone: self.edge_rows(&s.standalone_edge_ids, selection),
            };
            let ghost shown = row@;
            out.push(row);
            assert(shown == all[i as int]);
            assert(shell_lines(out@) =~= shell_lines(before).push(shown));
            assert(shell_lines(out@) =~= all.take(i + 1));
            i += 1;
        }
        assert(all.take(all.len() as int) =~= all);
        out
    }
}

/// What the panel shows in place of the hierarchy while there is none.
pub fn panel_placeholder(shell_count: usize, loading: bool) -> (r: Option<&'static str>)
    ensures
        match r {
            Some(line) => shell_count == 0 && line@ == (if loading {
                "Loading..."@
            } else {
                "Load a STEP file to see hierarchy"@
            }),
            None => shell_count > 0,
        },
{
    if shell_count > 0 {
        None
    } else if loading {
        Some("Loading...")
    } else {
        Some("Load a STEP file to see hierarchy")
    }
}

/// The selection after a click on an item: a click on the selected item
/// clears the selection.
pub open spec fn toggled(current: Option<Selection>, item: Selection) -> Option<Selection> {
    if current == Some(item) {
        None
    } else {
        Some(item)
    }
}

pub fn toggle_selection(current: Option<Selection>, item: Selection) -> (r: Option<Selection>)
    ensures
        r == toggled(current, item),
{
    match current {
        Some(chosen) => if chosen == item {
            None
        } else {
            Some(item)
        },
        None => Some(item),
    }
}

/// Two clicks on an item that was not selected leave nothing selected.
pub proof fn law_two_clicks_clear(current: Option<Selection>, item: Selection)
    requires
        current != Some(item),
    ensures
        toggled(current, item) == Some(item),
        toggled(toggled(current, item), item) is None,
{
}

/// The switches that were used in the panel.
pub struct PanelChanges {
    /// Places of shells.
    pub shell_visibility: Vec<(usize, bool)>,
    /// Numbers of faces.
    pub face_visibility: Vec<(usize, bool)>,
    /// Numbers of edges.
    pub edge_visibility: Vec<(usize, bool)>,
    /// Numbers of loops.
    pub loop_trimming: Vec<(usize, bool)>,
}

/// What has to be brought up to date after the changes.
#[derive(Clone, Copy, Debug, PartialEq, Eq, Structural)]
pub struct PanelEffects {
    pub visibility_changed: bool,
    pub edge_visibility_changed: bool,
    /// The face whose boundary changed last.
    pub retessellate_face: Option<usize>,
}

pub open spec fn shells_after(shells: Seq<ShellFacts>, changes: Seq<(usize, bool)>) -> Seq<
    ShellFacts,
>
    decreases changes.len(),
{
    if changes.len() == 0 {
        shells
    } else {
        let before = shells_after(shells, changes.drop_last());
        let (at, visible) = changes.last();
        if at < before.len() {
            before.update(at as int, ShellFacts { visible, ..before[at as int] })
        } else {
            before
        }
    }
}

pub open spec fn faces_after<C>(faces: Seq<FaceFacts<C>>, changes: Seq<(usize, bool)>) -> Seq<
    FaceFacts<C>,
>
    decreases changes.len(),
{
    if changes.len() == 0 {
        faces
    } else {
        let before = faces_after(faces, changes.drop_last());
        let (id, visible) = changes.last();
        if id < before.len() {
            before.update(id as int, FaceFacts { visible, ..before[id as int] })
        } else {
            before
        }
    }
}

pub open spec fn edges_after(edges: Seq<EdgeFacts>, changes: Seq<(usize, bool)>) -> Seq<EdgeFacts>
    decreases changes.len(),
{
    if changes.len() == 0 {
        edges
    } else {
        let before = edges_after(edges, changes.drop_last());
        let (id, visible) = changes.last();
        if id < before.len() {
            before.update(id as int, EdgeFacts { visible, ..before[id as int] })
        } else {
            before
        }
    }
}

pub open spec fn loops_after(loops: Seq<LoopFacts>, changes: Seq<(usize, bool)>) -> Seq<LoopFacts>
    decreases changes.len(),
{
    if changes.len() == 0 {
        loops
    } else {
        let before = loops_after(loops, changes.drop_last());
        let (id, trimming_active) = changes.last();
        if id < before.len() {
            before.update(id as int, LoopFacts { trimming_active, ..before[id as int] })
        } else {
            before
        }
    }
}

/// The face of the last loop among the changes that there is.
pub open spec fn face_to_retessellate(loops: Seq<LoopFacts>, changes: Seq<(usize, bool)>) -> Option<
    int,
>
    decreases changes.len(),
{
    if changes.len() == 0 {
        None
    } else if changes.last().0 < loops.len() {
        Some(loops[changes.last().0 as int].face_id)
    } else {
        face_to_retessellate(loops, changes.drop_last())
    }
}

proof fn lemma_loops_after(loops: Seq<LoopFacts>, changes: Seq<(usize, bool)>)
    ensures
        loops_after(loops, changes).len() == loops.len(),
        forall|i: int|
            0 <= i < loops.len() ==> (#[trigger] loops_after(loops, changes)[i]).face_id
                == loops[i].face_id && loops_after(loops, changes)[i].id == loops[i].id,
    decreases changes.len(),
{
    if changes.len() > 0 {
        lemma_loops_after(loops, changes.drop_last());
    }
}

proof fn lemma_shells_after_len(shells: Seq<ShellFacts>, changes: Seq<(usize, bool)>)
    ensures
        shells_after(shells, changes).len() == shells.len(),
    decreases changes.len(),
{
    if changes.len() > 0 {
        lemma_shells_after_len(shells, changes.drop_last());
    }
}

impl<C> Hierarchy<C> {
    /// Applies the switches that were used in the panel, in their order.
    pub fn apply_panel_changes(&mut self, changes: &PanelChanges) -> (r: PanelEffects)
        requires
            old(self)@.numbered(),
            forall|i: int|
                0 <= i < changes.shell_visibility@.len() ==> (
                #[trigger] changes.shell_visibility@[i]).0 < old(self)@.shells.len(),
        ensures
            final(self)@.shells == shells_after(old(self)@.shells, changes.shell_visibility@),
            final(self)@.faces == faces_after(old(self)@.faces, changes.face_visibility@),
            final(self)@.edges == edges_after(old(self)@.edges, changes.edge_visibility@),
            final(self)@.loops == loops_after(old(self)@.loops, changes.loop_trimming@),
            r.visibility_changed == (changes.shell_visibility@.len() > 0
                || changes.face_visibility@.len() > 0),
            r.edge_visibility_changed == (changes.edge_visibility@.len() > 0),
            match r.retessellate_face {
                Some(id) => face_to_retessellate(old(self)@.loops, changes.loop_trimming@) == Some(
                    id as int,
                ),
                None => face_to_retessellate(old(self)@.loops, changes.loop_trimming@) is None,
            },
    {
        let ghost start = self@;
        let mut i: usize = 0;
        while i < changes.shell_visibility.len()
            invariant
                i <= changes.shell_visibility.len(),
                forall|k: int|
                    0 <= k < changes.shell_visibility@.len() ==> (
                    #[trigger] changes.shell_visibility@[k]).0 < start.shells.len(),
                self@.shells == shells_after(
                    start.shells,
                    changes.shell_visibility@.take(i as int),
                ),
                self@.faces == start.faces,
                self@.edges == start.edges,
                self@.loops == start.loops,
            decreases changes.shell_visibility.len() - i,
        {
            let (at, visible) = changes.shell_visibility[i];
            let ghost before = self@;
            proof {
                let longer = changes.shell_visibility@.take(i + 1);
                assert(longer.drop_last() =~= changes.shell_visibility@.take(i as int));
                lemma_shells_after_len(start.shells, changes.shell_visibility@.take(i as int));
                assert(changes.shell_visibility@[i as int].0 < start.shells.len());
            }
            self.shells[at].visible = visible;
            assert(self@.shells =~= before.shells.update(
                at as int,
                ShellFacts { visible, ..before.shells[at as int] },
            ));
            i += 1;
        }
        assert(changes.shell_visibility@.take(changes.shell_visibility.len() as int)
            =~= changes.shell_visibility@);
        let mut j: usize = 0;
        let ghost second = self@;
        while j < changes.face_visibility.len()
            invariant
                j <= changes.face_visibility.len(),
                self@.shells == second.shells,
                self@.faces == faces_after(start.faces, changes.face_visibility@.take(j as int)),
                self@.edges == start.edges,
                self@.loops == start.loops,
            decreases changes.face_visibility.len() - j,
        {
            let (id, visible) = changes.face_visibility[j];
            let ghost before = self@;
            assert(changes.face_visibility@.take(j + 1).drop_last()
                =~= changes.face_visibility@.take(j as int));
            if id < self.faces.len() {
                self.faces[id].visible = visible;
                assert(self@.faces =~= before.faces.update(
                    id as int,
                    FaceFacts { visible, ..before.faces[id as int] },
                ));
            }
            j += 1;
        }
        assert(changes.face_visibility@.take(changes.face_visibility.len() as int)
            =~= changes.face_visibility@);
        let mut k: usize = 0;
        let ghost third = self@;
        while k < changes.edge_visibility.len()
            invariant
                k <= changes.edge_visibility.len(),
                self@.shells == third.shells,
                self@.faces == third.faces,
                self@.edges == edges_after(start.edges, changes.edge_visibility@.take(k as int)),
                self@.loops == start.loops,
            decreases changes.edge_visibility.len() - k,
        {
            let (id, visible) = changes.edge_visibility[k];
            let ghost before = self@;
            assert(changes.edge_visibility@.take(k + 1).drop_last()
                =~= changes.edge_visibility@.take(k as int));
            if id < self.edges.len() {
                self.edges[id].visible = visible;
                assert(self@.edges =~= before.edges.update(
                    id as int,
                    EdgeFacts { visible, ..before.edges[id as int] },
                ));
            }
            k += 1;
        }
        assert(changes.edge_visibility@.take(changes.edge_visibility.len() as int)
            =~= changes.edge_visibility@);
        let mut n: usize = 0;
        let ghost fourth = self@;
        let mut retessellate_face: Option<usize> = None;
        while n < changes.loop_trimming.len()
            invariant
                n <= changes.loop_trimming.len(),
                self@.shells == fourth.shells,
                self@.faces == fourth.faces,
                self@.edges == fourth.edges,
                self@.loops == loops_after(start.loops, changes.loop_trimming@.take(n as int)),
                match retessellate_face {
                    Some(id) => face_to_retessellate(
                        start.loops,
                        changes.loop_trimming@.take(n as int),
                    ) == Some(id as int),
                    None => face_to_retessellate(
                        start.loops,
                        changes.loop_trimming@.take(n as int),
                    ) is None,
                },
            decreases changes.loop_trimming.len() - n,
        {
            let (id, trimming_active) = changes.loop_trimming[n];
            let ghost before = self@;
            proof {
                assert(changes.loop_trimming@.take(n + 1).drop_last()
                    =~= changes.loop_trimming@.take(n as int));
                lemma_loops_after(start.loops, changes.loop_trimming@.take(n as int));
            }
            if id < self.loops.len() {
                assert(self@.loops[id as int] == self.loops@[id as int]@);
                retessellate_face = Some(self.loops[id].face_id);
                self.loops[id].trimming_active = trimming_active;
                assert(self@.loops =~= before.loops.update(
                    id as int,
                    LoopFacts { trimming_active, ..before.loops[id as int] },
                ));
            }
            n += 1;
        }
        assert(changes.loop_trimming@.take(changes.loop_trimming.len() as int)
            =~= changes.loop_trimming@);
        PanelEffects {
            visibility_changed: changes.shell_visibility.len() > 0 || changes.face_visibility.len()
                > 0,
            edge_visibility_changed: changes.edge_visibility.len() > 0,
            retessellate_face,
        }
    }
}

/// The switches of the panel change neither the numbers of the records nor
/// which loops belong to which face.
pub proof fn law_panel_changes_keep_links<C>(
    before: Facts<C>,
    after: Facts<C>,
    shells: Seq<(usize, bool)>,
    faces: Seq<(usize, bool)>,
    edges: Seq<(usize, bool)>,
    loops: Seq<(usize, bool)>,
)
    requires
        before.numbered(),
        before.linked(),
        after.shells == shells_after(before.shells, shells),
        after.faces == faces_after(before.faces, faces),
        after.edges == edges_after(before.edges, edges),
        after.loops == loops_after(before.loops, loops),
    ensures
        after.numbered(),
        after.linked(),
{
    lemma_faces_after(before.faces, faces);
    lemma_edges_after(before.edges, edges);
    lemma_loops_after(before.loops, loops);
    assert forall|f: int, k: int|
        0 <= f < after.faces.len() && 0 <= k < after.faces[f].loop_ids.len() implies (
    #[trigger] after.faces[f].loop_ids[k]) < after.loops.len()
        && after.loops[after.faces[f].loop_ids[k] as int].face_id == f by {
        assert(before.faces[f].loop_ids[k] == after.faces[f].loop_ids[k]);
        assert(before.loops[before.faces[f].loop_ids[k] as int].face_id == f);
    }
}

proof fn lemma_faces_after<C>(faces: Seq<FaceFacts<C>>, changes: Seq<(usize, bool)>)
    ensures
        faces_after(faces, changes).len() == faces.len(),
        forall|i: int|
            0 <= i < faces.len() ==> (#[trigger] faces_after(faces, changes)[i]) == (FaceFacts {
                visible: faces_after(faces, changes)[i].visible,
                ..faces[i]
            }),
    decreases changes.len(),
{
    if changes.len() > 0 {
        lemma_faces_after(faces, changes.drop_last());
    }
}

proof fn lemma_edges_after(edges: Seq<EdgeFacts>, changes: Seq<(usize, bool)>)
    ensures
        edges_after(edges, changes).len() == edges.len(),
        forall|i: int|
            0 <= i < edges.len() ==> (#[trigger] edges_after(edges, changes)[i]).id == edges[i].id,
    decreases changes.len(),
{
    if changes.len() > 0 {
        lemma_edges_after(edges, changes.drop_last());
    }
}

} // verus!
