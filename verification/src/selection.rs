//! What a selection, a hover and the visibility switches mean for the faces
//! and edges that are drawn.

use vstd::prelude::*;

use crate::model;
use crate::model::StepShell;
use crate::order;
use crate::records;
use crate::records::{EdgeFacts, Facts, Hierarchy, Selection};

verus! {

/// Bits of the state of a face, as the shader reads them.
pub const FACE_STATE_SELECTED: u32 = 1;

pub const FACE_STATE_HOVERED: u32 = 2;

pub const FACE_STATE_HIDDEN: u32 = 4;

/// The annotation of a face stands above the other bits.
pub const FACE_STATE_ANNOTATION_SHIFT: u32 = 3;

impl<C> Facts<C> {
    /// The place of the first face with a number.
    pub open spec fn face_at(self, id: int) -> int {
        order::first_where(self.faces, |f: records::FaceFacts<C>| f.id == id)
    }

    pub open spec fn loop_at(self, id: int) -> int {
        order::first_where(self.loops, |l: records::LoopFacts| l.id == id)
    }

    pub open spec fn shell_at(self, id: usize) -> int {
        order::first_where(self.shells, |s: records::ShellFacts| s.id == id)
    }

    /// The place of the first face that an edge bounds.
    pub open spec fn face_with_edge(self, edge: usize) -> int {
        order::first_where(self.faces, |f: records::FaceFacts<C>| f.edge_ids.contains(edge))
    }

    /// The face that a selection stands for: the face itself, the face of a
    /// loop, or the first face that an edge bounds.
    pub open spec fn selected_face(self, selection: Option<Selection>) -> Option<int> {
        match selection {
            Some(Selection::Face(id)) => Some(id as int),
            Some(Selection::Loop(id)) => {
                let at = self.loop_at(id as int);
                if at < self.loops.len() {
                    Some(self.loops[at].face_id)
                } else {
                    None
                }
            },
            Some(Selection::Edge(id)) => {
                let at = self.face_with_edge(id);
                if at < self.faces.len() {
                    Some(self.faces[at].id)
                } else {
                    None
                }
            },
            Some(Selection::Shell(_)) => None,
            None => None,
        }
    }

    /// The edges that a selection highlights: the edge itself, those of a
    /// loop, or those of a face.
    pub open spec fn highlighted_edges(self, selection: Option<Selection>) -> Seq<usize> {
        match selection {
            Some(Selection::Edge(id)) => seq![id],
            Some(Selection::Loop(id)) => {
                let at = self.loop_at(id as int);
                if at < self.loops.len() {
                    self.loops[at].edge_ids
                } else {
                    Seq::empty()
                }
            },
            Some(Selection::Face(id)) => {
                let at = self.face_at(id as int);
                if at < self.faces.len() {
                    self.faces[at].edge_ids
                } else {
                    Seq::empty()
                }
            },
            Some(Selection::Shell(_)) => Seq::empty(),
            None => Seq::empty(),
        }
    }

    /// A shell is visible unless its record hides it.
    pub open spec fn shell_visible(self, id: usize) -> bool {
        let at = self.shell_at(id);
        at < self.shells.len() ==> self.shells[at].visible
    }

    /// An edge is visible unless its record hides it.
    pub open spec fn edge_visible(self, id: int) -> bool {
        0 <= id < self.edges.len() ==> self.edges[id].visible
    }

    /// The bits of the face at place `i`.
    pub open spec fn face_bits(
        self,
        selection: Option<Selection>,
        hover: Option<Selection>,
        i: int,
    ) -> u32 {
        let face = self.faces[i];
        let hidden = !(face.visible && self.shell_visible(face.shell_id));
        (face.annotation << FACE_STATE_ANNOTATION_SHIFT) | (if hidden {
            FACE_STATE_HIDDEN
        } else {
            0
        }) | (if self.selected_face(selection) == Some(i) {
            FACE_STATE_SELECTED
        } else {
            0
        }) | (if self.selected_face(hover) == Some(i) {
            FACE_STATE_HOVERED
        } else {
            0
        })
    }

    /// The state of all faces. Without faces one empty state stands in.
    pub open spec fn face_states(
        self,
        selection: Option<Selection>,
        hover: Option<Selection>,
    ) -> Seq<u32> {
        if self.faces.len() == 0 {
            seq![0u32]
        } else {
            Seq::new(self.faces.len(), |i: int| self.face_bits(selection, hover, i))
        }
    }
}

/// Where records are numbered by their place, a number is looked up there.
pub proof fn law_numbered_lookup<C>(facts: Facts<C>, id: int)
    requires
        facts.numbered(),
        0 <= id,
    ensures
        id < facts.faces.len() ==> facts.face_at(id) == id,
        id >= facts.faces.len() ==> facts.face_at(id) == facts.faces.len(),
        id < facts.loops.len() ==> facts.loop_at(id) == id,
        id >= facts.loops.len() ==> facts.loop_at(id) == facts.loops.len(),
{
    let face_fits = |f: records::FaceFacts<C>| f.id == id;
    let loop_fits = |l: records::LoopFacts| l.id == id;
    order::lemma_first_where_is(
        facts.faces,
        face_fits,
        if id < facts.faces.len() {
            id
        } else {
            facts.faces.len() as int
        },
    );
    order::lemma_first_where_is(
        facts.loops,
        loop_fits,
        if id < facts.loops.len() {
            id
        } else {
            facts.loops.len() as int
        },
    );
}

/// The three state bits can be read back from the state of a face, whatever
/// its annotation.
pub proof fn law_face_bits_read_back<C>(
    facts: Facts<C>,
    selection: Option<Selection>,
    hover: Option<Selection>,
    i: int,
)
    requires
        0 <= i < facts.faces.len(),
    ensures
        ({
            let bits = facts.face_bits(selection, hover, i);
            let face = facts.faces[i];
            &&& (bits & FACE_STATE_SELECTED != 0) <==> facts.selected_face(selection) == Some(i)
            &&& (bits & FACE_STATE_HOVERED != 0) <==> facts.selected_face(hover) == Some(i)
            &&& (bits & FACE_STATE_HIDDEN != 0) <==> !(face.visible && facts.shell_visible(
                face.shell_id,
            ))
        }),
{
    let a = facts.faces[i].annotation;
    let h: u32 = if facts.faces[i].visible && facts.shell_visible(facts.faces[i].shell_id) {
        0
    } else {
        4
    };
    let s: u32 = if facts.selected_face(selection) == Some(i) {
        1
    } else {
        0
    };
    let o: u32 = if facts.selected_face(hover) == Some(i) {
        2
    } else {
        0
    };
    assert(((((a << 3u32) | h) | s) | o) & 1 == s && ((((a << 3u32) | h) | s) | o) & 2 == o && ((((a
        << 3u32) | h) | s) | o) & 4 == h) by (bit_vector)
        requires
            h == 0 || h == 4,
            s == 0 || s == 1,
            o == 0 || o == 2,
    ;
}

impl<C> Hierarchy<C> {
    /// The place of the first face with a number.
    pub fn find_face(&self, id: usize) -> (r: Option<usize>)
        ensures
            match r {
                Some(at) => at < self.faces.len() && at == self@.face_at(id as int),
                None => self@.face_at(id as int) == self@.faces.len(),
            },
    {
        let ghost fits = |f: records::FaceFacts<C>| f.id == id as int;
        let mut i: usize = 0;
        while i < self.faces.len()
            invariant
                i <= self.faces.len(),
                fits == (|f: records::FaceFacts<C>| f.id == id as int),
                forall|k: int| 0 <= k < i ==> !fits(#[trigger] self@.faces[k]),
            decreases self.faces.len() - i,
        {
            assert(self@.faces[i as int] == self.faces@[i as int]@);
            if self.faces[i].id == id {
                proof {
                    order::lemma_first_where_is(self@.faces, fits, i as int);
                }
                return Some(i);
            }
            i += 1;
        }
        proof {
            order::lemma_first_where_is(self@.faces, fits, self@.faces.len() as int);
        }
        None
    }

    /// The place of the first loop with a number.
    pub fn find_loop(&self, id: usize) -> (r: Option<usize>)
        ensures
            match r {
                Some(at) => at < self.loops.len() && at == self@.loop_at(id as int),
                None => self@.loop_at(id as int) == self@.loops.len(),
            },
    {
        let ghost fits = |l: records::LoopFacts| l.id == id as int;
        let mut i: usize = 0;
        while i < self.loops.len()
            invariant
                i <= self.loops.len(),
                fits == (|l: records::LoopFacts| l.id == id as int),
                forall|k: int| 0 <= k < i ==> !fits(#[trigger] self@.loops[k]),
            decreases self.loops.len() - i,
        {
            assert(self@.loops[i as int] == self.loops@[i as int]@);
            if self.loops[i].id == id {
                proof {
                    order::lemma_first_where_is(self@.loops, fits, i as int);
                }
                return Some(i);
            }
            i += 1;
        }
        proof {
            order::lemma_first_where_is(self@.loops, fits, self@.loops.len() as int);
        }
        None
    }

    /// The place of the first shell record with the number of a shell.
    pub fn find_shell(&self, id: usize) -> (r: Option<usize>)
        ensures
            match r {
                Some(at) => at < self.shells.len() && at == self@.shell_at(id),
                None => self@.shell_at(id) == self@.shells.len(),
            },
    {
        let ghost fits = |s: records::ShellFacts| s.id == id;
        let mut i: usize = 0;
        while i < self.shells.len()
            invariant
                i <= self.shells.len(),
                fits == (|s: records::ShellFacts| s.id == id),
                forall|k: int| 0 <= k < i ==> !fits(#[trigger] self@.shells[k]),
            decreases self.shells.len() - i,
        {
            assert(self@.shells[i as int] == self.shells@[i as int]@);
            if self.shells[i].id == id {
                proof {
                    order::lemma_first_where_is(self@.shells, fits, i as int);
                }
                return Some(i);
            }
            i += 1;
        }
        proof {
            order::lemma_first_where_is(self@.shells, fits, self@.shells.len() as int);
        }
        None
    }

    fn find_face_with_edge(&self, edge: usize) -> (r: Option<usize>)
        ensures
            match r {
                Some(at) => at < self.faces.len() && at == self@.face_with_edge(edge),
                None => self@.face_with_edge(edge) == self@.faces.len(),
            },
    {
        let ghost fits = |f: records::FaceFacts<C>| f.edge_ids.contains(edge);
        let mut i: usize = 0;
        while i < self.faces.len()
            invariant
                i <= self.faces.len(),
                fits == (|f: records::FaceFacts<C>| f.edge_ids.contains(edge)),
                forall|k: int| 0 <= k < i ==> !fits(#[trigger] self@.faces[k]),
            decreases self.faces.len() - i,
        {
            assert(self@.faces[i as int] == self.faces@[i as int]@);
            if list_contains(&self.faces[i].edge_ids, edge) {
                proof {
                    order::lemma_first_where_is(self@.faces, fits, i as int);
                }
                return Some(i);
            }
            i += 1;
        }
        proof {
            order::lemma_first_where_is(self@.faces, fits, self@.faces.len() as int);
        }
        None
    }

    /// The face that a selection stands for.
    pub fn selected_face_id(&self, selection: Option<Selection>) -> (r: Option<usize>)
        ensures
            match r {
                Some(id) => self@.selected_face(selection) == Some(id as int),
                None => self@.selected_face(selection) is None,
            },
    {
        match selection {
            Some(Selection::Face(id)) => Some(id),
            Some(Selection::Loop(id)) => match self.find_loop(id) {
                Some(at) => {
                    assert(self@.loops[at as int] == self.loops@[at as int]@);
                    Some(self.loops[at].face_id)
                },
                None => None,
            },
            Some(Selection::Edge(id)) => match self.find_face_with_edge(id) {
                Some(at) => {
                    assert(self@.faces[at as int] == self.faces@[at as int]@);
                    Some(self.faces[at].id)
                },
                None => None,
            },
            Some(Selection::Shell(_)) => None,
            None => None,
        }
    }

    /// The edges that a selection highlights.
    pub fn highlighted_edges(&self, selection: Option<Selection>) -> (r: Vec<usize>)
        ensures
            r@ == self@.highlighted_edges(selection),
    {
        match selection {
            Some(Selection::Edge(id)) => {
                let mut out: Vec<usize> = Vec::new();
                out.push(id);
                assert(out@ =~= seq![id]);
                out
            },
            Some(Selection::Loop(id)) => match self.find_loop(id) {
                Some(at) => {
                    assert(self@.loops[at as int] == self.loops@[at as int]@);
                    copy_list(&self.loops[at].edge_ids)
                },
                None => Vec::new(),
            },
            Some(Selection::Face(id)) => match self.find_face(id) {
                Some(at) => {
                    assert(self@.faces[at as int] == self.faces@[at as int]@);
                    copy_list(&self.faces[at].edge_ids)
                },
                None => Vec::new(),
            },
            Some(Selection::Shell(_)) => Vec::new(),
            None => Vec::new(),
        }
    }

    /// Whether a shell is visible; one without a record is.
    pub fn is_shell_visible(&self, id: usize) -> (r: bool)
        ensures
            r == self@.shell_visible(id),
    {
        match self.find_shell(id) {
            Some(at) => {
                assert(self@.shells[at as int] == self.shells@[at as int]@);
                self.shells[at].visible
            },
            None => true,
        }
    }

    /// Whether an edge is visible; one without a record is.
    pub fn is_edge_visible(&self, id: usize) -> (r: bool)
        ensures
            r == self@.edge_visible(id as int),
    {
        if id < self.edges.len() {
            assert(self@.edges[id as int] == self.edges@[id as int]@);
            self.edges[id].visible
        } else {
            true
        }
    }

    /// The state of all faces for the shader. The list is never empty.
    pub fn face_state_buffer(&self, selection: Option<Selection>, hover: Option<Selection>) -> (r:
        Vec<u32>)
        ensures
            r@ == self@.face_states(selection, hover),
            r@.len() > 0,
    {
        let mut out: Vec<u32> = Vec::new();
        if self.faces.len() == 0 {
            out.push(0);
            assert(out@ =~= seq![0u32]);
            return out;
        }
        let selected = self.selected_face_id(selection);
        let hovered = self.selected_face_id(hover);
        let ghost states = self@.face_states(selection, hover);
        let mut i: usize = 0;
        while i < self.faces.len()
            invariant
                i <= self.faces.len(),
                self.faces.len() > 0,
                match selected {
                    Some(id) => self@.selected_face(selection) == Some(id as int),
                    None => self@.selected_face(selection) is None,
                },
                match hovered {
                    Some(id) => self@.selected_face(hover) == Some(id as int),
                    None => self@.selected_face(hover) is None,
                },
                states == self@.face_states(selection, hover),
                out@ == states.take(i as int),
            decreases self.faces.len() - i,
        {
            assert(self@.faces[i as int] == self.faces@[i as int]@);
            let visible = self.faces[i].visible && self.is_shell_visible(self.faces[i].shell_id);
            let is_selected = match selected {
                Some(id) => id == i,
                None => false,
            };
            let is_hovered = match hovered {
                Some(id) => id == i,
                None => false,
            };
            let annotation: u32 = self.faces[i].annotation << FACE_STATE_ANNOTATION_SHIFT;
            let hidden_bit: u32 = if visible {
                0
            } else {
                FACE_STATE_HIDDEN
            };
            let selected_bit: u32 = if is_selected {
                FACE_STATE_SELECTED
            } else {
                0
            };
            let hovered_bit: u32 = if is_hovered {
                FACE_STATE_HOVERED
            } else {
                0
            };
            let bits: u32 = annotation | hidden_bit | selected_bit | hovered_bit;
            out.push(bits);
            assert(states[i as int] == bits);
            assert(out@ =~= states.take(i + 1));
            i += 1;
        }
        assert(states.take(states.len() as int) =~= states);
        out
    }
}

pub fn list_contains(list: &Vec<usize>, item: usize) -> (r: bool)
    ensures
        r == list@.contains(item),
{
    let mut i: usize = 0;
    while i < list.len()
        invariant
            i <= list.len(),
            forall|k: int| 0 <= k < i ==> list@[k] != item,
        decreases list.len() - i,
    {
        if list[i] == item {
            return true;
        }
        i += 1;
    }
    false
}

pub fn copy_list(list: &Vec<usize>) -> (r: Vec<usize>)
    ensures
        r@ == list@,
{
    let mut out: Vec<usize> = Vec::new();
    let mut i: usize = 0;
    while i < list.len()
        invariant
            i <= list.len(),
            out@ == list@.take(i as int),
        decreases list.len() - i,
    {
        out.push(list[i]);
        i += 1;
    }
    assert(list@.take(list.len() as int) =~= list@);
    out
}

/// An edge curve to draw: the place of its shell, its place among the edges
/// of the shell, and whether it is highlighted.
#[derive(Clone, Copy, Debug, PartialEq, Eq, Structural)]
pub struct DrawnEdge {
    pub shell: usize,
    pub edge: usize,
    pub highlighted: bool,
}

/// What the drawing of edges reads of a shell: its number and the numbers of
/// its edges.
pub ghost struct EdgeNumbers {
    pub id: usize,
    pub edges: Seq<usize>,
}

pub open spec fn edge_numbers<M, P, D, A>(shell: &StepShell<M, P, D, A>) -> EdgeNumbers {
    EdgeNumbers {
        id: shell.id,
        edges: shell.curve_edges@.map_values(|e: model::StepEdge<P>| e.id),
    }
}

/// How many edges the first shells have.
pub open spec fn edge_offset(shells: Seq<EdgeNumbers>) -> int
    decreases shells.len(),
{
    if shells.len() == 0 {
        0
    } else {
        edge_offset(shells.drop_last()) + shells.last().edges.len()
    }
}

/// The edges to draw among the first edges of a visible shell.
pub open spec fn drawn_of_shell<C>(
    facts: Facts<C>,
    highlighted: Seq<usize>,
    edges: Seq<usize>,
    shell: int,
    offset: int,
) -> Seq<DrawnEdge>
    decreases edges.len(),
{
    if edges.len() == 0 {
        Seq::empty()
    } else {
        let before = drawn_of_shell(facts, highlighted, edges.drop_last(), shell, offset);
        let id = offset + edges.last();
        if facts.edge_visible(id) {
            before.push(
                DrawnEdge {
                    shell: shell as usize,
                    edge: (edges.len() - 1) as usize,
                    highlighted: highlighted.contains(id as usize),
                },
            )
        } else {
            before
        }
    }
}

/// The edges to draw of the first shells: those that are visible, of the
/// shells that are visible.
pub open spec fn drawn_edges<C>(
    facts: Facts<C>,
    highlighted: Seq<usize>,
    shells: Seq<EdgeNumbers>,
) -> Seq<DrawnEdge>
    decreases shells.len(),
{
    if shells.len() == 0 {
        Seq::empty()
    } else {
        let init = shells.drop_last();
        let before = drawn_edges(facts, highlighted, init);
        if facts.shell_visible(shells.last().id) {
            before + drawn_of_shell(
                facts,
                highlighted,
                shells.last().edges,
                init.len() as int,
                edge_offset(init),
            )
        } else {
            before
        }
    }
}

pub open spec fn all_edge_numbers<M, P, D, A>(shells: Seq<StepShell<M, P, D, A>>) -> Seq<
    EdgeNumbers,
> {
    shells.map_values(|s: StepShell<M, P, D, A>| edge_numbers(&s))
}

/// The numbers of all edges, counted over the shells, are machine words.
pub open spec fn countable(shells: Seq<EdgeNumbers>) -> bool {
    &&& edge_offset(shells) <= usize::MAX
    &&& forall|s: int, e: int|
        0 <= s < shells.len() && 0 <= e < shells[s].edges.len() ==> edge_offset(shells.take(s)) + (
        #[trigger] shells[s].edges[e]) <= usize::MAX
}

proof fn lemma_edge_offset_grows(shells: Seq<EdgeNumbers>, n: int)
    requires
        0 <= n <= shells.len(),
    ensures
        0 <= edge_offset(shells.take(n)) <= edge_offset(shells),
    decreases shells.len(),
{
    if n < shells.len() {
        lemma_edge_offset_grows(shells.drop_last(), n);
        assert(shells.drop_last().take(n) =~= shells.take(n));
    } else {
        assert(shells.take(n) =~= shells);
        if n > 0 {
            lemma_edge_offset_grows(shells.drop_last(), n - 1);
            assert(shells.drop_last().take(n - 1) =~= shells.drop_last());
        }
    }
}

impl<C> Hierarchy<C> {
    /// The edge curves to draw, shell by shell. Edges are numbered over all
    /// shells, also over those that are hidden.
    pub fn edges_to_draw<M, P, D, A>(
        &self,
        selection: Option<Selection>,
        shells: &Vec<StepShell<M, P, D, A>>,
    ) -> (r: Vec<DrawnEdge>)
        requires
            countable(all_edge_numbers(shells@)),
        ensures
            r@ == drawn_edges(
                self@,
                self@.highlighted_edges(selection),
                all_edge_numbers(shells@),
            ),
    {
        let marked = self.highlighted_edges(selection);
        let ghost numbers = all_edge_numbers(shells@);
        let mut out: Vec<DrawnEdge> = Vec::new();
        let mut offset: usize = 0;
        let mut s: usize = 0;
        while s < shells.len()
            invariant
                s <= shells.len(),
                numbers == all_edge_numbers(shells@),
                countable(numbers),
                marked@ == self@.highlighted_edges(selection),
                offset == edge_offset(numbers.take(s as int)),
                out@ == drawn_edges(self@, marked@, numbers.take(s as int)),
            decreases shells.len() - s,
        {
            let shell = &shells[s];
            let ghost longer = numbers.take(s + 1);
            let ghost before = out@;
            proof {
                assert(longer.drop_last() =~= numbers.take(s as int));
                assert(longer.last() == edge_numbers(&shells@[s as int]));
                lemma_edge_offset_grows(numbers, s + 1);
            }
            let ghost edges = numbers[s as int].edges;
            if self.is_shell_visible(shell.id) {
                let mut e: usize = 0;
                assert(before + drawn_of_shell(
                    self@,
                    marked@,
                    edges.take(0),
                    s as int,
                    offset as int,
                ) =~= before);
                while e < shell.curve_edges.len()
                    invariant
                        s < shells.len(),
                        e <= shell.curve_edges.len(),
                        numbers == all_edge_numbers(shells@),
                        countable(numbers),
                        offset == edge_offset(numbers.take(s as int)),
                        *shell == shells@[s as int],
                        edges == numbers[s as int].edges,
                        edges.len() == shell.curve_edges@.len(),
                        out@ == before + drawn_of_shell(
                            self@,
                            marked@,
                            edges.take(e as int),
                            s as int,
                            offset as int,
                        ),
                    decreases shell.curve_edges.len() - e,
                {
                    assert(edges[e as int] == shell.curve_edges@[e as int].id);
                    assert(numbers[s as int].edges[e as int] == edges[e as int]);
                    let id: usize = offset + shell.curve_edges[e].id;
                    let ghost now = edges.take(e + 1);
                    assert(now.drop_last() =~= edges.take(e as int));
                    let ghost so_far = out@;
                    if self.is_edge_visible(id) {
                        out.push(
                            DrawnEdge { shell: s, edge: e, highlighted: list_contains(&marked, id) },
                        );
                    }
                    assert(out@ =~= before + drawn_of_shell(
                        self@,
                        marked@,
                        now,
                        s as int,
                        offset as int,
                    ));
                    e += 1;
                }
                assert(edges.take(edges.len() as int) =~= edges);
            }
            offset = offset + shell.curve_edges.len();
            s += 1;
        }
        assert(numbers.take(numbers.len() as int) =~= numbers);
        out
    }
}

/// A corner of a box: for each axis whether it lies at the upper end.
#[derive(Clone, Copy, Debug, PartialEq, Eq, Structural)]
pub struct BoxCorner {
    pub x: bool,
    pub y: bool,
    pub z: bool,
}

pub open spec fn corner(x: bool, y: bool, z: bool) -> BoxCorner {
    BoxCorner { x, y, z }
}

/// The edges of a box: round the bottom, round the top, then upwards.
pub open spec fn box_edge_list() -> Seq<(BoxCorner, BoxCorner)> {
    seq![
        (corner(false, false, false), corner(true, false, false)),
        (corner(true, false, false), corner(true, false, true)),
        (corner(true, false, true), corner(false, false, true)),
        (corner(false, false, true), corner(false, false, false)),
        (corner(false, true, false), corner(true, true, false)),
        (corner(true, true, false), corner(true, true, true)),
        (corner(true, true, true), corner(false, true, true)),
        (corner(false, true, true), corner(false, true, false)),
        (corner(false, false, false), corner(false, true, false)),
        (corner(true, false, false), corner(true, true, false)),
        (corner(true, false, true), corner(true, true, true)),
        (corner(false, false, true), corner(false, true, true)),
    ]
}

/// Whether two corners differ along one axis only.
pub open spec fn neighbours(a: BoxCorner, b: BoxCorner) -> bool {
    ||| a.x != b.x && a.y == b.y && a.z == b.z
    ||| a.x == b.x && a.y != b.y && a.z == b.z
    ||| a.x == b.x && a.y == b.y && a.z != b.z
}

/// The list holds an edge between two corners if and only if they differ
/// along one axis only, and it holds none twice.
pub proof fn law_box_edges_complete(a: BoxCorner, b: BoxCorner)
    ensures
        box_edge_list().len() == 12,
        box_edge_list().no_duplicates(),
        neighbours(a, b) <==> box_edge_list().contains((a, b)) || box_edge_list().contains((b, a)),
{
    let list = box_edge_list();
    if neighbours(a, b) {
        assert(list[0] == (corner(false, false, false), corner(true, false, false)));
        assert(list[1] == (corner(true, false, false), corner(true, false, true)));
        assert(list[2] == (corner(true, false, true), corner(false, false, true)));
        assert(list[3] == (corner(false, false, true), corner(false, false, false)));
        assert(list[4] == (corner(false, true, false), corner(true, true, false)));
        assert(list[5] == (corner(true, true, false), corner(true, true, true)));
        assert(list[6] == (corner(true, true, true), corner(false, true, true)));
        assert(list[7] == (corner(false, true, true), corner(false, true, false)));
        assert(list[8] == (corner(false, false, false), corner(false, true, false)));
        assert(list[9] == (corner(true, false, false), corner(true, true, false)));
        assert(list[10] == (corner(true, false, true), corner(true, true, true)));
        assert(list[11] == (corner(false, false, true), corner(false, true, true)));
    }
}

fn at(x: bool, y: bool, z: bool) -> (r: BoxCorner)
    ensures
        r == corner(x, y, z),
{
    BoxCorner { x, y, z }
}

/// The twelve edges of a box, as pairs of corners.
pub fn bounding_box_edges() -> (r: Vec<(BoxCorner, BoxCorner)>)
    ensures
        r@ == box_edge_list(),
{
    let mut out: Vec<(BoxCorner, BoxCorner)> = Vec::new();
    out.push((at(false, false, false), at(true, false, false)));
    out.push((at(true, false, false), at(true, false, true)));
    out.push((at(true, false, true), at(false, false, true)));
    out.push((at(false, false, true), at(false, false, false)));
    out.push((at(false, true, false), at(true, true, false)));
    out.push((at(true, true, false), at(true, true, true)));
    out.push((at(true, true, true), at(false, true, true)));
    out.push((at(false, true, true), at(false, true, false)));
    out.push((at(false, false, false), at(false, true, false)));
    out.push((at(true, false, false), at(true, true, false)));
    out.push((at(true, false, true), at(true, true, true)));
    out.push((at(false, false, true), at(false, true, true)));
    assert(out@ =~= box_edge_list());
    out
}

} // verus!
