//! New colours for what is shown, without a new mesh.

use vstd::prelude::*;

use crate::display;
use crate::display::{face_display_color, face_or_shell_color, FaceColor};
use crate::records::Hierarchy;

verus! {

/// The colours that a file gives to a shell and its faces.
pub struct ShellColors<C> {
    pub shell_id: usize,
    pub shell: Option<C>,
    pub faces: Vec<Option<C>>,
}

/// The new colours of a shell.
pub struct ShellRecolor<C> {
    /// The place of the record of the shell.
    pub record: usize,
    /// For each face its number and its colour.
    pub faces: Vec<(usize, FaceColor<C>)>,
}

/// The colours of the faces of a shell, as far as there are numbers for them.
pub open spec fn colored_faces<C>(
    ids: Seq<usize>,
    colors: ShellColors<C>,
    random: bool,
    step: bool,
) -> Seq<(usize, FaceColor<C>)> {
    let count = if ids.len() <= colors.faces@.len() {
        ids.len()
    } else {
        colors.faces@.len()
    };
    Seq::new(
        count,
        |i: int|
            (
                ids[i],
                display::shown_color(
                    ids[i],
                    if colors.faces@[i] is Some {
                        colors.faces@[i]
                    } else {
                        colors.shell
                    },
                    random,
                    step,
                ),
            ),
    )
}

/// The colours of the faces of a shell: each has its own or that of the shell,
/// by the switches.
pub fn recolored_faces<C: Copy>(
    ids: &[usize],
    colors: &ShellColors<C>,
    random: bool,
    step: bool,
) -> (r: Vec<(usize, FaceColor<C>)>)
    ensures
        r@ == colored_faces(ids@, *colors, random, step),
{
    let mut out: Vec<(usize, FaceColor<C>)> = Vec::new();
    let mut i: usize = 0;
    while i < ids.len() && i < colors.faces.len()
        invariant
            i <= ids.len(),
            i <= colors.faces.len(),
            out@ == colored_faces(ids@, *colors, random, step).take(i as int),
        decreases ids.len() - i,
    {
        let color = face_or_shell_color(colors.faces[i], colors.shell);
        out.push((ids[i], face_display_color(ids[i], color, random, step)));
        assert(out@ =~= colored_faces(ids@, *colors, random, step).take(i + 1));
        i += 1;
    }
    assert(out@ =~= colored_faces(ids@, *colors, random, step));
    out
}

/// The new colours of all shells that have a record, in the order in which the
/// shells are given.
pub open spec fn recolors<C, U>(
    h: Hierarchy<U>,
    shells: Seq<ShellColors<C>>,
    random: bool,
    step: bool,
) -> Seq<(int, Seq<(usize, FaceColor<C>)>)>
    decreases shells.len(),
{
    if shells.len() == 0 {
        Seq::empty()
    } else {
        let before = recolors(h, shells.drop_last(), random, step);
        let at = h@.shell_at(shells.last().shell_id);
        if at < h.shells@.len() {
            before.push((at, colored_faces(h.shells@[at].face_ids@, shells.last(), random, step)))
        } else {
            before
        }
    }
}

pub open spec fn recolor_views<C>(list: Seq<ShellRecolor<C>>) -> Seq<
    (int, Seq<(usize, FaceColor<C>)>),
> {
    list.map_values(|r: ShellRecolor<C>| (r.record as int, r.faces@))
}

impl<U> Hierarchy<U> {
    /// The new colours of all shells that have a record.
    pub fn rebuild_colors<C: Copy>(&self, shells: &[ShellColors<C>], random: bool, step: bool) -> (r:
        Vec<ShellRecolor<C>>)
        ensures
            recolor_views(r@) == recolors(*self, shells@, random, step),
    {
        let mut out: Vec<ShellRecolor<C>> = Vec::new();
        assert(shells@.take(0) =~= Seq::empty());
        assert(recolor_views(out@) =~= Seq::empty());
        let mut i: usize = 0;
        while i < shells.len()
            invariant
                i <= shells.len(),
                recolor_views(out@) == recolors(*self, shells@.take(i as int), random, step),
            decreases shells.len() - i,
        {
            proof {
                assert(shells@.take(i + 1).drop_last() =~= shells@.take(i as int));
            }
            if let Some(at) = self.find_shell(shells[i].shell_id) {
                let faces = recolored_faces(
                    self.shells[at].face_ids.as_slice(),
                    &shells[i],
                    random,
                    step,
                );
                let ghost before = out@;
                out.push(ShellRecolor { record: at, faces });
                assert(recolor_views(out@) =~= recolor_views(before).push((at as int, faces@)));
            }
            i += 1;
        }
        assert(shells@.take(shells.len() as int) =~= shells@);
        out
    }

    /// Shows a face in the panel in a new colour, if there is one with that
    /// number.
    pub fn set_face_color(&mut self, id: usize, color: U)
        ensures
            final(self).shells == old(self).shells,
            final(self).edges == old(self).edges,
            final(self).loops == old(self).loops,
            final(self).faces@ == if old(self)@.face_at(id as int) < old(self).faces@.len() {
                let at = old(self)@.face_at(id as int);
                old(self).faces@.update(
                    at,
                    (crate::records::FaceRecord { ui_color: color, ..old(self).faces@[at] }),
                )
            } else {
                old(self).faces@
            },
    {
        if let Some(at) = self.find_face(id) {
            self.faces[at].ui_color = color;
        }
    }
}

} // verus!
