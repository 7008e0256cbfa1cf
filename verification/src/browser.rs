//! The browser of STEP files: its directory tree, its previews and the slots
//! that render them.
//!
//! `Q` is the path of a file or directory and `D` what a preview shows.

use vstd::prelude::*;
use vstd::slice::slice_subrange;

use crate::parameter::same_text;

verus! {

/// A directory of the tree.
pub struct DirectoryEntry<Q> {
    pub path: Q,
    pub name: String,
    pub expanded: bool,
    /// Its directories, once they are known.
    pub children: Option<Vec<DirectoryEntry<Q>>>,
}

/// A directory of the tree, with its name as a sequence.
pub ghost struct EntryModel<Q> {
    pub path: Q,
    pub name: Seq<char>,
    pub expanded: bool,
    pub children: Option<Seq<EntryModel<Q>>>,
}

pub open spec fn entry_model<Q>(e: DirectoryEntry<Q>) -> EntryModel<Q>
    decreases e,
{
    EntryModel {
        path: e.path,
        name: e.name@,
        expanded: e.expanded,
        children: match e.children {
            Some(c) => Some(
                Seq::new(
                    c@.len(),
                    |i: int|
                        if 0 <= i < c@.len() {
                            entry_model(c@[i])
                        } else {
                            arbitrary()
                        },
                ),
            ),
            None => None,
        },
    }
}

pub open spec fn tree_model<Q>(tree: Seq<DirectoryEntry<Q>>) -> Seq<EntryModel<Q>> {
    Seq::new(tree.len(), |i: int| entry_model(tree[i]))
}

proof fn lemma_children<Q>(e: DirectoryEntry<Q>)
    ensures
        entry_model(e).children == (match e.children {
            Some(c) => Some(tree_model(c@)),
            None => None,
        }),
{
    match e.children {
        Some(c) => {
            assert(entry_model(e).children->0 =~= tree_model(c@));
        },
        None => {},
    }
}

/// The tree with one directory folded or unfolded. A path that leads nowhere
/// changes nothing.
pub open spec fn with_expanded<Q>(
    tree: Seq<EntryModel<Q>>,
    path: Seq<usize>,
    expanded: bool,
) -> Seq<EntryModel<Q>>
    decreases path.len(),
{
    if path.len() == 0 || path[0] >= tree.len() {
        tree
    } else {
        let e = tree[path[0] as int];
        if path.len() == 1 {
            tree.update(path[0] as int, EntryModel { expanded, ..e })
        } else {
            match e.children {
                Some(c) => tree.update(
                    path[0] as int,
                    EntryModel {
                        children: Some(with_expanded(c, path.drop_first(), expanded)),
                        ..e
                    },
                ),
                None => tree,
            }
        }
    }
}

/// Folds or unfolds the directory that a path of places leads to.
pub fn set_expanded<Q>(tree: &mut Vec<DirectoryEntry<Q>>, path: &[usize], expanded: bool)
    ensures
        tree_model(final(tree)@) == with_expanded(tree_model(old(tree)@), path@, expanded),
    decreases path@.len(),
{
    let ghost before = tree@;
    if path.len() == 0 || path[0] >= tree.len() {
        return;
    }
    let at: usize = path[0];
    if path.len() == 1 {
        tree[at].expanded = expanded;
        assert(tree_model(tree@) =~= with_expanded(tree_model(before), path@, expanded));
    } else {
        let rest = slice_subrange(path, 1, path.len());
        assert(rest@ =~= path@.drop_first());
        proof {
            lemma_children(tree@[at as int]);
        }
        match &mut tree[at].children {
            Some(children) => {
                set_expanded(children, rest, expanded);
            },
            None => {},
        }
        proof {
            lemma_children(tree@[at as int]);
        }
        assert(tree_model(tree@) =~= with_expanded(tree_model(before), path@, expanded));
    }
}

/// The tree with the directories of one directory made known, if they were
/// not. A path that leads nowhere changes nothing.
pub open spec fn with_children<Q>(
    tree: Seq<EntryModel<Q>>,
    path: Seq<usize>,
    children: Seq<EntryModel<Q>>,
) -> Seq<EntryModel<Q>>
    decreases path.len(),
{
    if path.len() == 0 || path[0] >= tree.len() {
        tree
    } else {
        let e = tree[path[0] as int];
        match e.children {
            Some(c) => if path.len() == 1 {
                tree
            } else {
                tree.update(
                    path[0] as int,
                    EntryModel {
                        children: Some(with_children(c, path.drop_first(), children)),
                        ..e
                    },
                )
            },
            None => if path.len() == 1 {
                tree.update(path[0] as int, EntryModel { children: Some(children), ..e })
            } else {
                tree
            },
        }
    }
}

/// Makes the directories of the directory known that a path of places leads
/// to, if they were not.
pub fn set_children<Q>(
    tree: &mut Vec<DirectoryEntry<Q>>,
    path: &[usize],
    children: Vec<DirectoryEntry<Q>>,
)
    ensures
        tree_model(final(tree)@) == with_children(
            tree_model(old(tree)@),
            path@,
            tree_model(children@),
        ),
    decreases path@.len(),
{
    let ghost before = tree@;
    let ghost given = tree_model(children@);
    if path.len() == 0 || path[0] >= tree.len() {
        return;
    }
    let at: usize = path[0];
    proof {
        lemma_children(tree@[at as int]);
    }
    if path.len() == 1 {
        if tree[at].children.is_none() {
            tree[at].children = Some(children);
        }
    } else {
        let rest = slice_subrange(path, 1, path.len());
        assert(rest@ =~= path@.drop_first());
        match &mut tree[at].children {
            Some(below) => {
                set_children(below, rest, children);
            },
            None => {},
        }
    }
    proof {
        lemma_children(tree@[at as int]);
    }
    assert(tree_model(tree@) =~= with_children(tree_model(before), path@, given));
}

/// How far the tree could be unfolded.
pub enum ExpandOutcome {
    Found,
    /// No directory of the tree has the name.
    Missing,
    /// The directories at this path of places are not known yet.
    NeedsChildren(Vec<usize>),
}

pub ghost enum ExpandModel {
    Found,
    Missing,
    NeedsChildren(Seq<usize>),
}

impl View for ExpandOutcome {
    type V = ExpandModel;

    open spec fn view(&self) -> ExpandModel {
        match self {
            ExpandOutcome::Found => ExpandModel::Found,
            ExpandOutcome::Missing => ExpandModel::Missing,
            ExpandOutcome::NeedsChildren(path) => ExpandModel::NeedsChildren(path@),
        }
    }
}

/// The place of the first directory with a name, or the number of directories.
pub open spec fn place_of<Q>(tree: Seq<EntryModel<Q>>, name: Seq<char>) -> int
    decreases tree.len(),
{
    if tree.len() == 0 || tree[0].name == name {
        0
    } else {
        1 + place_of(tree.drop_first(), name)
    }
}

proof fn lemma_place_of<Q>(tree: Seq<EntryModel<Q>>, name: Seq<char>, at: int)
    requires
        0 <= at <= tree.len(),
        forall|i: int| 0 <= i < at ==> (#[trigger] tree[i]).name != name,
        at < tree.len() ==> tree[at].name == name,
    ensures
        place_of(tree, name) == at,
    decreases tree.len(),
{
    if tree.len() > 0 && tree[0].name != name {
        let rest = tree.drop_first();
        assert forall|i: int| 0 <= i < at - 1 implies (#[trigger] rest[i]).name != name by {
            assert(rest[i] == tree[i + 1]);
        }
        lemma_place_of(rest, name, at - 1);
    }
}

pub proof fn lemma_place_fits<Q>(tree: Seq<EntryModel<Q>>, name: Seq<char>)
    ensures
        0 <= place_of(tree, name) <= tree.len(),
        place_of(tree, name) < tree.len() ==> tree[place_of(tree, name)].name == name,
        forall|i: int| 0 <= i < place_of(tree, name) ==> (#[trigger] tree[i]).name != name,
    decreases tree.len(),
{
    if tree.len() > 0 && tree[0].name != name {
        let rest = tree.drop_first();
        lemma_place_fits(rest, name);
        assert forall|i: int| 0 <= i < place_of(tree, name) implies (#[trigger] tree[i]).name
            != name by {
            if i > 0 {
                assert(rest[i - 1] == tree[i]);
            }
        }
    }
}

/// The tree with the directories on the way unfolded, and how far the way
/// goes.
pub open spec fn expand<Q>(tree: Seq<EntryModel<Q>>, names: Seq<Seq<char>>) -> (
    Seq<EntryModel<Q>>,
    ExpandModel,
)
    decreases names.len(),
{
    if names.len() == 0 {
        (tree, ExpandModel::Found)
    } else {
        let at = place_of(tree, names[0]);
        if at >= tree.len() {
            (tree, ExpandModel::Missing)
        } else {
            let e = tree[at];
            match e.children {
                None => (
                    tree.update(at, EntryModel { expanded: true, ..e }),
                    ExpandModel::NeedsChildren(seq![at as usize]),
                ),
                Some(c) => {
                    let (below, outcome) = expand(c, names.drop_first());
                    (
                        tree.update(
                            at,
                            EntryModel { expanded: true, children: Some(below), ..e },
                        ),
                        match outcome {
                            ExpandModel::NeedsChildren(path) => ExpandModel::NeedsChildren(
                                seq![at as usize] + path,
                            ),
                            other => other,
                        },
                    )
                },
            }
        }
    }
}

pub open spec fn name_views(names: Seq<String>) -> Seq<Seq<char>> {
    names.map_values(|n: String| n@)
}

/// Unfolds the directories on the way that the names give, as far as they are
/// known. Where the directories of one are not, they are to be made known and
/// the way to be gone again.
pub fn expand_tree_to_path<Q>(tree: &mut Vec<DirectoryEntry<Q>>, names: &[String]) -> (r:
    ExpandOutcome)
    ensures
        (tree_model(final(tree)@), r@) == expand(tree_model(old(tree)@), name_views(names@)),
    decreases names@.len(),
{
    let ghost before = tree@;
    let ghost model = tree_model(before);
    if names.len() == 0 {
        return ExpandOutcome::Found;
    }
    let mut at: usize = 0;
    while at < tree.len() && !same_text(tree[at].name.as_str(), names[0].as_str())
        invariant
            tree@ == before,
            model == tree_model(before),
            names@.len() > 0,
            at <= tree.len(),
            forall|i: int| 0 <= i < at ==> (#[trigger] model[i]).name != names@[0]@,
        decreases tree.len() - at,
    {
        at += 1;
    }
    proof {
        lemma_place_of(model, names@[0]@, at as int);
        assert(name_views(names@)[0] == names@[0]@);
    }
    if at >= tree.len() {
        return ExpandOutcome::Missing;
    }
    proof {
        lemma_children(tree@[at as int]);
    }
    tree[at].expanded = true;
    let rest = slice_subrange(names, 1, names.len());
    assert(name_views(rest@) =~= name_views(names@).drop_first());
    let outcome = match &mut tree[at].children {
        Some(children) => expand_tree_to_path(children, rest),
        None => {
            let mut path: Vec<usize> = Vec::new();
            path.push(at);
            ExpandOutcome::NeedsChildren(path)
        },
    };
    proof {
        lemma_children(tree@[at as int]);
        assert(tree_model(tree@) =~= expand(model, name_views(names@)).0);
    }
    match outcome {
        ExpandOutcome::NeedsChildren(path) => {
            if tree[at].children.is_some() {
                let mut longer: Vec<usize> = Vec::new();
                longer.push(at);
                let mut i: usize = 0;
                while i < path.len()
                    invariant
                        i <= path.len(),
                        longer@ == seq![at] + path@.take(i as int),
                    decreases path.len() - i,
                {
                    longer.push(path[i]);
                    assert(longer@ =~= seq![at] + path@.take(i + 1));
                    i += 1;
                }
                assert(path@.take(path.len() as int) =~= path@);
                ExpandOutcome::NeedsChildren(longer)
            } else {
                assert(path@ =~= seq![at]);
                ExpandOutcome::NeedsChildren(path)
            }
        },
        ExpandOutcome::Found => ExpandOutcome::Found,
        ExpandOutcome::Missing => ExpandOutcome::Missing,
    }
}

/// The places on the way can be told by numbers of a machine.
spec fn is_indexable<Q>(tree: Seq<EntryModel<Q>>, names: Seq<Seq<char>>) -> bool
    decreases names.len(),
{
    tree.len() <= usize::MAX && (names.len() > 0 && place_of(tree, names[0]) < tree.len() ==> {
        match tree[place_of(tree, names[0])].children {
            Some(c) => is_indexable(c, names.drop_first()),
            None => true,
        }
    })
}

proof fn lemma_indexable<Q>(tree: Vec<DirectoryEntry<Q>>, names: Seq<Seq<char>>)
    ensures
        is_indexable(tree_model(tree@), names),
    decreases names.len(),
{
    let model = tree_model(tree@);
    assert(tree@.len() == tree.len());
    if names.len() > 0 {
        lemma_place_fits(model, names[0]);
        let at = place_of(model, names[0]);
        if at < model.len() {
            lemma_children(tree@[at]);
            match tree@[at].children {
                Some(c) => {
                    lemma_indexable(c, names.drop_first());
                },
                None => {},
            }
        }
    }
}

proof fn lemma_goes_further<Q>(
    tree: Seq<EntryModel<Q>>,
    names: Seq<Seq<char>>,
    children: Seq<EntryModel<Q>>,
)
    requires
        is_indexable(tree, names),
    ensures
        expand(tree, names).1 matches ExpandModel::NeedsChildren(path) ==> {
            &&& 0 < path.len() <= names.len()
            &&& match expand(with_children(expand(tree, names).0, path, children), names).1 {
                ExpandModel::NeedsChildren(longer) => path.len() < longer.len()
                    && path.is_prefix_of(longer),
                _ => true,
            }
        },
    decreases names.len(),
{
    if names.len() > 0 {
        let rest = names.drop_first();
        let at = place_of(tree, names[0]);
        lemma_place_fits(tree, names[0]);
        if at < tree.len() {
            let e = tree[at];
            let first = at as usize;
            let (after, outcome) = expand(tree, names);
            match e.children {
                None => {
                    let path = seq![first];
                    let again = with_children(after, path, children);
                    assert(again =~= tree.update(
                        at,
                        EntryModel { expanded: true, children: Some(children), ..e },
                    ));
                    lemma_place_of(again, names[0], at);
                    lemma_needs_some(children, rest);
                    match expand(children, rest).1 {
                        ExpandModel::NeedsChildren(p) => {
                            let longer = seq![first] + p;
                            assert(longer.take(1) =~= path);
                        },
                        _ => {},
                    }
                },
                Some(c) => {
                    lemma_goes_further(c, rest, children);
                    match expand(c, rest).1 {
                        ExpandModel::NeedsChildren(p) => {
                            let path = seq![first] + p;
                            let below = expand(c, rest).0;
                            let again = with_children(after, path, children);
                            assert(path.drop_first() =~= p);
                            assert(again =~= tree.update(
                                at,
                                EntryModel {
                                    expanded: true,
                                    children: Some(with_children(below, p, children)),
                                    ..e
                                },
                            ));
                            lemma_place_of(again, names[0], at);
                            match expand(with_children(below, p, children), rest).1 {
                                ExpandModel::NeedsChildren(q) => {
                                    let longer = seq![first] + q;
                                    assert(p =~= q.take(p.len() as int));
                                    assert(longer.take(path.len() as int) =~= path);
                                },
                                _ => {},
                            }
                        },
                        _ => {},
                    }
                },
            }
        }
    }
}

proof fn lemma_needs_some<Q>(tree: Seq<EntryModel<Q>>, names: Seq<Seq<char>>)
    ensures
        expand(tree, names).1 matches ExpandModel::NeedsChildren(path) ==> path.len() > 0,
    decreases names.len(),
{
    if names.len() > 0 && place_of(tree, names[0]) < tree.len() {
        lemma_place_fits(tree, names[0]);
        match tree[place_of(tree, names[0])].children {
            Some(c) => {
                lemma_needs_some(c, names.drop_first());
            },
            None => {},
        }
    }
}

/// Once the directories that were asked for are made known, the way is never
/// held up there again: it is found, or a name is missing, or it goes on to a
/// directory below. A way asks for no more directories than it has names.
pub proof fn law_expand_goes_further<Q>(
    tree: Vec<DirectoryEntry<Q>>,
    names: Seq<Seq<char>>,
    children: Seq<EntryModel<Q>>,
)
    ensures
        ({
            let (after, outcome) = expand(tree_model(tree@), names);
            outcome matches ExpandModel::NeedsChildren(path) ==> {
                &&& path.len() <= names.len()
                &&& match expand(with_children(after, path, children), names).1 {
                    ExpandModel::NeedsChildren(longer) => path.len() < longer.len()
                        && path.is_prefix_of(longer),
                    _ => true,
                }
            }
        }),
{
    lemma_indexable(tree, names);
    lemma_goes_further(tree_model(tree@), names, children);
}

/// Unfolding a tree along a way a second time changes nothing more.
pub proof fn law_expand_again<Q>(tree: Seq<EntryModel<Q>>, names: Seq<Seq<char>>)
    ensures
        expand(expand(tree, names).0, names) == expand(tree, names),
    decreases names.len(),
{
    if names.len() > 0 {
        let at = place_of(tree, names[0]);
        lemma_place_fits(tree, names[0]);
        let after = expand(tree, names).0;
        if at < tree.len() {
            let e = tree[at];
            lemma_place_of(after, names[0], at);
            match e.children {
                None => {},
                Some(c) => {
                    law_expand_again(c, names.drop_first());
                },
            }
            assert(expand(after, names).0 =~= after);
        }
    }
}

} // verus!
