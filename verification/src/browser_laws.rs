//! What becomes of each directory of the tree when one is switched, made known
//! or looked for.

use vstd::prelude::*;

use crate::browser;
use crate::browser::{EntryModel, ExpandModel};

verus! {

/// The directory that a path of places leads to.
pub open spec fn node<Q>(tree: Seq<EntryModel<Q>>, path: Seq<usize>) -> Option<EntryModel<Q>>
    decreases path.len(),
{
    if path.len() == 0 || path[0] >= tree.len() {
        None
    } else if path.len() == 1 {
        Some(tree[path[0] as int])
    } else {
        match tree[path[0] as int].children {
            Some(c) => node(c, path.drop_first()),
            None => None,
        }
    }
}

/// Both are the same directory, folded or not.
pub open spec fn is_same<Q>(a: EntryModel<Q>, b: EntryModel<Q>) -> bool {
    a.path == b.path && a.name == b.name
}

proof fn lemma_paths_differ(a: Seq<usize>, b: Seq<usize>)
    requires
        a.len() > 0,
        b.len() > 0,
    ensures
        a == b <==> a[0] == b[0] && a.drop_first() == b.drop_first(),
{
    if a[0] == b[0] && a.drop_first() == b.drop_first() {
        assert(a.len() == a.drop_first().len() + 1);
        assert(b.len() == b.drop_first().len() + 1);
        assert forall|i: int| 0 <= i < a.len() implies a[i] == b[i] by {
            if i > 0 {
                assert(a[i] == a.drop_first()[i - 1]);
                assert(b[i] == b.drop_first()[i - 1]);
            }
        }
        assert(a =~= b);
    }
}

/// Folding or unfolding a directory changes that of the one that the path leads
/// to, and of no other.
pub proof fn law_one_directory_is_switched<Q>(
    tree: Seq<EntryModel<Q>>,
    path: Seq<usize>,
    expanded: bool,
    other: Seq<usize>,
)
    ensures
        match (node(tree, other), node(browser::with_expanded(tree, path, expanded), other)) {
            (Some(e), Some(f)) => {
                &&& is_same(e, f)
                &&& f.expanded == if other == path {
                    expanded
                } else {
                    e.expanded
                }
                &&& e.children is Some <==> f.children is Some
            },
            (None, None) => true,
            _ => false,
        },
    decreases other.len(),
{
    let after = browser::with_expanded(tree, path, expanded);
    if other.len() > 0 && path.len() > 0 && other[0] < tree.len() && path[0] == other[0] {
        lemma_paths_differ(other, path);
        match tree[path[0] as int].children {
            Some(c) => {
                law_one_directory_is_switched(c, path.drop_first(), expanded, other.drop_first());
            },
            None => {},
        }
        if path.len() == 1 && other.len() > 1 {
            assert(after[path[0] as int].children == tree[path[0] as int].children);
            match tree[path[0] as int].children {
                Some(c) => {
                    assert(browser::with_expanded(c, path.drop_first(), expanded) == c);
                },
                None => {},
            }
        }
        if path.len() == 1 && other.len() == 1 {
            assert(path.drop_first() =~= other.drop_first());
        }
        if other.len() == 1 && path.len() > 1 {
            assert(path.drop_first().len() > 0);
            assert(other.drop_first().len() == 0);
        }
    }
}

/// Making the directories of one known gives it those, if it had none known, and
/// leaves all others as they were.
pub proof fn law_one_directory_is_made_known<Q>(
    tree: Seq<EntryModel<Q>>,
    path: Seq<usize>,
    children: Seq<EntryModel<Q>>,
    other: Seq<usize>,
)
    ensures
        node(tree, other) matches Some(e) ==> {
            &&& node(browser::with_children(tree, path, children), other) matches Some(f)
                && is_same(e, f) && f.expanded == e.expanded && (if other == path && e.children
                is None {
                f.children == Some(children)
            } else {
                e.children is Some <==> f.children is Some
            })
        },
        node(tree, path) matches Some(e) ==> (e.children is Some ==> browser::with_children(
            tree,
            path,
            children,
        ) == tree),
    decreases path.len(),
{
    let after = browser::with_children(tree, path, children);
    if path.len() > 0 && path[0] < tree.len() {
        let e = tree[path[0] as int];
        if path.len() > 1 && e.children is Some {
            let c = e.children->0;
            law_one_directory_is_made_known(c, path.drop_first(), children, path.drop_first());
            if node(tree, path) is Some && (node(tree, path)->0).children is Some {
                assert(after =~= tree);
            }
        }
    }
    if other.len() > 0 && path.len() > 0 && other[0] < tree.len() && path[0] == other[0] {
        lemma_paths_differ(other, path);
        match tree[path[0] as int].children {
            Some(c) => {
                law_one_directory_is_made_known(c, path.drop_first(), children, other.drop_first());
            },
            None => {},
        }
        if path.len() == 1 && other.len() == 1 {
            assert(path.drop_first() =~= other.drop_first());
        }
        if other.len() == 1 && path.len() > 1 {
            assert(path.drop_first().len() > 0);
            assert(other.drop_first().len() == 0);
        }
    }
}

/// Along the path stand directories with the names of the way, all unfolded.
pub open spec fn is_way<Q>(tree: Seq<EntryModel<Q>>, names: Seq<Seq<char>>, path: Seq<usize>) -> bool
    decreases path.len(),
{
    path.len() > 0 ==> {
        &&& names.len() > 0
        &&& path[0] < tree.len()
        &&& tree[path[0] as int].name == names[0]
        &&& tree[path[0] as int].expanded
        &&& path.len() > 1 ==> (tree[path[0] as int].children matches Some(c) && is_way(
            c,
            names.drop_first(),
            path.drop_first(),
        ))
    }
}

/// All directories can be counted by machine words.
pub open spec fn is_countable<Q>(tree: Seq<EntryModel<Q>>, names: Seq<Seq<char>>) -> bool
    decreases names.len(),
{
    tree.len() <= usize::MAX && (names.len() > 0 ==> forall|i: int|
        0 <= i < tree.len() ==> ((#[trigger] tree[i]).children matches Some(c) ==> is_countable(
            c,
            names.drop_first(),
        )))
}

/// A way that is found has all its names, one below the other, and one that asks
/// for directories has its names as far as they are known: there it stops at a
/// directory whose own directories are not known. All of them are unfolded.
pub proof fn law_directories_on_the_way_are_unfolded<Q>(
    tree: Seq<EntryModel<Q>>,
    names: Seq<Seq<char>>,
)
    requires
        is_countable(tree, names),
    ensures
        ({
            let (after, outcome) = browser::expand(tree, names);
            match outcome {
                ExpandModel::Found => exists|path: Seq<usize>|
                    path.len() == names.len() && #[trigger] is_way(after, names, path),
                ExpandModel::NeedsChildren(path) => {
                    &&& 0 < path.len() <= names.len()
                    &&& is_way(after, names, path)
                    &&& node(after, path) matches Some(e) && e.children is None
                },
                ExpandModel::Missing => names.len() > 0,
            }
        }),
    decreases names.len(),
{
    let (after, outcome) = browser::expand(tree, names);
    if names.len() == 0 {
        assert(is_way(after, names, Seq::empty()));
    } else {
        let at = browser::place_of(tree, names[0]);
        browser::lemma_place_fits(tree, names[0]);
        if at < tree.len() {
            match tree[at].children {
                None => {},
                Some(c) => {
                    law_directories_on_the_way_are_unfolded(c, names.drop_first());
                    let (below, further) = browser::expand(c, names.drop_first());
                    match further {
                        ExpandModel::Found => {
                            let path = choose|path: Seq<usize>|
                                path.len() == names.drop_first().len() && #[trigger] is_way(
                                    below,
                                    names.drop_first(),
                                    path,
                                );
                            let whole = seq![at as usize] + path;
                            assert(whole.drop_first() =~= path);
                            assert(is_way(after, names, whole));
                        },
                        ExpandModel::NeedsChildren(path) => {
                            let whole = seq![at as usize] + path;
                            assert(whole.drop_first() =~= path);
                            assert(is_way(after, names, whole));
                        },
                        ExpandModel::Missing => {},
                    }
                },
            }
        }
    }
}

/// Looking for a way folds nothing, and unfolds only directories that have the
/// name that the way has at their depth.
pub proof fn law_other_directories_stay<Q>(
    tree: Seq<EntryModel<Q>>,
    names: Seq<Seq<char>>,
    path: Seq<usize>,
)
    ensures
        match (node(tree, path), node(browser::expand(tree, names).0, path)) {
            (Some(e), Some(f)) => {
                &&& is_same(e, f)
                &&& e.expanded ==> f.expanded
                &&& f.expanded && !e.expanded ==> path.len() <= names.len() && e.name
                    == names[path.len() - 1]
                &&& e.children is Some <==> f.children is Some
            },
            (None, None) => true,
            _ => false,
        },
    decreases path.len(),
{
    if names.len() > 0 && path.len() > 0 {
        let at = browser::place_of(tree, names[0]);
        browser::lemma_place_fits(tree, names[0]);
        if at < tree.len() && path[0] == at {
            match tree[at].children {
                None => {},
                Some(c) => {
                    law_other_directories_stay(c, names.drop_first(), path.drop_first());
                },
            }
        }
    }
}

} // verus!
