//! The previews of the STEP files of a directory, and the slots that render
//! them.
//!
//! `Q` is the path of a file, `D` what a preview shows and `S` a shell.

use vstd::prelude::*;

use crate::loader::LoadMessage;
use crate::text::chars_of;

verus! {

/// What `str::to_lowercase` makes of a text.
pub uninterp spec fn lowercase(s: Seq<char>) -> Seq<char>;

/// `str::to_lowercase`. It depends on the text alone, not on a language.
#[verifier::external_body]
fn lowercase_of(s: &str) -> (r: String)
    ensures
        r@ == lowercase(s@),
{
    s.to_lowercase()
}

pub open spec fn ends_with(s: Seq<char>, ending: Seq<char>) -> bool {
    s.len() >= ending.len() && s.skip(s.len() - ending.len()) == ending
}

/// The text comes before another in the order of the code points.
pub open spec fn before(a: Seq<char>, b: Seq<char>) -> bool
    decreases a.len(),
{
    if b.len() == 0 {
        false
    } else if a.len() == 0 {
        true
    } else if a[0] != b[0] {
        a[0] < b[0]
    } else {
        before(a.drop_first(), b.drop_first())
    }
}

fn has_ending(s: &[char], ending: &str) -> (r: bool)
    ensures
        r == ends_with(s@, ending@),
{
    let e = chars_of(ending);
    if s.len() < e.len() {
        return false;
    }
    let start: usize = s.len() - e.len();
    let mut i: usize = 0;
    while i < e.len()
        invariant
            e@ == ending@,
            start + e.len() == s.len(),
            i <= e.len(),
            forall|k: int| 0 <= k < i ==> s@[start + k] == #[trigger] e@[k],
        decreases e.len() - i,
    {
        if s[start + i] != e[i] {
            assert(s@.skip(start as int)[i as int] != ending@[i as int]);
            return false;
        }
        i += 1;
    }
    assert(s@.skip(start as int) =~= ending@);
    true
}

/// Whether one text of lower case letters ends as a STEP file does.
pub open spec fn is_step_name(lower: Seq<char>) -> bool {
    ends_with(lower, ".step"@) || ends_with(lower, ".stp"@)
}

/// Tells by a name in lower case whether a file is a STEP file.
pub fn has_step_ending(lower: &str) -> (r: bool)
    ensures
        r == is_step_name(lower@),
{
    let s = chars_of(lower);
    has_ending(s.as_slice(), ".step") || has_ending(s.as_slice(), ".stp")
}

/// Tells by its name whether a file is a STEP file, in capitals or not.
pub fn is_step_file(name: &str) -> (r: bool)
    ensures
        r == is_step_name(lowercase(name@)),
{
    let lower = lowercase_of(name);
    has_step_ending(lower.as_str())
}

/// Tells whether a name is that of a hidden directory.
pub fn is_hidden(name: &str) -> (r: bool)
    ensures
        r == (name@.len() > 0 && name@[0] == '.'),
{
    let s = chars_of(name);
    s.len() > 0 && s[0] == '.'
}

proof fn lemma_before_at(a: Seq<char>, b: Seq<char>, n: int)
    requires
        0 <= n <= a.len(),
        n <= b.len(),
        forall|k: int| 0 <= k < n ==> #[trigger] a[k] == b[k],
    ensures
        before(a, b) == before(a.skip(n), b.skip(n)),
    decreases n,
{
    assert(a.skip(0) =~= a);
    assert(b.skip(0) =~= b);
    if n > 0 {
        assert(a[0] == b[0]);
        let x = a.drop_first();
        let y = b.drop_first();
        assert forall|k: int| 0 <= k < n - 1 implies #[trigger] x[k] == y[k] by {
            assert(a[k + 1] == b[k + 1]);
        }
        lemma_before_at(x, y, n - 1);
        assert(x.skip(n - 1) =~= a.skip(n));
        assert(y.skip(n - 1) =~= b.skip(n));
    }
}

fn comes_before(a: &[char], b: &[char]) -> (r: bool)
    ensures
        r == before(a@, b@),
{
    let mut i: usize = 0;
    while i < a.len() && i < b.len() && a[i] == b[i]
        invariant
            i <= a.len(),
            i <= b.len(),
            forall|k: int| 0 <= k < i ==> #[trigger] a@[k] == b@[k],
        decreases a.len() - i,
    {
        i += 1;
    }
    proof {
        lemma_before_at(a@, b@, i as int);
    }
    if i >= b.len() {
        false
    } else if i >= a.len() {
        true
    } else {
        a[i] < b[i]
    }
}

proof fn lemma_before_transitive(a: Seq<char>, b: Seq<char>, c: Seq<char>)
    requires
        before(a, b),
        before(b, c),
    ensures
        before(a, c),
    decreases a.len(),
{
    if a.len() > 0 && b.len() > 0 && c.len() > 0 && a[0] == b[0] && b[0] == c[0] {
        lemma_before_transitive(a.drop_first(), b.drop_first(), c.drop_first());
    }
}

proof fn lemma_before_weak(a: Seq<char>, b: Seq<char>, c: Seq<char>)
    requires
        before(a, b),
        !before(c, b),
    ensures
        before(a, c),
    decreases a.len(),
{
    if a.len() > 0 && b.len() > 0 && c.len() > 0 && a[0] == b[0] && b[0] == c[0] {
        lemma_before_weak(a.drop_first(), b.drop_first(), c.drop_first());
    }
}

/// The places in an order: by their keys, and among equal keys as they stand.
pub open spec fn in_order(places: Seq<usize>, keys: Seq<Seq<char>>) -> bool {
    forall|i: int, j: int|
        0 <= i < j < places.len() ==> {
            let a = #[trigger] places[i];
            let b = #[trigger] places[j];
            before(keys[a as int], keys[b as int]) || !before(keys[b as int], keys[a as int]) && a
                < b
        }
}

/// The places are those below `n`, each once.
pub open spec fn all_places(places: Seq<usize>, n: int) -> bool {
    &&& places.len() == n
    &&& places.no_duplicates()
    &&& forall|i: int| 0 <= i < places.len() ==> (#[trigger] places[i]) < n
}

pub open spec fn lowercase_views(names: Seq<String>) -> Seq<Seq<char>> {
    names.map_values(|n: String| lowercase(n@))
}

pub open spec fn key_views(keys: Seq<Vec<char>>) -> Seq<Seq<char>> {
    keys.map_values(|k: Vec<char>| k@)
}

/// The places of the keys in their order. Keys that are the same stay as they
/// stand.
pub fn sort_places(keys: &[Vec<char>]) -> (r: Vec<usize>)
    ensures
        all_places(r@, keys@.len() as int),
        in_order(r@, key_views(keys@)),
{
    let ghost all = key_views(keys@);
    let mut out: Vec<usize> = Vec::new();
    let mut n: usize = 0;
    while n < keys.len()
        invariant
            n <= keys.len(),
            all == key_views(keys@),
            all_places(out@, n as int),
            in_order(out@, all),
        decreases keys.len() - n,
    {
        let mut at: usize = out.len();
        while at > 0 && comes_before(keys[n].as_slice(), keys[out[at - 1]].as_slice())
            invariant
                n < keys.len(),
                at <= out.len(),
                all == key_views(keys@),
                all_places(out@, n as int),
                in_order(out@, all),
                forall|k: int|
                    at <= k < out@.len() ==> before(
                        all[n as int],
                        all[(#[trigger] out@[k]) as int],
                    ),
            decreases at,
        {
            at -= 1;
        }
        let ghost old_out = out@;
        proof {
            if at > 0 {
                let last = old_out[at - 1];
                assert(!before(all[n as int], all[last as int]));
                assert forall|k: int| 0 <= k < at implies !before(
                    all[n as int],
                    all[(#[trigger] old_out[k]) as int],
                ) by {
                    if k < at - 1 && before(all[n as int], all[old_out[k] as int]) {
                        if before(all[old_out[k] as int], all[last as int]) {
                            lemma_before_transitive(
                                all[n as int],
                                all[old_out[k] as int],
                                all[last as int],
                            );
                        } else {
                            lemma_before_weak(
                                all[n as int],
                                all[old_out[k] as int],
                                all[last as int],
                            );
                        }
                    }
                }
            }
        }
        out.insert(at, n);
        proof {
            assert forall|i: int, j: int| 0 <= i < j < out@.len() implies {
                let a = #[trigger] out@[i];
                let b = #[trigger] out@[j];
                before(all[a as int], all[b as int]) || !before(all[b as int], all[a as int]) && a
                    < b
            } by {
                let x = if i < at {
                    i
                } else {
                    i - 1
                };
                let y = if j < at {
                    j
                } else {
                    j - 1
                };
                if i != at {
                    assert(out@[i] == old_out[x]);
                }
                if j != at {
                    assert(out@[j] == old_out[y]);
                }
            }
            assert forall|i: int, j: int| 0 <= i < j < out@.len() implies out@[i] != out@[j] by {
                let x = if i < at {
                    i
                } else {
                    i - 1
                };
                let y = if j < at {
                    j
                } else {
                    j - 1
                };
                if i != at {
                    assert(out@[i] == old_out[x]);
                }
                if j != at {
                    assert(out@[j] == old_out[y]);
                }
            }
            assert forall|i: int| 0 <= i < out@.len() implies (#[trigger] out@[i]) < n + 1 by {
                if i < at {
                    assert(out@[i] == old_out[i]);
                } else if i > at {
                    assert(out@[i] == old_out[i - 1]);
                }
            }
        }
        n += 1;
    }
    out
}

/// The order in which names are listed: by their lower case letters, and among
/// equal ones as they stand.
pub fn listing_order(names: &[String]) -> (r: Vec<usize>)
    ensures
        all_places(r@, names@.len() as int),
        in_order(r@, lowercase_views(names@)),
{
    let mut keys: Vec<Vec<char>> = Vec::new();
    let mut i: usize = 0;
    while i < names.len()
        invariant
            i <= names.len(),
            keys@.len() == i,
            forall|k: int| 0 <= k < i ==> (#[trigger] keys@[k])@ == lowercase(names@[k]@),
        decreases names.len() - i,
    {
        let lower = lowercase_of(names[i].as_str());
        keys.push(chars_of(lower.as_str()));
        i += 1;
    }
    assert(key_views(keys@) =~= lowercase_views(names@));
    sort_places(keys.as_slice())
}

/// What is known of a preview.
pub enum PreviewStatus<D> {
    Pending,
    Loading,
    Ready(D),
    Failed(String),
}

/// A preview of a file.
pub struct PreviewEntry<Q, D> {
    pub path: Q,
    pub filename: String,
    pub status: PreviewStatus<D>,
}

/// The places of the previews that wait.
pub open spec fn waiting<Q, D>(previews: Seq<PreviewEntry<Q, D>>) -> Seq<usize>
    decreases previews.len(),
{
    if previews.len() == 0 {
        Seq::empty()
    } else {
        let rest = waiting(previews.drop_last());
        if previews.last().status is Pending {
            rest.push((previews.len() - 1) as usize)
        } else {
            rest
        }
    }
}

/// Starts the previews that wait, and gives back their places.
pub fn start_waiting<Q, D>(previews: &mut Vec<PreviewEntry<Q, D>>) -> (r: Vec<usize>)
    ensures
        r@ == waiting(old(previews)@),
        final(previews)@.len() == old(previews)@.len(),
        forall|i: int|
            0 <= i < final(previews)@.len() ==> #[trigger] final(previews)@[i] == (
            PreviewEntry {
                status: if old(previews)@[i].status is Pending {
                    PreviewStatus::Loading
                } else {
                    old(previews)@[i].status
                },
                ..old(previews)@[i]
            }),
{
    let ghost given = previews@;
    let mut started: Vec<usize> = Vec::new();
    let mut i: usize = 0;
    while i < previews.len()
        invariant
            i <= previews.len(),
            previews@.len() == given.len(),
            started@ == waiting(given.take(i as int)),
            forall|k: int| i <= k < given.len() ==> #[trigger] previews@[k] == given[k],
            forall|k: int|
                0 <= k < i ==> #[trigger] previews@[k] == (PreviewEntry {
                    status: if given[k].status is Pending {
                        PreviewStatus::Loading
                    } else {
                        given[k].status
                    },
                    ..given[k]
                }),
        decreases previews.len() - i,
    {
        assert(given.take(i + 1).drop_last() =~= given.take(i as int));
        let waits = match &previews[i].status {
            PreviewStatus::Pending => true,
            _ => false,
        };
        if waits {
            previews[i].status = PreviewStatus::Loading;
            started.push(i);
        }
        i += 1;
    }
    assert(given.take(given.len() as int) =~= given);
    started
}

/// A preview has come, or it could not be had. A place that there is not any
/// more is passed over.
pub fn settle_preview<Q, D>(
    previews: &mut Vec<PreviewEntry<Q, D>>,
    at: usize,
    result: Result<D, String>,
)
    ensures
        final(previews)@ == (if at < old(previews)@.len() {
            old(previews)@.update(
                at as int,
                PreviewEntry {
                    status: match result {
                        Ok(d) => PreviewStatus::Ready(d),
                        Err(e) => PreviewStatus::Failed(e),
                    },
                    ..old(previews)@[at as int]
                },
            )
        } else {
            old(previews)@
        }),
{
    if at < previews.len() {
        previews[at].status = match result {
            Ok(d) => PreviewStatus::Ready(d),
            Err(e) => PreviewStatus::Failed(e),
        };
    }
}

/// What becomes of the load of a preview.
pub enum PreviewStep {
    Continue,
    Finished,
    Failed(String),
}

/// Takes over a message of the load of a preview. Only shells and the end
/// matter.
pub fn collect_preview<S, B>(shells: &mut Vec<S>, message: LoadMessage<S, B>) -> (r: PreviewStep)
    ensures
        match message {
            LoadMessage::Shell(s) => r is Continue && final(shells)@ == old(shells)@.push(s),
            LoadMessage::Done => r is Finished && final(shells)@ == old(shells)@,
            LoadMessage::Error(e) => r == PreviewStep::Failed(e) && final(shells)@ == old(
                shells,
            )@,
            _ => r is Continue && final(shells)@ == old(shells)@,
        },
{
    match message {
        LoadMessage::Shell(s) => {
            shells.push(s);
            PreviewStep::Continue
        },
        LoadMessage::Done => PreviewStep::Finished,
        LoadMessage::Error(e) => PreviewStep::Failed(e),
        _ => PreviewStep::Continue,
    }
}

/// The number of rows of the grid.
pub fn grid_rows(count: usize, cols: usize) -> (r: usize)
    requires
        cols > 0,
    ensures
        (r - 1) * cols < count <= r * cols || r == 0 && count == 0,
{
    if count == 0 {
        return 0;
    }
    let full: usize = count / cols;
    assert(count == full * cols + count % cols && 0 <= count % cols < cols) by (nonlinear_arith)
        requires
            cols > 0,
            full == count / cols,
    ;
    if count % cols == 0 {
        assert((full - 1) * cols < count <= full * cols) by (nonlinear_arith)
            requires
                cols > 0,
                count == full * cols,
        ;
        full
    } else {
        assert(full * cols < count <= (full + 1) * cols) by (nonlinear_arith)
            requires
                cols > 0,
                count == full * cols + count % cols,
                0 < count % cols < cols,
        ;
        assert(full + 1 <= count) by (nonlinear_arith)
            requires
                cols > 0,
                count == full * cols + count % cols,
                0 < count % cols < cols,
        ;
        full + 1
    }
}

/// The places of the previews in sight: the first, and the one behind the
/// last.
pub fn visible_places(first_row: usize, rows: usize, cols: usize, count: usize) -> (r: (
    usize,
    usize,
))
    requires
        first_row + rows + 1 <= usize::MAX,
        (first_row + rows + 1) * cols <= usize::MAX,
    ensures
        r.0 == first_row * cols,
        r.1 == (if (first_row + rows + 1) * cols < count {
            (first_row + rows + 1) * cols
        } else {
            count as int
        }),
{
    assert(first_row * cols <= (first_row + rows + 1) * cols) by (nonlinear_arith);
    let first: usize = first_row * cols;
    let end: usize = (first_row + rows + 1) * cols;
    if end < count {
        (first, end)
    } else {
        (first, count)
    }
}

/// The places in a range whose previews are ready.
pub open spec fn ready_places<Q, D>(
    previews: Seq<PreviewEntry<Q, D>>,
    first: int,
    end: int,
) -> Seq<usize>
    decreases end - first,
{
    if end <= first {
        Seq::empty()
    } else {
        let rest = ready_places(previews, first, end - 1);
        if end - 1 < previews.len() && previews[end - 1].status is Ready {
            rest.push((end - 1) as usize)
        } else {
            rest
        }
    }
}

proof fn lemma_ready_places<Q, D>(previews: Seq<PreviewEntry<Q, D>>, first: int, end: int)
    requires
        0 <= first,
        end <= usize::MAX + 1,
    ensures
        ready_places(previews, first, end).no_duplicates(),
        forall|i: int|
            0 <= i < ready_places(previews, first, end).len() ==> first <= (
            #[trigger] ready_places(previews, first, end)[i]) < end,
    decreases end - first,
{
    if first < end {
        lemma_ready_places(previews, first, end - 1);
    }
}

/// The places in a range whose previews are ready.
pub fn places_to_render<Q, D>(previews: &[PreviewEntry<Q, D>], first: usize, end: usize) -> (r: Vec<
    usize,
>)
    ensures
        r@ == ready_places(previews@, first as int, end as int),
        r@.no_duplicates(),
{
    let mut out: Vec<usize> = Vec::new();
    let mut i: usize = first;
    while i < end
        invariant
            first <= i,
            first <= end ==> i <= end,
            first > end ==> i == first,
            out@ == ready_places(previews@, first as int, i as int),
        decreases end - i,
    {
        if i < previews.len() {
            match &previews[i].status {
                PreviewStatus::Ready(_) => {
                    out.push(i);
                },
                _ => {},
            }
        }
        i += 1;
    }
    proof {
        lemma_ready_places(previews@, first as int, end as int);
    }
    out
}

/// The slots without those whose previews are out of sight.
pub open spec fn freed(slots: Seq<Option<usize>>, needed: Seq<usize>) -> Seq<Option<usize>> {
    slots.map_values(
        |s: Option<usize>|
            match s {
                Some(p) if needed.contains(p) => Some(p),
                _ => None,
            },
    )
}

/// The first slot that is free, or the number of slots.
pub open spec fn first_free(slots: Seq<Option<usize>>) -> int
    decreases slots.len(),
{
    if slots.len() == 0 || slots[0] is None {
        0
    } else {
        1 + first_free(slots.drop_first())
    }
}

pub proof fn lemma_first_free(slots: Seq<Option<usize>>)
    ensures
        0 <= first_free(slots) <= slots.len(),
        first_free(slots) < slots.len() ==> slots[first_free(slots)] is None,
        forall|i: int| 0 <= i < first_free(slots) ==> (#[trigger] slots[i]) is Some,
    decreases slots.len(),
{
    if slots.len() > 0 && slots[0] is Some {
        let rest = slots.drop_first();
        lemma_first_free(rest);
        assert forall|i: int| 0 <= i < first_free(slots) implies (#[trigger] slots[i]) is Some by {
            if i > 0 {
                assert(rest[i - 1] == slots[i]);
            }
        }
    }
}

proof fn lemma_first_free_is(slots: Seq<Option<usize>>, at: int)
    requires
        0 <= at <= slots.len(),
        forall|i: int| 0 <= i < at ==> (#[trigger] slots[i]) is Some,
        at < slots.len() ==> slots[at] is None,
    ensures
        first_free(slots) == at,
    decreases slots.len(),
{
    if slots.len() > 0 && slots[0] is Some {
        let rest = slots.drop_first();
        assert forall|i: int| 0 <= i < at - 1 implies (#[trigger] rest[i]) is Some by {
            assert(rest[i] == slots[i + 1]);
        }
        lemma_first_free_is(rest, at - 1);
    }
}

/// The slots with one more preview, in the first that is free. A preview that
/// has a slot keeps it, and without a free slot it gets none.
pub open spec fn with_preview(slots: Seq<Option<usize>>, preview: usize) -> Seq<Option<usize>> {
    if slots.contains(Some(preview)) || first_free(slots) >= slots.len() {
        slots
    } else {
        slots.update(first_free(slots), Some(preview))
    }
}

pub open spec fn with_previews(slots: Seq<Option<usize>>, needed: Seq<usize>) -> Seq<Option<usize>>
    decreases needed.len(),
{
    if needed.len() == 0 {
        slots
    } else {
        with_preview(with_previews(slots, needed.drop_last()), needed.last())
    }
}

/// Which slots get which previews, in the order of the previews.
pub open spec fn assignments(slots: Seq<Option<usize>>, needed: Seq<usize>) -> Seq<(usize, usize)>
    decreases needed.len(),
{
    if needed.len() == 0 {
        Seq::empty()
    } else {
        let before = assignments(slots, needed.drop_last());
        let now = with_previews(slots, needed.drop_last());
        if now.contains(Some(needed.last())) || first_free(now) >= now.len() {
            before
        } else {
            before.push((first_free(now) as usize, needed.last()))
        }
    }
}

fn is_needed(needed: &[usize], preview: usize) -> (r: bool)
    ensures
        r == needed@.contains(preview),
{
    let mut i: usize = 0;
    while i < needed.len()
        invariant
            i <= needed.len(),
            forall|k: int| 0 <= k < i ==> #[trigger] needed@[k] != preview,
        decreases needed.len() - i,
    {
        if needed[i] == preview {
            return true;
        }
        i += 1;
    }
    false
}

/// Frees the slots whose previews are out of sight, and gives the others that
/// are in sight free slots, as far as there are any. Gives back which slots
/// got which previews.
pub fn assign_slots(slots: &mut Vec<Option<usize>>, needed: &[usize]) -> (r: Vec<(usize, usize)>)
    ensures
        final(slots)@ == with_previews(freed(old(slots)@, needed@), needed@),
        r@ == assignments(freed(old(slots)@, needed@), needed@),
        r@.no_duplicates(),
        forall|i: int|
            0 <= i < r@.len() ==> {
                let (slot, preview) = #[trigger] r@[i];
                slot < final(slots)@.len() && final(slots)@[slot as int] == Some(preview)
                    && freed(old(slots)@, needed@)[slot as int] is None
            },
        forall|s: int|
            0 <= s < final(slots)@.len() && #[trigger] final(slots)@[s] != freed(
                old(slots)@,
                needed@,
            )[s] ==> r@.contains((s as usize, final(slots)@[s]->0)),
{
    let ghost given = slots@;
    let ghost start = freed(given, needed@);
    let mut i: usize = 0;
    while i < slots.len()
        invariant
            i <= slots.len(),
            slots@.len() == given.len(),
            start == freed(given, needed@),
            forall|k: int| 0 <= k < i ==> #[trigger] slots@[k] == start[k],
            forall|k: int| i <= k < given.len() ==> #[trigger] slots@[k] == given[k],
        decreases slots.len() - i,
    {
        match slots[i] {
            Some(p) => {
                if !is_needed(needed, p) {
                    slots[i] = None;
                }
            },
            None => {},
        }
        i += 1;
    }
    assert(slots@ =~= start);
    let mut assigned: Vec<(usize, usize)> = Vec::new();
    let mut n: usize = 0;
    while n < needed.len()
        invariant
            n <= needed.len(),
            start.len() == given.len(),
            slots@.len() == start.len(),
            slots@ == with_previews(start, needed@.take(n as int)),
            assigned@ == assignments(start, needed@.take(n as int)),
            assigned@.no_duplicates(),
            forall|k: int| 0 <= k < slots@.len() && start[k] is Some ==> #[trigger] slots@[k] == start[k],
            forall|k: int|
                0 <= k < assigned@.len() ==> {
                    let (slot, preview) = #[trigger] assigned@[k];
                    slot < slots@.len() && slots@[slot as int] == Some(preview)
                        && start[slot as int] is None
                },
            forall|s: int|
                0 <= s < slots@.len() && #[trigger] slots@[s] != start[s] ==> slots@[s] is Some
                    && assigned@.contains((s as usize, slots@[s]->0)),
        decreases needed.len() - n,
    {
        let preview: usize = needed[n];
        assert(needed@.take(n + 1).drop_last() =~= needed@.take(n as int));
        let ghost before_slots = slots@;
        let ghost before_assigned = assigned@;
        let mut found = false;
        let mut free: usize = slots.len();
        let mut s: usize = 0;
        while s < slots.len()
            invariant
                s <= slots.len(),
                slots@ == before_slots,
                found == exists|k: int| 0 <= k < s && #[trigger] slots@[k] == Some(preview),
                free == slots@.len() ==> forall|k: int| 0 <= k < s ==> (#[trigger] slots@[k]) is Some,
                free < slots@.len() ==> free < s && slots@[free as int] is None && forall|k: int|
                    0 <= k < free ==> (#[trigger] slots@[k]) is Some,
                free <= slots@.len(),
            decreases slots.len() - s,
        {
            match slots[s] {
                Some(p) => {
                    if p == preview {
                        assert(slots@[s as int] == Some(preview));
                        found = true;
                    }
                },
                None => {
                    if free == slots.len() {
                        free = s;
                    }
                },
            }
            s += 1;
        }
        proof {
            lemma_first_free_is(slots@, free as int);
            assert(found == slots@.contains(Some(preview)));
        }
        if !found && free < slots.len() {
            slots[free] = Some(preview);
            assigned.push((free, preview));
            proof {
                assert forall|k: int| 0 <= k < assigned@.len() implies {
                    let (slot, p) = #[trigger] assigned@[k];
                    slot < slots@.len() && slots@[slot as int] == Some(p) && start[slot as int] is None
                } by {
                    if k < before_assigned.len() {
                        assert(assigned@[k] == before_assigned[k]);
                    }
                }
                assert forall|s: int| 0 <= s < slots@.len() && #[trigger] slots@[s] != start[s] implies slots@[s] is Some
                    && assigned@.contains((s as usize, slots@[s]->0)) by {
                    if s == free {
                        assert(assigned@.last() == (free, preview));
                    } else {
                        assert(before_slots[s] != start[s]);
                        let item = (s as usize, slots@[s]->0);
                        let at = choose|at: int|
                            0 <= at < before_assigned.len() && before_assigned[at] == item;
                        assert(assigned@[at] == item);
                    }
                }
            }
        }
        n += 1;
    }
    assert(needed@.take(needed.len() as int) =~= needed@);
    assigned
}

proof fn lemma_with_previews(slots: Seq<Option<usize>>, needed: Seq<usize>)
    requires
        forall|i: int, j: int|
            0 <= i < j < slots.len() && (#[trigger] slots[i]) is Some ==> slots[i]
                != #[trigger] slots[j],
    ensures
        with_previews(slots, needed).len() == slots.len(),
        forall|i: int, j: int|
            0 <= i < j < slots.len() && (#[trigger] with_previews(slots, needed)[i]) is Some
                ==> with_previews(slots, needed)[i] != #[trigger] with_previews(slots, needed)[j],
        forall|k: int|
            0 <= k < needed.len() ==> with_previews(slots, needed).contains(
                Some(#[trigger] needed[k]),
            ) || first_free(with_previews(slots, needed)) == slots.len(),
    decreases needed.len(),
{
    if needed.len() > 0 {
        let fewer = needed.drop_last();
        lemma_with_previews(slots, fewer);
        let b = with_previews(slots, fewer);
        let a = with_previews(slots, needed);
        let p = needed.last();
        lemma_first_free(b);
        lemma_first_free(a);
        let f = first_free(b);
        assert forall|k: int| 0 <= k < needed.len() implies a.contains(
            Some(#[trigger] needed[k]),
        ) || first_free(a) == slots.len() by {
            if k < fewer.len() {
                assert(fewer[k] == needed[k]);
                if b.contains(Some(needed[k])) && a != b {
                    let at = choose|at: int| 0 <= at < b.len() && b[at] == Some(needed[k]);
                    assert(a[at] == Some(needed[k]));
                }
            } else if a != b {
                assert(a[f] == Some(p));
            }
        }
    }
}

/// If no two slots render the same preview, none do afterwards, and a preview
/// in sight goes without a slot only if no slot is free.
pub proof fn law_slots_are_shared_out(slots: Seq<Option<usize>>, needed: Seq<usize>)
    requires
        forall|i: int, j: int|
            0 <= i < j < slots.len() && (#[trigger] slots[i]) is Some ==> slots[i]
                != #[trigger] slots[j],
    ensures
        ({
            let after = with_previews(freed(slots, needed), needed);
            &&& after.len() == slots.len()
            &&& forall|i: int, j: int|
                0 <= i < j < after.len() && (#[trigger] after[i]) is Some ==> after[i]
                    != #[trigger] after[j]
            &&& forall|k: int|
                0 <= k < needed.len() ==> after.contains(Some(#[trigger] needed[k])) || first_free(
                    after,
                ) == after.len()
        }),
{
    let start = freed(slots, needed);
    assert forall|i: int, j: int| 0 <= i < j < start.len() && (#[trigger] start[i]) is Some implies start[i]
        != #[trigger] start[j] by {
        assert(slots[i] == start[i]);
        if start[j] is Some {
            assert(slots[j] == start[j]);
        }
    }
    lemma_with_previews(start, needed);
}

/// What is shown instead of the grid.
pub fn grid_placeholder(selected: bool, count: usize) -> (r: Option<&'static str>)
    ensures
        match r {
            Some(s) => if !selected {
                s@ == "Select a directory to browse STEP files"@
            } else {
                count == 0 && s@ == "No STEP files in this directory"@
            },
            None => selected && count > 0,
        },
{
    if !selected {
        Some("Select a directory to browse STEP files")
    } else if count == 0 {
        Some("No STEP files in this directory")
    } else {
        None
    }
}

/// What is written on a preview. One that a slot renders has no words.
pub open spec fn caption<D>(status: PreviewStatus<D>, has_slot: bool) -> Option<Seq<char>> {
    match status {
        PreviewStatus::Ready(_) => if has_slot {
            None
        } else {
            Some("Ready"@)
        },
        PreviewStatus::Failed(e) => Some(e@),
        _ => Some("Loading\u{2026}"@),
    }
}

/// What is written on a preview.
pub fn preview_caption<'a, D>(status: &'a PreviewStatus<D>, has_slot: bool) -> (r: Option<&'a str>)
    ensures
        match r {
            Some(s) => caption(*status, has_slot) == Some(s@),
            None => caption(*status, has_slot) is None,
        },
{
    match status {
        PreviewStatus::Ready(_) => {
            if has_slot {
                None
            } else {
                Some("Ready")
            }
        },
        PreviewStatus::Failed(e) => Some(e.as_str()),
        _ => Some("Loading\u{2026}"),
    }
}

/// The slot that renders a preview.
pub fn slot_of(slots: &[Option<usize>], preview: usize) -> (r: Option<usize>)
    ensures
        match r {
            Some(s) => s < slots@.len() && slots@[s as int] == Some(preview) && forall|k: int|
                0 <= k < s ==> #[trigger] slots@[k] != Some(preview),
            None => !slots@.contains(Some(preview)),
        },
{
    let mut s: usize = 0;
    while s < slots.len()
        invariant
            s <= slots.len(),
            forall|k: int| 0 <= k < s ==> #[trigger] slots@[k] != Some(preview),
        decreases slots.len() - s,
    {
        match slots[s] {
            Some(p) => {
                if p == preview {
                    return Some(s);
                }
            },
            None => {},
        }
        s += 1;
    }
    None
}

/// Tells whether the grid changes by itself: a slot renders, or a preview is
/// still to come.
pub fn keeps_changing<Q, D>(slots: &[Option<usize>], previews: &[PreviewEntry<Q, D>]) -> (r: bool)
    ensures
        r == ((exists|s: int| 0 <= s < slots@.len() && (#[trigger] slots@[s]) is Some) || (exists|
            i: int,
        |
            0 <= i < previews@.len() && ((#[trigger] previews@[i]).status is Loading
                || previews@[i].status is Pending))),
{
    let mut s: usize = 0;
    while s < slots.len()
        invariant
            s <= slots.len(),
            forall|k: int| 0 <= k < s ==> (#[trigger] slots@[k]) is None,
        decreases slots.len() - s,
    {
        if slots[s].is_some() {
            return true;
        }
        s += 1;
    }
    let mut i: usize = 0;
    while i < previews.len()
        invariant
            i <= previews.len(),
            forall|k: int|
                0 <= k < i ==> !((#[trigger] previews@[k]).status is Loading
                    || previews@[k].status is Pending),
        decreases previews.len() - i,
    {
        match &previews[i].status {
            PreviewStatus::Loading => {
                assert(previews@[i as int].status is Loading);
                return true;
            },
            PreviewStatus::Pending => {
                assert(previews@[i as int].status is Pending);
                return true;
            },
            _ => {},
        }
        i += 1;
    }
    false
}

} // verus!
