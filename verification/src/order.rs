//! Sequences without repetition and sorted sequences.

use vstd::prelude::*;

verus! {

/// The items of a sequence, each once, in the order in which they first
/// stand there.
pub open spec fn distinct<A>(s: Seq<A>) -> Seq<A>
    decreases s.len(),
{
    if s.len() == 0 {
        Seq::empty()
    } else {
        let before = distinct(s.drop_last());
        if before.contains(s.last()) {
            before
        } else {
            before.push(s.last())
        }
    }
}

/// Nothing is lost and nothing stands twice among the distinct items.
pub proof fn lemma_distinct<A>(s: Seq<A>)
    ensures
        distinct(s).no_duplicates(),
        distinct(s).len() <= s.len(),
        forall|a: A| #[trigger] distinct(s).contains(a) <==> s.contains(a),
    decreases s.len(),
{
    if s.len() > 0 {
        let init = s.drop_last();
        lemma_distinct(init);
        let before = distinct(init);
        let now = distinct(s);
        assert forall|a: A| #[trigger] now.contains(a) <==> s.contains(a) by {
            if before.contains(a) {
                assert(now[before.index_of(a)] == a);
            }
            if now.contains(a) && a != s.last() {
                assert(before[now.index_of(a)] == a);
            }
            if init.contains(a) {
                assert(s[init.index_of(a)] == a);
            }
            if s.contains(a) && a != s.last() {
                assert(init[s.index_of(a)] == a);
            }
            if a == s.last() {
                assert(s[s.len() - 1] == a);
                if !before.contains(a) {
                    assert(now[now.len() - 1] == a);
                }
            }
        }
    }
}

/// The place of the first item that fits, or the length if none does.
pub open spec fn first_where<A>(s: Seq<A>, fits: spec_fn(A) -> bool) -> int
    decreases s.len(),
{
    if s.len() == 0 || fits(s[0]) {
        0
    } else {
        1 + first_where(s.drop_first(), fits)
    }
}

pub proof fn lemma_first_where<A>(s: Seq<A>, fits: spec_fn(A) -> bool)
    ensures
        0 <= first_where(s, fits) <= s.len(),
        first_where(s, fits) < s.len() ==> fits(s[first_where(s, fits)]),
        forall|i: int| 0 <= i < first_where(s, fits) ==> !fits(#[trigger] s[i]),
    decreases s.len(),
{
    if s.len() > 0 && !fits(s[0]) {
        let rest = s.drop_first();
        lemma_first_where(rest, fits);
        assert forall|i: int| 0 <= i < first_where(s, fits) implies !fits(#[trigger] s[i]) by {
            if i > 0 {
                assert(rest[i - 1] == s[i]);
            }
        }
    }
}

/// The first item that fits is recognised by what stands before it.
pub proof fn lemma_first_where_is<A>(s: Seq<A>, fits: spec_fn(A) -> bool, at: int)
    requires
        0 <= at <= s.len(),
        at < s.len() ==> fits(s[at]),
        forall|i: int| 0 <= i < at ==> !fits(#[trigger] s[i]),
    ensures
        first_where(s, fits) == at,
{
    lemma_first_where(s, fits);
    let found = first_where(s, fits);
    if found < at {
        assert(!fits(s[found]));
    }
    if at < found {
        assert(!fits(s[at]));
    }
}

pub open spec fn ascending(s: Seq<u64>) -> bool {
    forall|i: int, j: int| 0 <= i < j < s.len() ==> s[i] < s[j]
}

/// Two ascending sequences with the same items are the same.
pub proof fn lemma_ascending_unique(a: Seq<u64>, b: Seq<u64>)
    requires
        ascending(a),
        ascending(b),
        forall|x: u64| #[trigger] a.contains(x) <==> b.contains(x),
    ensures
        a == b,
    decreases a.len(),
{
    if a.len() == 0 {
        if b.len() > 0 {
            assert(a.contains(b[0]));
        }
        assert(a =~= b);
    } else {
        assert(a.contains(a[a.len() - 1]));
        assert(b.len() > 0);
        let x = a.last();
        let y = b.last();
        let i = b.index_of(x);
        assert(b[i] == x);
        assert(b.contains(b[b.len() - 1]));
        assert(a.contains(y));
        let j = a.index_of(y);
        assert(a[j] == y);
        assert(x == y);
        let c = a.drop_last();
        let d = b.drop_last();
        assert forall|z: u64| #[trigger] c.contains(z) <==> d.contains(z) by {
            if c.contains(z) {
                let k = c.index_of(z);
                assert(a[k] == z);
                assert(a.contains(z));
                let l = b.index_of(z);
                assert(b[l] == z);
                assert(d[l] == z);
            }
            if d.contains(z) {
                let k = d.index_of(z);
                assert(b[k] == z);
                assert(b.contains(z));
                assert(a.contains(z));
                let l = a.index_of(z);
                assert(a[l] == z);
                assert(c[l] == z);
            }
        }
        lemma_ascending_unique(c, d);
        assert(a =~= c.push(x));
        assert(b =~= d.push(y));
    }
}

/// Sorts numbers of which none stands twice.
pub fn sort_ids(ids: &[u64]) -> (r: Vec<u64>)
    requires
        ids@.no_duplicates(),
    ensures
        ascending(r@),
        r@.len() == ids@.len(),
        forall|x: u64| #[trigger] r@.contains(x) <==> ids@.contains(x),
{
    let mut out: Vec<u64> = Vec::new();
    let mut i: usize = 0;
    while i < ids.len()
        invariant
            ids@.no_duplicates(),
            i <= ids.len(),
            out@.len() == i,
            ascending(out@),
            forall|x: u64| #[trigger] out@.contains(x) <==> ids@.take(i as int).contains(x),
        decreases ids.len() - i,
    {
        let id: u64 = ids[i];
        let ghost before = out@;
        let ghost seen = ids@.take(i as int);
        let ghost now = ids@.take(i + 1);
        let mut at: usize = out.len();
        while at > 0 && out[at - 1] > id
            invariant
                at <= out.len(),
                out@ == before,
                forall|k: int| at <= k < out@.len() ==> out@[k] > id,
            decreases at,
        {
            at -= 1;
        }
        proof {
            if before.contains(id) {
                let k = seen.index_of(id);
                assert(ids@[k] == ids@[i as int]);
            }
            if at > 0 && before[at - 1] == id {
                assert(before.contains(id));
            }
        }
        out.insert(at, id);
        proof {
            assert(out@ == before.insert(at as int, id));
            assert(ascending(out@));
            assert forall|x: u64| #[trigger] out@.contains(x) <==> now.contains(x) by {
                assert(now[i as int] == id);
                assert(out@[at as int] == id);
                if seen.contains(x) {
                    assert(now[seen.index_of(x)] == x);
                }
                if now.contains(x) && x != id {
                    assert(seen[now.index_of(x)] == x);
                    assert(before.contains(x));
                }
                if before.contains(x) {
                    let k = before.index_of(x);
                    if k < at {
                        assert(out@[k] == x);
                    } else {
                        assert(out@[k + 1] == x);
                    }
                }
                if out@.contains(x) && x != id {
                    let k = out@.index_of(x);
                    if k < at {
                        assert(before[k] == x);
                    } else {
                        assert(before[k - 1] == x);
                    }
                    assert(before.contains(x));
                    assert(seen.contains(x));
                }
            }
        }
        i += 1;
    }
    assert(ids@.take(ids.len() as int) =~= ids@);
    out
}

/// The items in the opposite order.
pub fn reversed<T>(items: Vec<T>) -> (r: Vec<T>)
    ensures
        r@ == items@.reverse(),
{
    let ghost given = items@;
    let mut rest = items;
    let mut out: Vec<T> = Vec::new();
    while rest.len() > 0
        invariant
            rest@ == given.take(rest@.len() as int),
            rest@.len() + out@.len() == given.len(),
            forall|k: int|
                0 <= k < out@.len() ==> #[trigger] out@[k] == given[given.len() - 1 - k],
        decreases rest.len(),
    {
        match rest.pop() {
            Some(item) => {
                out.push(item);
            },
            None => {},
        }
    }
    assert(out@ =~= given.reverse());
    out
}

} // verus!
