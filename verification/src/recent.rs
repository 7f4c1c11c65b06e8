use vstd::prelude::*;

use crate::codec;
use crate::flags::Flags;

verus! {

/// Directory name of the stored recent-files artifact.
pub const DIR: &'static str = ".recents";

/// The front entries of `s` evicted, one at a time, until at most `max`
/// remain.
pub open spec fn evicted(s: Seq<Seq<char>>, max: nat) -> Seq<Seq<char>> {
    if s.len() <= max {
        s
    } else {
        s.skip(s.len() - max)
    }
}

/// The predicate that keeps every path other than `p`.
pub open spec fn keeps(p: Seq<char>) -> spec_fn(Seq<char>) -> bool {
    |q: Seq<char>| q != p
}

/// The list after recording one opened path: every prior occurrence of the
/// path is dropped, the path is appended, and the oldest entries are evicted
/// from the front until the bound holds.
pub open spec fn add_spec(s: Seq<Seq<char>>, p: Seq<char>, max: nat) -> Seq<Seq<char>> {
    evicted(s.filter(keeps(p)).push(p), max)
}

/// A bounded, deduplicated list of previously opened file paths, most
/// recently used last.
pub struct Recent(Vec<String>);

impl View for Recent {
    type V = Seq<Seq<char>>;

    closed spec fn view(&self) -> Seq<Seq<char>> {
        self.0.deep_view()
    }
}

impl Default for Recent {
    /// The canonical default: the empty list.
    fn default() -> (r: Recent)
        ensures
            r@ == Seq::<Seq<char>>::empty(),
    {
        let r = Recent(Vec::new());
        proof {
            assert(r@ =~= Seq::<Seq<char>>::empty());
        }
        r
    }
}

impl Recent {
    /// Load the list from the raw bytes of the stored artifact (`None` when
    /// the artifact does not exist). Absence, a decompression failure and a
    /// decoding failure all degrade to the empty default, never to an error.
    pub fn read(bytes: Option<Vec<u8>>) -> (r: Recent)
        ensures
            r@ == codec::load_spec(bytes.deep_view()),
    {
        Recent(codec::load_paths(bytes))
    }

    /// Record one opened path: drop any prior occurrence, append the path,
    /// then evict from the front while the bound is exceeded. With
    /// `max_recents() == 0` the list is left empty.
    #[verifier::loop_isolation(false)]
    pub fn add(&mut self, flags: &Flags, path: String)
        ensures
            final(self)@ == add_spec(old(self)@, path@, flags.spec_max_recents()),
    {
        broadcast use vstd::seq_lib::group_filter_ensures;

        let ghost dv = self.0.deep_view();
        let ghost pred = keeps(path@);
        let mut kept: Vec<String> = Vec::new();
        let n = self.0.len();
        let mut i: usize = 0;
        proof {
            assert(kept.deep_view() =~= dv.take(0).filter(pred));
        }
        while i < n
            invariant
                n == self.0.len(),
                dv == self.0.deep_view(),
                i <= n,
                kept.deep_view() == dv.take(i as int).filter(pred),
            decreases n - i,
        {
            let keep_it = !self.0[i].eq(&path);
            proof {
                assert(dv.take(i + 1) =~= dv.take(i as int).push(dv[i as int]));
                assert(dv[i as int] == self.0[i as int]@);
                dv.take(i as int).lemma_filter_push(dv[i as int], pred);
                assert(keep_it == pred(dv[i as int]));
            }
            if keep_it {
                let entry = self.0[i].clone();
                kept.push(entry);
                proof {
                    assert(kept.deep_view() =~= dv.take(i as int).filter(pred).push(
                        dv[i as int],
                    ));
                }
            }
            i += 1;
        }
        proof {
            assert(dv.take(n as int) =~= dv);
        }
        kept.push(path);
        let ghost appended = dv.filter(pred).push(path@);
        proof {
            assert(kept.deep_view() =~= appended);
        }
        let max = flags.max_recents();
        while kept.len() > max
            invariant
                kept.deep_view() == appended.skip(appended.len() - kept.len()),
                kept.len() <= appended.len(),
                max <= kept.len() || kept.len() == appended.len(),
            decreases kept.len(),
        {
            let ghost before = kept.deep_view();
            let _ = kept.remove(0);
            proof {
                assert(kept.deep_view() =~= before.skip(1));
                assert(before.skip(1) =~= appended.skip(appended.len() - kept.len()));
            }
        }
        self.0 = kept;
        proof {
            assert(self@ =~= add_spec(dv, path@, flags.spec_max_recents()));
        }
    }

    /// Encode and compress the list for storage: neither stage can fail on a
    /// list of strings, and the produced bytes load back to exactly this
    /// list.
    pub fn to_bytes(&self) -> (r: Option<Vec<u8>>)
        ensures
            r is Some,
            r.unwrap()@.len() > 0,
            codec::load_spec(Some(r.unwrap()@)) == self@,
    {
        codec::store_paths(&self.0)
    }

    /// The canonical stored form of the default (empty) list, computed with
    /// no disk access: a non-empty byte sequence that loads back to the
    /// empty list.
    pub fn default_bytes() -> (r: Vec<u8>)
        ensures
            r@.len() > 0,
            codec::load_spec(Some(r@)) == Seq::<Seq<char>>::empty(),
    {
        codec::default_paths_bytes()
    }

    /// The stored paths in insertion order: oldest first, most recent last.
    pub fn get_inner(&self) -> (r: &Vec<String>)
        ensures
            r.deep_view() == self@,
    {
        &self.0
    }

    /// The stored paths in insertion order, ownership transferred to the
    /// caller: the consumed-once traversal used to render the list.
    pub fn into_paths(self) -> (r: Vec<String>)
        ensures
            r.deep_view() == self@,
    {
        self.0
    }
}

/// How many entries of `s` are the path `p`.
pub open spec fn occurrences(s: Seq<Seq<char>>, p: Seq<char>) -> nat
    decreases s.len(),
{
    if s.len() == 0 {
        0
    } else {
        occurrences(s.drop_last(), p) + (if s.last() == p {
            1nat
        } else {
            0nat
        })
    }
}

/// No entry of `s` is `p`, so `p` occurs zero times.
proof fn lemma_occurrences_none(s: Seq<Seq<char>>, p: Seq<char>)
    requires
        forall|j: int| 0 <= j < s.len() ==> s[j] != p,
    ensures
        occurrences(s, p) == 0,
    decreases s.len(),
{
    if s.len() > 0 {
        lemma_occurrences_none(s.drop_last(), p);
    }
}

/// Law: recording a path leaves it exactly once, at the end of the list,
/// whenever the bound admits any entry at all; recording the same path twice
/// in succession therefore also leaves exactly one occurrence, at the end.
pub proof fn lemma_add_dedup(s: Seq<Seq<char>>, p: Seq<char>, max: nat)
    requires
        1 <= max,
    ensures
        add_spec(s, p, max).last() == p,
        occurrences(add_spec(s, p, max), p) == 1,
{
    broadcast use vstd::seq_lib::group_filter_ensures;

    let f = s.filter(keeps(p));
    let g = f.push(p);
    let result = add_spec(s, p, max);
    assert(forall|j: int| 0 <= j < f.len() ==> f[j] != p);
    if g.len() <= max {
        assert(result == g);
        assert(g.drop_last() =~= f);
        lemma_occurrences_none(f, p);
    } else {
        let k = g.len() - max;
        assert(k <= f.len());
        assert(result == g.skip(k));
        assert(g.skip(k) =~= f.skip(k).push(p));
        let e = f.skip(k);
        assert(forall|j: int| 0 <= j < e.len() ==> e[j] == f[k + j] && e[j] != p);
        lemma_occurrences_none(e, p);
        assert(e.push(p).drop_last() =~= e);
    }
}

/// Law: whatever the list held before, one `add` leaves at most `max`
/// entries; a list grown only by `add` calls therefore never exceeds the
/// bound.
pub proof fn lemma_add_bounded(s: Seq<Seq<char>>, p: Seq<char>, max: nat)
    ensures
        add_spec(s, p, max).len() <= max,
{
}

/// Law: with a bound of zero the list is empty after every `add`.
pub proof fn lemma_add_zero_bound(s: Seq<Seq<char>>, p: Seq<char>)
    ensures
        add_spec(s, p, 0) == Seq::<Seq<char>>::empty(),
{
    assert(add_spec(s, p, 0) =~= Seq::<Seq<char>>::empty());
}

/// `s` holds no path twice.
pub open spec fn no_dups(s: Seq<Seq<char>>) -> bool {
    forall|i: int, j: int| 0 <= i < j < s.len() ==> s[i] != s[j]
}

/// The paths of `ps` in order of their last occurrence, oldest first: what an
/// unbounded recent list would hold after recording each path of `ps` in
/// turn.
pub open spec fn distinct_recent(ps: Seq<Seq<char>>) -> Seq<Seq<char>>
    decreases ps.len(),
{
    if ps.len() == 0 {
        Seq::empty()
    } else {
        distinct_recent(ps.drop_last()).filter(keeps(ps.last())).push(ps.last())
    }
}

/// The list that a sequence of `add` calls leaves, starting from `s0`.
pub open spec fn run_adds(s0: Seq<Seq<char>>, ps: Seq<Seq<char>>, max: nat) -> Seq<Seq<char>>
    decreases ps.len(),
{
    if ps.len() == 0 {
        s0
    } else {
        add_spec(run_adds(s0, ps.drop_last(), max), ps.last(), max)
    }
}

/// Filtering cannot introduce a duplicate.
proof fn lemma_filter_no_dups(s: Seq<Seq<char>>, pred: spec_fn(Seq<char>) -> bool)
    requires
        no_dups(s),
    ensures
        no_dups(s.filter(pred)),
    decreases s.len(),
{
    broadcast use vstd::seq_lib::group_filter_ensures;

    if s.len() > 0 {
        let d = s.drop_last();
        let l = s.last();
        assert(no_dups(d));
        lemma_filter_no_dups(d, pred);
        assert(s =~= d.push(l));
        d.lemma_filter_push(l, pred);
        if pred(l) {
            assert(forall|j: int| 0 <= j < d.len() ==> d[j] != l);
            assert forall|j: int| 0 <= j < d.filter(pred).len() implies d.filter(pred)[j]
                != l by {
                let x = d.filter(pred)[j];
                assert(d.filter(pred).contains(x));
                d.lemma_filter_contains_rev(pred, x);
                let w = choose|w: int| 0 <= w < d.len() && d[w] == x;
                assert(d[w] != l);
            }
        }
    }
}

/// Filtering one path out shortens the list by exactly its occurrences.
proof fn lemma_filter_ne_len(s: Seq<Seq<char>>, p: Seq<char>)
    ensures
        s.filter(keeps(p)).len() == s.len() - occurrences(s, p),
    decreases s.len(),
{
    if s.len() > 0 {
        let d = s.drop_last();
        lemma_filter_ne_len(d, p);
        assert(s =~= d.push(s.last()));
        d.lemma_filter_push(s.last(), keeps(p));
    }
}

/// A list with no duplicates holds a path at most once.
proof fn lemma_no_dups_occurrences(s: Seq<Seq<char>>, p: Seq<char>)
    requires
        no_dups(s),
    ensures
        occurrences(s, p) <= 1,
    decreases s.len(),
{
    if s.len() > 0 {
        let d = s.drop_last();
        assert(no_dups(d));
        if s.last() == p {
            assert(forall|j: int| 0 <= j < d.len() ==> d[j] != p);
            lemma_occurrences_none(d, p);
        } else {
            lemma_no_dups_occurrences(d, p);
        }
    }
}

/// What an unbounded recent list holds is free of duplicates.
proof fn lemma_distinct_recent_no_dups(ps: Seq<Seq<char>>)
    ensures
        no_dups(distinct_recent(ps)),
    decreases ps.len(),
{
    broadcast use vstd::seq_lib::group_filter_ensures;

    if ps.len() > 0 {
        let p = ps.last();
        let d = distinct_recent(ps.drop_last());
        lemma_distinct_recent_no_dups(ps.drop_last());
        lemma_filter_no_dups(d, keeps(p));
        let f = d.filter(keeps(p));
        assert(forall|j: int| 0 <= j < f.len() ==> f[j] != p);
        assert(no_dups(f.push(p)));
    }
}

/// Evicting from a list with an irrelevant prefix: once the suffix alone
/// fills the bound, the prefix never survives eviction.
proof fn lemma_evicted_long_suffix(a: Seq<Seq<char>>, c: Seq<Seq<char>>, max: nat)
    requires
        c.len() >= max,
    ensures
        evicted(a + c, max) == evicted(c, max),
{
    if (a + c).len() <= max {
        assert(a.len() == 0);
        assert(a + c =~= c);
    } else {
        assert(evicted(a + c, max) =~= evicted(c, max));
    }
}

/// One `add` on an evicted list leaves the same list as evicting after an
/// unbounded add: eviction loses nothing that later survives.
proof fn lemma_add_evicted(d: Seq<Seq<char>>, p: Seq<char>, max: nat)
    requires
        no_dups(d),
    ensures
        add_spec(evicted(d, max), p, max) == evicted(d.filter(keeps(p)).push(p), max),
{
    broadcast use vstd::seq_lib::group_filter_ensures;

    if d.len() <= max {
        assert(evicted(d, max) == d);
    } else {
        let k = d.len() - max;
        let e = d.skip(k);
        assert(evicted(d, max) == e);
        assert(no_dups(e));
        assert(d =~= d.take(k) + e);
        Seq::filter_distributes_over_add(d.take(k), e, keeps(p));
        let a = d.take(k).filter(keeps(p));
        let b = e.filter(keeps(p));
        lemma_no_dups_occurrences(e, p);
        lemma_filter_ne_len(e, p);
        assert(b.len() >= max - 1);
        assert((a + b).push(p) =~= a + b.push(p));
        lemma_evicted_long_suffix(a, b.push(p), max);
        assert(add_spec(e, p, max) == evicted(b.push(p), max));
        assert(d.filter(keeps(p)).push(p) == (a + b).push(p));
    }
}

/// Law: a list grown from empty by any sequence of `add` calls holds exactly
/// the most recently added distinct paths that fit the bound, in the order of
/// their last add.
pub proof fn lemma_run_adds_mru(ps: Seq<Seq<char>>, max: nat)
    ensures
        run_adds(Seq::empty(), ps, max) == evicted(distinct_recent(ps), max),
        run_adds(Seq::empty(), ps, max).len() <= max || ps.len() == 0,
    decreases ps.len(),
{
    if ps.len() == 0 {
    } else {
        let rest = ps.drop_last();
        let p = ps.last();
        lemma_run_adds_mru(rest, max);
        lemma_distinct_recent_no_dups(rest);
        lemma_add_evicted(distinct_recent(rest), p, max);
    }
}

} // verus!
