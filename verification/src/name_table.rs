//! A table from names to inode numbers that is kept in the order of the names.
//!
//! It stands where an ordered map keyed by strings would stand: a name is bound
//! at most once, a later binding of a name replaces the earlier one, and the
//! bindings are listed in the order of their names.

use vstd::prelude::*;
use crate::names::{
    lemma_name_before_asymmetric,
    lemma_name_before_irreflexive,
    lemma_name_before_total,
    lemma_name_before_transitive,
    name_before,
    rank_names,
    Rank,
};

verus! {

/// One binding of a table as the contracts see it: the name's text and the
/// inode number.
pub type Bound = (Seq<char>, u64);

/// Whether the names of `l` strictly increase: each name occurs once, and the
/// sequence is in the order of the names.
pub open spec fn in_name_order(l: Seq<Bound>) -> bool {
    forall|i: int, j: int| #![trigger l[i], l[j]] 0 <= i < j < l.len() ==> name_before(l[i].0, l[j].0)
}

/// Whether some binding of `l` is for `name`.
pub open spec fn binds(l: Seq<Bound>, name: Seq<char>) -> bool {
    exists|i: int| 0 <= i < l.len() && (#[trigger] l[i]).0 == name
}

/// A position at which `l` binds `name`.
pub open spec fn position_of(l: Seq<Bound>, name: Seq<char>) -> int {
    choose|i: int| 0 <= i < l.len() && (#[trigger] l[i]).0 == name
}

/// The map that the bindings of `l` make.
pub open spec fn bindings(l: Seq<Bound>) -> Map<Seq<char>, u64> {
    Map::new(|name: Seq<char>| binds(l, name), |name: Seq<char>| l[position_of(l, name)].1)
}

/// Whether `l` lists the map `m`: in the order of the names, each binding of
/// `m` once and nothing else.
pub open spec fn is_listing_of(l: Seq<Bound>, m: Map<Seq<char>, u64>) -> bool {
    in_name_order(l) && bindings(l) == m
}

/// In an ordered listing, the binding at each position is what the map holds
/// for its name.
pub proof fn lemma_bindings_at(l: Seq<Bound>, i: int)
    requires
        in_name_order(l),
        0 <= i < l.len(),
    ensures
        bindings(l).contains_key(l[i].0),
        bindings(l)[l[i].0] == l[i].1,
        position_of(l, l[i].0) == i,
{
    let name = l[i].0;
    assert(binds(l, name));
    let k = position_of(l, name);
    if k < i {
        lemma_name_before_irreflexive(name);
        assert(name_before(l[k].0, l[i].0));
    } else if i < k {
        lemma_name_before_irreflexive(name);
        assert(name_before(l[i].0, l[k].0));
    }
}

/// A map has at most one listing.
pub proof fn lemma_listing_unique(a: Seq<Bound>, b: Seq<Bound>, m: Map<Seq<char>, u64>)
    requires
        is_listing_of(a, m),
        is_listing_of(b, m),
    ensures
        a == b,
    decreases a.len(),
{
    if a.len() == 0 {
        if b.len() > 0 {
            lemma_bindings_at(b, 0);
            assert(binds(a, b[0].0));
        }
    } else if b.len() == 0 {
        lemma_bindings_at(a, 0);
        assert(binds(b, a[0].0));
    } else {
        // The last bindings are the same: each holds the greatest name.
        let x = a.last();
        let y = b.last();
        lemma_bindings_at(a, a.len() - 1);
        lemma_bindings_at(b, b.len() - 1);
        assert(binds(b, x.0));
        assert(binds(a, y.0));
        let kx = position_of(b, x.0);
        let ky = position_of(a, y.0);
        lemma_name_before_total(x.0, y.0);
        if name_before(x.0, y.0) {
            if ky < a.len() - 1 {
                assert(name_before(a[ky].0, a[a.len() - 1].0));
                lemma_name_before_asymmetric(x.0, y.0);
            }
            lemma_name_before_irreflexive(x.0);
        } else if name_before(y.0, x.0) {
            if kx < b.len() - 1 {
                assert(name_before(b[kx].0, b[b.len() - 1].0));
                lemma_name_before_asymmetric(y.0, x.0);
            }
            lemma_name_before_irreflexive(y.0);
        }
        assert(x.0 == y.0);
        assert(x == y);
        let a0 = a.drop_last();
        let b0 = b.drop_last();
        let m0 = m.remove(x.0);
        lemma_listing_drop_last(a);
        lemma_listing_drop_last(b);
        lemma_listing_unique(a0, b0, m0);
        assert(a == a0.push(x));
        assert(b == b0.push(y));
    }
}

/// Without its last binding, an ordered listing lists the map without the
/// greatest name.
pub proof fn lemma_listing_drop_last(l: Seq<Bound>)
    requires
        in_name_order(l),
        l.len() > 0,
    ensures
        in_name_order(l.drop_last()),
        bindings(l.drop_last()) == bindings(l).remove(l.last().0),
{
    let front = l.drop_last();
    let last = l.last();
    assert forall|i: int, j: int| #![trigger front[i], front[j]] 0 <= i < j < front.len() implies name_before(
        front[i].0,
        front[j].0,
    ) by {
        assert(name_before(l[i].0, l[j].0));
    }
    assert forall|name: Seq<char>| #[trigger]
        bindings(front).contains_key(name) == bindings(l).remove(last.0).contains_key(name) by {
        if binds(front, name) {
            let k = position_of(front, name);
            assert(l[k].0 == name);
            assert(name_before(l[k].0, l[l.len() - 1].0));
            lemma_name_before_asymmetric(name, last.0);
        }
        if binds(l, name) && name != last.0 {
            let k = position_of(l, name);
            assert(front[k].0 == name);
        }
    }
    assert forall|name: Seq<char>| #[trigger] bindings(front).contains_key(name) implies bindings(
        front,
    )[name] == bindings(l).remove(last.0)[name] by {
        let k = position_of(front, name);
        lemma_bindings_at(front, k);
        assert(l[k] == front[k]);
        lemma_bindings_at(l, k);
    }
    assert(bindings(front) =~= bindings(l).remove(last.0));
}

/// A table from names to inode numbers, in the order of the names.
#[derive(Debug)]
pub struct NameTable {
    entries: Vec<(String, u64)>,
}

impl View for NameTable {
    type V = Map<Seq<char>, u64>;

    open spec fn view(&self) -> Map<Seq<char>, u64> {
        bindings(self.listing())
    }
}

impl NameTable {
    /// The bindings, in the order in which the table lists them.
    pub closed spec fn listing(&self) -> Seq<Bound> {
        self.entries@.map_values(|e: (String, u64)| (e.0@, e.1))
    }

    /// The invariant of the table: its names strictly increase.
    pub open spec fn wf(&self) -> bool {
        in_name_order(self.listing())
    }

    /// A table without bindings.
    pub fn new() -> (t: NameTable)
        ensures
            t.wf(),
            t.listing() == Seq::<Bound>::empty(),
            t@ == Map::<Seq<char>, u64>::empty(),
    {
        let t = NameTable { entries: Vec::new() };
        proof {
            assert(t.listing() == Seq::<Bound>::empty());
            assert(t@ =~= Map::<Seq<char>, u64>::empty());
        }
        t
    }

    /// The number of bindings.
    pub fn len(&self) -> (n: usize)
        ensures
            n == self.listing().len(),
    {
        self.entries.len()
    }

    /// The name and the inode number of the binding at position `i` of the
    /// listing.
    pub fn entry(&self, i: usize) -> (r: (&String, u64))
        requires
            i < self.listing().len(),
        ensures
            r.0@ == self.listing()[i as int].0,
            r.1 == self.listing()[i as int].1,
    {
        (&self.entries[i].0, self.entries[i].1)
    }

    /// Where `name` stands in the listing: the position of its binding and
    /// `true`, or the position at which a binding for it would have to be
    /// put and `false`.
    fn position(&self, name: &str) -> (r: (usize, bool))
        requires
            self.wf(),
        ensures
            r.0 <= self.listing().len(),
            r.1 ==> r.0 < self.listing().len() && self.listing()[r.0 as int].0 == name@,
            !r.1 ==> !binds(self.listing(), name@),
            !r.1 ==> forall|j: int|
                0 <= j < r.0 ==> name_before((#[trigger] self.listing()[j]).0, name@),
            !r.1 ==> forall|j: int|
                r.0 <= j < self.listing().len() ==> name_before(
                    name@,
                    (#[trigger] self.listing()[j]).0,
                ),
    {
        let ghost l = self.listing();
        let mut low: usize = 0;
        let mut high: usize = self.entries.len();
        while low < high
            invariant
                self.wf(),
                l == self.listing(),
                low <= high <= l.len(),
                forall|j: int| 0 <= j < low ==> name_before((#[trigger] l[j]).0, name@),
                forall|j: int| high <= j < l.len() ==> name_before(name@, (#[trigger] l[j]).0),
            decreases high - low,
        {
            let mid = low + (high - low) / 2;
            match rank_names(self.entries[mid].0.as_str(), name) {
                Rank::Same => {
                    return (mid, true);
                },
                Rank::Before => {
                    proof {
                        assert forall|j: int| 0 <= j < mid + 1 implies name_before(
                            (#[trigger] l[j]).0,
                            name@,
                        ) by {
                            if j < mid {
                                assert(name_before(l[j].0, l[mid as int].0));
                                lemma_name_before_transitive(l[j].0, l[mid as int].0, name@);
                            }
                        }
                    }
                    low = mid + 1;
                },
                Rank::After => {
                    proof {
                        assert forall|j: int| mid <= j < l.len() implies name_before(
                            name@,
                            (#[trigger] l[j]).0,
                        ) by {
                            if mid < j {
                                assert(name_before(l[mid as int].0, l[j].0));
                                lemma_name_before_transitive(name@, l[mid as int].0, l[j].0);
                            }
                        }
                    }
                    high = mid;
                },
            }
        }
        proof {
            if binds(l, name@) {
                let k = position_of(l, name@);
                lemma_name_before_irreflexive(name@);
            }
        }
        (low, false)
    }

    /// The inode number that `name` is bound to, if it is bound.
    pub fn get(&self, name: &str) -> (r: Option<u64>)
        requires
            self.wf(),
        ensures
            r == self@.get(name@),
    {
        let (at, found) = self.position(name);
        if found {
            proof {
                lemma_bindings_at(self.listing(), at as int);
            }
            Some(self.entries[at].1)
        } else {
            None
        }
    }

    /// Binds `name` to `inode`, in place of an earlier binding of the name if
    /// there is one. Returns the inode number that the name was bound to
    /// before.
    pub fn insert(&mut self, name: String, inode: u64) -> (r: Option<u64>)
        requires
            old(self).wf(),
        ensures
            final(self).wf(),
            final(self)@ == old(self)@.insert(name@, inode),
            r == old(self)@.get(name@),
            final(self).listing().len() == old(self).listing().len() + (if r is Some {
                0int
            } else {
                1int
            }),
    {
        let ghost before = self.listing();
        let ghost text = name@;
        let (at, found) = self.position(name.as_str());
        if found {
            let previous = self.entries[at].1;
            self.entries[at] = (name, inode);
            proof {
                let after = self.listing();
                assert(after == before.update(at as int, (text, inode)));
                lemma_bindings_at(before, at as int);
                lemma_updated(before, at as int, inode);
            }
            Some(previous)
        } else {
            self.entries.insert(at, (name, inode));
            proof {
                let after = self.listing();
                assert(after == before.insert(at as int, (text, inode)));
                lemma_inserted(before, at as int, text, inode);
            }
            None
        }
    }
}

/// Giving the binding at position `at` another inode number keeps the order
/// and binds its name anew.
proof fn lemma_updated(l: Seq<Bound>, at: int, inode: u64)
    requires
        in_name_order(l),
        0 <= at < l.len(),
    ensures
        in_name_order(l.update(at, (l[at].0, inode))),
        bindings(l.update(at, (l[at].0, inode))) == bindings(l).insert(l[at].0, inode),
{
    let name = l[at].0;
    let out = l.update(at, (name, inode));
    assert forall|i: int, j: int| #![trigger out[i], out[j]] 0 <= i < j < out.len() implies name_before(
        out[i].0,
        out[j].0,
    ) by {
        assert(name_before(l[i].0, l[j].0));
    }
    let want = bindings(l).insert(name, inode);
    assert forall|n: Seq<char>| #[trigger] bindings(out).contains_key(n) == want.contains_key(
        n,
    ) by {
        if binds(out, n) {
            let k = position_of(out, n);
            assert(l[k].0 == n);
        }
        if binds(l, n) {
            let k = position_of(l, n);
            assert(out[k].0 == n);
        }
        if n == name {
            assert(out[at].0 == n);
        }
    }
    assert forall|n: Seq<char>| #[trigger] bindings(out).contains_key(n) implies bindings(out)[n]
        == want[n] by {
        let k = position_of(out, n);
        lemma_bindings_at(out, k);
        if k != at {
            assert(l[k] == out[k]);
            lemma_bindings_at(l, k);
            lemma_bindings_at(l, at);
            if k < at {
                assert(name_before(l[k].0, l[at].0));
                lemma_name_before_asymmetric(l[k].0, l[at].0);
            } else {
                assert(name_before(l[at].0, l[k].0));
                lemma_name_before_asymmetric(l[at].0, l[k].0);
            }
        }
    }
    assert(bindings(out) =~= want);
}

/// Putting a binding for a new name where the order asks for it keeps the
/// order and adds the binding.
proof fn lemma_inserted(l: Seq<Bound>, at: int, name: Seq<char>, inode: u64)
    requires
        in_name_order(l),
        0 <= at <= l.len(),
        !binds(l, name),
        forall|j: int| 0 <= j < at ==> name_before((#[trigger] l[j]).0, name),
        forall|j: int| at <= j < l.len() ==> name_before(name, (#[trigger] l[j]).0),
    ensures
        in_name_order(l.insert(at, (name, inode))),
        bindings(l.insert(at, (name, inode))) == bindings(l).insert(name, inode),
{
    let out = l.insert(at, (name, inode));
    assert forall|i: int, j: int| #![trigger out[i], out[j]] 0 <= i < j < out.len() implies name_before(
        out[i].0,
        out[j].0,
    ) by {
        let oi = if i < at { i } else { i - 1 };
        let oj = if j < at { j } else { j - 1 };
        if i == at {
            assert(out[j] == l[oj]);
        } else if j == at {
            assert(out[i] == l[oi]);
        } else {
            assert(out[i] == l[oi]);
            assert(out[j] == l[oj]);
            assert(name_before(l[oi].0, l[oj].0));
        }
    }
    let want = bindings(l).insert(name, inode);
    assert forall|n: Seq<char>| #[trigger] bindings(out).contains_key(n) == want.contains_key(
        n,
    ) by {
        if binds(out, n) && n != name {
            let k = position_of(out, n);
            let ok = if k < at { k } else { k - 1 };
            assert(out[k] == l[ok]);
        }
        if binds(l, n) {
            let k = position_of(l, n);
            let nk = if k < at { k } else { k + 1 };
            assert(out[nk] == l[k]);
        }
        if n == name {
            assert(out[at].0 == n);
        }
    }
    assert forall|n: Seq<char>| #[trigger] bindings(out).contains_key(n) implies bindings(out)[n]
        == want[n] by {
        let k = position_of(out, n);
        lemma_bindings_at(out, k);
        if k != at {
            let ok = if k < at { k } else { k - 1 };
            assert(out[k] == l[ok]);
            lemma_bindings_at(l, ok);
        }
    }
    assert(bindings(out) =~= want);
}

} // verus!
