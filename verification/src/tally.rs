//! How often each method occurs, in the order of the methods' names.
use vstd::prelude::*;
use crate::text::{chars_of, same};

verus! {

/// The order in which strings compare: character by character, a prefix first.
pub open spec fn precedes(a: Seq<char>, b: Seq<char>) -> bool
    decreases a.len(),
{
    if b.len() == 0 {
        false
    } else if a.len() == 0 {
        true
    } else if a[0] == b[0] {
        precedes(a.drop_first(), b.drop_first())
    } else {
        a[0] < b[0]
    }
}

/// Of two different texts exactly one precedes the other.
pub proof fn lemma_precedes_total(a: Seq<char>, b: Seq<char>)
    ensures
        precedes(a, b) ==> !precedes(b, a) && a != b,
        a != b ==> precedes(a, b) || precedes(b, a),
    decreases a.len(),
{
    if a.len() > 0 && b.len() > 0 && a[0] == b[0] {
        lemma_precedes_total(a.drop_first(), b.drop_first());
        if a.drop_first() == b.drop_first() {
            assert(a =~= seq![a[0]] + a.drop_first());
            assert(b =~= seq![b[0]] + b.drop_first());
        }
    } else if a.len() == 0 && b.len() == 0 {
        assert(a =~= b);
    }
}

/// The order of texts is transitive.
pub proof fn lemma_precedes_transitive(a: Seq<char>, b: Seq<char>, c: Seq<char>)
    requires
        precedes(a, b),
        precedes(b, c),
    ensures
        precedes(a, c),
    decreases a.len(),
{
    if a.len() > 0 && a[0] == b[0] && b[0] == c[0] {
        lemma_precedes_transitive(a.drop_first(), b.drop_first(), c.drop_first());
    }
}

/// Tells whether `a` comes before `b`.
pub fn is_before(a: &str, b: &str) -> (r: bool)
    ensures
        r == precedes(a@, b@),
{
    let v = chars_of(a);
    let w = chars_of(b);
    let mut i: usize = 0;
    assert(a@.skip(0) =~= a@);
    assert(b@.skip(0) =~= b@);
    while i < v.len() && i < w.len()
        invariant
            v@ == a@,
            w@ == b@,
            i <= v@.len(),
            i <= w@.len(),
            precedes(a@, b@) == precedes(a@.skip(i as int), b@.skip(i as int)),
        decreases v@.len() - i,
    {
        if v[i] != w[i] {
            return v[i] < w[i];
        }
        assert(a@.skip(i as int).drop_first() =~= a@.skip(i + 1));
        assert(b@.skip(i as int).drop_first() =~= b@.skip(i + 1));
        i += 1;
    }
    i < w.len()
}

/// Names with their counts.
pub type Entries = Seq<(Seq<char>, nat)>;

/// Whether the names of `e` ascend; so no name stands twice.
pub open spec fn ascending(e: Entries) -> bool {
    forall|i: int, j: int| 0 <= i < j < e.len() ==> precedes(#[trigger] e[i].0, #[trigger] e[j].0)
}

/// The counts by name.
pub open spec fn map_of(e: Entries) -> Map<Seq<char>, nat>
    decreases e.len(),
{
    if e.len() == 0 {
        Map::empty()
    } else {
        map_of(e.drop_last()).insert(e.last().0, e.last().1)
    }
}

/// The counts of `m`, listed in the order of their names.
pub open spec fn entries_of(m: Map<Seq<char>, nat>) -> Entries {
    choose|e: Entries| ascending(e) && #[trigger] map_of(e) == m
}

/// How often each text occurs in `names`.
pub open spec fn tally(names: Seq<Seq<char>>) -> Map<Seq<char>, nat> {
    Map::new(|k: Seq<char>| names.contains(k), |k: Seq<char>| names.to_multiset().count(k))
}

/// `m` with one more occurrence of `name`.
pub open spec fn counted(m: Map<Seq<char>, nat>, name: Seq<char>) -> Map<Seq<char>, nat> {
    m.insert(
        name,
        if m.contains_key(name) {
            m[name] + 1
        } else {
            1
        },
    )
}

/// What `map_of` holds of ascending entries.
proof fn lemma_map_of(e: Entries)
    requires
        ascending(e),
    ensures
        forall|i: int| 0 <= i < e.len() ==> map_of(e).contains_key(#[trigger] e[i].0) && map_of(
            e,
        )[e[i].0] == e[i].1,
        forall|k: Seq<char>| #[trigger]
            map_of(e).contains_key(k) ==> exists|i: int| 0 <= i < e.len() && #[trigger] e[i].0 == k,
    decreases e.len(),
{
    if e.len() > 0 {
        let d = e.drop_last();
        lemma_map_of(d);
        assert forall|i: int| 0 <= i < e.len() implies map_of(e).contains_key(#[trigger] e[i].0)
            && map_of(e)[e[i].0] == e[i].1 by {
            if i < d.len() {
                assert(e[i] == d[i]);
                lemma_precedes_total(e[i].0, e.last().0);
            }
        }
        assert forall|k: Seq<char>| #[trigger] map_of(e).contains_key(k) implies exists|i: int|
            0 <= i < e.len() && #[trigger] e[i].0 == k by {
            if k == e.last().0 {
                assert(e[e.len() - 1].0 == k);
            } else {
                assert(map_of(d).contains_key(k));
                let i = choose|i: int| 0 <= i < d.len() && #[trigger] d[i].0 == k;
                assert(e[i].0 == k);
            }
        }
    }
}

/// Ascending entries are settled by their counts.
proof fn lemma_map_of_injective(e: Entries, f: Entries)
    requires
        ascending(e),
        ascending(f),
        map_of(e) == map_of(f),
    ensures
        e == f,
    decreases e.len(),
{
    lemma_map_of(e);
    lemma_map_of(f);
    if e.len() == 0 {
        if f.len() > 0 {
            assert(map_of(f).contains_key(f[0].0));
        }
        assert(e =~= f);
    } else {
        assert(map_of(e).contains_key(e[e.len() - 1].0));
        let j = choose|j: int| 0 <= j < f.len() && #[trigger] f[j].0 == e.last().0;
        assert(map_of(f).contains_key(f[f.len() - 1].0));
        let i = choose|i: int| 0 <= i < e.len() && #[trigger] e[i].0 == f.last().0;
        if i < e.len() - 1 {
            assert(precedes(e[i].0, e[e.len() - 1].0));
            if j < f.len() - 1 {
                assert(precedes(f[j].0, f[f.len() - 1].0));
                lemma_precedes_total(e.last().0, f.last().0);
            }
            lemma_precedes_total(e.last().0, f.last().0);
        }
        let k = e.last().0;
        assert(k == f.last().0);
        let d = e.drop_last();
        let g = f.drop_last();
        lemma_map_of(d);
        lemma_map_of(g);
        lemma_last_is_new(e);
        lemma_last_is_new(f);
        assert(map_of(d) =~= map_of(e).remove(k));
        assert(map_of(g) =~= map_of(f).remove(k));
        lemma_map_of_injective(d, g);
        assert(e =~= d.push(e.last()));
        assert(f =~= g.push(f.last()));
    }
}

/// The last of ascending entries is not among those before it.
proof fn lemma_last_is_new(e: Entries)
    requires
        ascending(e),
        e.len() > 0,
    ensures
        !map_of(e.drop_last()).contains_key(e.last().0),
{
    let d = e.drop_last();
    lemma_map_of(d);
    if map_of(d).contains_key(e.last().0) {
        let i = choose|i: int| 0 <= i < d.len() && #[trigger] d[i].0 == e.last().0;
        assert(precedes(e[i].0, e[e.len() - 1].0));
        lemma_precedes_total(e[i].0, e.last().0);
    }
}

/// There is one list of ascending entries, and no other, with given counts.
pub proof fn lemma_entries_of(e: Entries)
    requires
        ascending(e),
    ensures
        entries_of(map_of(e)) == e,
{
    let f = entries_of(map_of(e));
    assert(ascending(f) && map_of(f) == map_of(e));
    lemma_map_of_injective(e, f);
}

/// One more name counts once more.
pub proof fn lemma_tally_push(names: Seq<Seq<char>>, name: Seq<char>)
    ensures
        tally(names.push(name)) == counted(tally(names), name),
{
    broadcast use vstd::seq_lib::group_to_multiset_ensures;

    let all = names.push(name);
    names.to_multiset_ensures();
    assert(all.to_multiset() == names.to_multiset().insert(name));
    assert(all[names.len() as int] == name);
    assert forall|k: Seq<char>| tally(all).contains_key(k) == counted(
        tally(names),
        name,
    ).contains_key(k) by {
        if names.contains(k) {
            let i = choose|i: int| 0 <= i < names.len() && names[i] == k;
            assert(all[i] == k);
        }
        if all.contains(k) && k != name {
            let i = choose|i: int| 0 <= i < all.len() && all[i] == k;
            assert(names[i] == k);
        }
    }
    assert(!names.contains(name) ==> names.to_multiset().count(name) == 0);
    assert(tally(all) =~= counted(tally(names), name));
}

/// Counting the name of an entry once more keeps the order.
proof fn lemma_recounted(e: Entries, p: int)
    requires
        ascending(e),
        0 <= p < e.len(),
    ensures
        ascending(e.update(p, (e[p].0, e[p].1 + 1))),
        map_of(e.update(p, (e[p].0, e[p].1 + 1))) == counted(map_of(e), e[p].0),
{
    let name = e[p].0;
    let f = e.update(p, (name, e[p].1 + 1));
    assert forall|i: int, j: int| 0 <= i < j < f.len() implies precedes(
        #[trigger] f[i].0,
        #[trigger] f[j].0,
    ) by {
        assert(f[i].0 == e[i].0 && f[j].0 == e[j].0);
    }
    lemma_map_of(e);
    lemma_map_of(f);
    assert(map_of(e).contains_key(e[p].0));
    assert forall|k: Seq<char>| map_of(f).contains_key(k) == map_of(e).contains_key(k) by {
        if map_of(f).contains_key(k) {
            let i = choose|i: int| 0 <= i < f.len() && #[trigger] f[i].0 == k;
            assert(map_of(e).contains_key(e[i].0));
        }
        if map_of(e).contains_key(k) {
            let i = choose|i: int| 0 <= i < e.len() && #[trigger] e[i].0 == k;
            assert(map_of(f).contains_key(f[i].0));
        }
    }
    assert forall|k: Seq<char>| map_of(f).contains_key(k) implies #[trigger] map_of(f)[k]
        == counted(map_of(e), name)[k] by {
        let i = choose|i: int| 0 <= i < f.len() && #[trigger] f[i].0 == k;
        assert(map_of(f)[f[i].0] == f[i].1);
        assert(map_of(e)[e[i].0] == e[i].1);
        assert(map_of(e)[e[p].0] == e[p].1);
        if i != p && k == name {
            lemma_precedes_total(f[i].0, f[p].0);
        }
    }
    assert(map_of(f) =~= counted(map_of(e), name));
}

/// Putting a new name in its place keeps the order.
proof fn lemma_inserted(e: Entries, p: int, name: Seq<char>)
    requires
        ascending(e),
        0 <= p <= e.len(),
        forall|i: int| 0 <= i < p ==> precedes(#[trigger] e[i].0, name),
        p < e.len() ==> !precedes(e[p].0, name) && e[p].0 != name,
    ensures
        ascending(e.insert(p, (name, 1))),
        map_of(e.insert(p, (name, 1))) == counted(map_of(e), name),
{
    let f = e.insert(p, (name, 1));
    if p < e.len() {
        lemma_precedes_total(e[p].0, name);
    }
    assert forall|i: int| p <= i < e.len() implies precedes(name, #[trigger] e[i].0) by {
        if i > p {
            lemma_precedes_transitive(name, e[p].0, e[i].0);
        }
    }
    assert forall|i: int, j: int| 0 <= i < j < f.len() implies precedes(
        #[trigger] f[i].0,
        #[trigger] f[j].0,
    ) by {
        if i < p && j < p {
            assert(f[i] == e[i] && f[j] == e[j]);
        } else if i < p && j == p {
            assert(f[i] == e[i]);
        } else if i < p {
            assert(f[i] == e[i] && f[j] == e[j - 1]);
        } else if i == p {
            assert(f[j] == e[j - 1]);
        } else {
            assert(f[i] == e[i - 1] && f[j] == e[j - 1]);
        }
    }
    lemma_map_of(e);
    lemma_map_of(f);
    assert(!map_of(e).contains_key(name)) by {
        if map_of(e).contains_key(name) {
            let i = choose|i: int| 0 <= i < e.len() && #[trigger] e[i].0 == name;
            lemma_precedes_total(e[i].0, name);
        }
    }
    assert forall|k: Seq<char>|
        map_of(f).contains_key(k) == counted(map_of(e), name).contains_key(k) by {
        if map_of(f).contains_key(k) {
            let i = choose|i: int| 0 <= i < f.len() && #[trigger] f[i].0 == k;
            if i < p {
                assert(map_of(e).contains_key(e[i].0));
            } else if i > p {
                assert(map_of(e).contains_key(e[i - 1].0));
            }
        }
        if map_of(e).contains_key(k) {
            let i = choose|i: int| 0 <= i < e.len() && #[trigger] e[i].0 == k;
            if i < p {
                assert(map_of(f).contains_key(f[i].0));
            } else {
                assert(map_of(f).contains_key(f[i + 1].0));
            }
        }
        assert(map_of(f).contains_key(f[p].0));
    }
    assert forall|k: Seq<char>| map_of(f).contains_key(k) implies #[trigger] map_of(f)[k]
        == counted(map_of(e), name)[k] by {
        let i = choose|i: int| 0 <= i < f.len() && #[trigger] f[i].0 == k;
        assert(map_of(f)[f[i].0] == f[i].1);
        if i < p {
            assert(map_of(e)[e[i].0] == e[i].1);
        } else if i > p {
            assert(map_of(e)[e[i - 1].0] == e[i - 1].1);
        }
    }
    assert(map_of(f) =~= counted(map_of(e), name));
}

/// The sum of the counts.
pub open spec fn total(e: Entries) -> nat
    decreases e.len(),
{
    if e.len() == 0 {
        0
    } else {
        total(e.drop_last()) + e.last().1
    }
}

/// One more count adds one to the sum.
proof fn lemma_total_recounted(e: Entries, p: int)
    requires
        0 <= p < e.len(),
    ensures
        total(e.update(p, (e[p].0, e[p].1 + 1))) == total(e) + 1,
    decreases e.len(),
{
    let f = e.update(p, (e[p].0, e[p].1 + 1));
    let d = e.drop_last();
    if p < d.len() {
        lemma_total_recounted(d, p);
        assert(f.drop_last() =~= d.update(p, (d[p].0, d[p].1 + 1)));
    } else {
        assert(f.drop_last() =~= d);
    }
}

/// A new name adds one to the sum.
proof fn lemma_total_inserted(e: Entries, p: int, name: Seq<char>)
    requires
        0 <= p <= e.len(),
    ensures
        total(e.insert(p, (name, 1))) == total(e) + 1,
    decreases e.len(),
{
    let f = e.insert(p, (name, 1));
    if p < e.len() {
        lemma_total_inserted(e.drop_last(), p, name);
        assert(f.drop_last() =~= e.drop_last().insert(p, (name, 1)));
    } else {
        assert(f.drop_last() =~= e);
    }
}

/// The place of `name` among ascending entries.
proof fn lemma_place(e: Entries, name: Seq<char>) -> (p: int)
    requires
        ascending(e),
    ensures
        0 <= p <= e.len(),
        forall|i: int| 0 <= i < p ==> precedes(#[trigger] e[i].0, name),
        p < e.len() ==> !precedes(e[p].0, name),
    decreases e.len(),
{
    if e.len() == 0 {
        0
    } else {
        let d = e.drop_last();
        let p = lemma_place(d, name);
        assert forall|i: int| 0 <= i < p implies precedes(#[trigger] e[i].0, name) by {
            assert(d[i] == e[i]);
        }
        if p == d.len() && precedes(e.last().0, name) {
            e.len() as int
        } else {
            p
        }
    }
}

/// The counts of `names` are listed in ascending order, each name with the
/// number of times that it occurs, and together they account for all of `names`.
pub proof fn law_tally(names: Seq<Seq<char>>)
    ensures
        ascending(entries_of(tally(names))),
        map_of(entries_of(tally(names))) == tally(names),
        total(entries_of(tally(names))) == names.len(),
        forall|i: int|
            0 <= i < entries_of(tally(names)).len() ==> {
                &&& names.contains((#[trigger] entries_of(tally(names))[i]).0)
                &&& entries_of(tally(names))[i].1 == names.to_multiset().count(
                    entries_of(tally(names))[i].0,
                )
            },
        forall|k: int|
            0 <= k < names.len() ==> exists|i: int|
                0 <= i < entries_of(tally(names)).len() && entries_of(tally(names))[i].0
                    == #[trigger] names[k] && entries_of(tally(names))[i].1 > 0,
    decreases names.len(),
{
    if names.len() == 0 {
        let e: Entries = Seq::empty();
        assert(tally(names) =~= map_of(e));
        lemma_entries_of(e);
    } else {
        let d = names.drop_last();
        let name = names.last();
        law_tally(d);
        lemma_tally_push(d, name);
        assert(names =~= d.push(name));
        let e = entries_of(tally(d));
        let p = lemma_place(e, name);
        if p < e.len() && e[p].0 == name {
            lemma_recounted(e, p);
            lemma_total_recounted(e, p);
            lemma_entries_of(e.update(p, (e[p].0, e[p].1 + 1)));
        } else {
            lemma_inserted(e, p, name);
            lemma_total_inserted(e, p, name);
            lemma_entries_of(e.insert(p, (name, 1)));
        }
    }
    let e = entries_of(tally(names));
    lemma_map_of(e);
    assert forall|i: int| 0 <= i < e.len() implies names.contains((#[trigger] e[i]).0) && e[i].1
        == names.to_multiset().count(e[i].0) by {
        assert(map_of(e).contains_key(e[i].0));
    }
    assert forall|k: int| 0 <= k < names.len() implies exists|i: int|
        0 <= i < e.len() && e[i].0 == #[trigger] names[k] && e[i].1 > 0 by {
        broadcast use vstd::seq_lib::group_to_multiset_ensures;

        assert(names.contains(names[k]));
        assert(map_of(e).contains_key(names[k]));
        let i = choose|i: int| 0 <= i < e.len() && #[trigger] e[i].0 == names[k];
        assert(names.to_multiset().count(names[k]) > 0);
        assert(e[i].1 > 0);
    }
}

/// Counts by method, kept in the order of the methods.
pub struct MethodCounts {
    entries: Vec<(String, usize)>,
}

/// The contents of a list of entries.
pub open spec fn entry_texts(v: Seq<(String, usize)>) -> Entries {
    v.map_values(|e: (String, usize)| (e.0@, e.1 as nat))
}

impl View for MethodCounts {
    type V = Map<Seq<char>, nat>;

    closed spec fn view(&self) -> Map<Seq<char>, nat> {
        map_of(entry_texts(self.entries@))
    }
}

impl MethodCounts {
    /// The methods ascend.
    pub closed spec fn wf(&self) -> bool {
        ascending(entry_texts(self.entries@))
    }

    /// The counts are listed, each once, in the order of their methods.
    pub proof fn law_counts_are_listed(&self)
        requires
            self.wf(),
        ensures
            ascending(entries_of(self@)),
            map_of(entries_of(self@)) == self@,
    {
        lemma_entries_of(entry_texts(self.entries@));
    }

    /// No counts.
    pub fn new() -> (r: MethodCounts)
        ensures
            r.wf(),
            r@ == Map::<Seq<char>, nat>::empty(),
    {
        MethodCounts { entries: Vec::new() }
    }

    /// The counts, in the order of the methods.
    pub fn entries(&self) -> (r: &Vec<(String, usize)>)
        requires
            self.wf(),
        ensures
            entry_texts(r@) == entries_of(self@),
            ascending(entry_texts(r@)),
            map_of(entry_texts(r@)) == self@,
    {
        proof {
            self.law_counts_are_listed();
            lemma_entries_of(entry_texts(self.entries@));
        }
        &self.entries
    }

    /// Counts `method` once more.
    pub fn increment(&mut self, method: &str)
        requires
            old(self).wf(),
            old(self)@.contains_key(method@) ==> old(self)@[method@] < usize::MAX,
        ensures
            final(self).wf(),
            final(self)@ == counted(old(self)@, method@),
    {
        let n: usize = self.entries.len();
        let ghost e = entry_texts(self.entries@);
        proof {
            lemma_map_of(e);
        }
        let mut p: usize = 0;
        while p < n && is_before(self.entries[p].0.as_str(), method)
            invariant
                p <= n == self.entries@.len(),
                e == entry_texts(self.entries@),
                forall|i: int| 0 <= i < p ==> precedes(#[trigger] e[i].0, method@),
            decreases n - p,
        {
            p += 1;
        }
        let found = p < n && same(self.entries[p].0.as_str(), method);
        if found {
            let count: usize = self.entries[p].1;
            assert(map_of(e).contains_key(e[p as int].0));
            self.entries.set(p, (method.to_owned(), count + 1));
            proof {
                assert(entry_texts(self.entries@) =~= e.update(
                    p as int,
                    (method@, (count + 1) as nat),
                ));
                lemma_recounted(e, p as int);
            }
        } else {
            self.entries.insert(p, (method.to_owned(), 1));
            proof {
                assert(entry_texts(self.entries@) =~= e.insert(p as int, (method@, 1)));
                lemma_inserted(e, p as int, method@);
            }
        }
    }
}

/// Counting a name once more adds one to its count, which is none at first, and
/// leaves all others as they are.
pub proof fn law_counted(m: Map<Seq<char>, nat>, name: Seq<char>, other: Seq<char>)
    ensures
        counted(m, name).contains_key(name),
        m.contains_key(name) ==> counted(m, name)[name] == m[name] + 1,
        !m.contains_key(name) ==> counted(m, name)[name] == 1,
        other != name ==> counted(m, name).contains_key(other) == m.contains_key(other),
        other != name && m.contains_key(other) ==> counted(m, name)[other] == m[other],
{
}

/// Texts are in the order of the first characters in which they differ, and a
/// text comes before what it is the beginning of.
pub proof fn law_precedes(p: Seq<char>, a: char, b: char, x: Seq<char>, y: Seq<char>)
    ensures
        a != b ==> precedes(p + seq![a] + x, p + seq![b] + y) == (a < b),
        precedes(p, p + seq![b] + y),
        !precedes(p + x, p),
    decreases p.len(),
{
    if p.len() == 0 {
        assert(p + seq![a] + x =~= seq![a] + x);
        assert(p + seq![b] + y =~= seq![b] + y);
        assert((seq![a] + x)[0] == a && (seq![b] + y)[0] == b);
    } else {
        let d = p.drop_first();
        law_precedes(d, a, b, x, y);
        assert((p + seq![a] + x).drop_first() =~= d + seq![a] + x);
        assert((p + seq![b] + y).drop_first() =~= d + seq![b] + y);
        assert((p + x).drop_first() =~= d + x);
    }
}

} // verus!
