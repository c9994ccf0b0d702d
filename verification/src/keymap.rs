//! A small map kept as a list of entries with distinct keys.
use vstd::prelude::*;
use crate::text::{chars_eq, chars_of};

verus! {

/// A key type: what a key denotes, and an equality test on that.
pub trait MapKey: Sized {
    type KeyView;

    spec fn kview(&self) -> Self::KeyView;

    fn key_eq(&self, other: &Self) -> (r: bool)
        ensures
            r == (self.kview() == other.kview()),
    ;
}

impl MapKey for String {
    type KeyView = Seq<char>;

    open spec fn kview(&self) -> Seq<char> {
        self@
    }

    fn key_eq(&self, other: &Self) -> (r: bool) {
        let a = chars_of(self.as_str());
        let b = chars_of(other.as_str());
        chars_eq(a.as_slice(), b.as_slice())
    }
}

/// Values that lapse: whether one is still in force at an instant.
pub trait Expiring: Sized {
    spec fn active_at(&self, now: i128) -> bool;

    fn is_active_at(&self, now: i128) -> (r: bool)
        ensures
            r == self.active_at(now),
    ;
}

/// A map from keys to `V`; no key occurs twice among the entries.
#[derive(Debug)]
pub struct KeyMap<K, V> {
    entries: Vec<(K, V)>,
}

/// Whether some entry has the key `k`.
pub open spec fn entry_has<K: MapKey, V>(s: Seq<(K, V)>, k: K::KeyView) -> bool {
    exists|i: int| 0 <= i < s.len() && #[trigger] s[i].0.kview() == k
}

/// The position of the entry with key `k`.
pub open spec fn entry_pos<K: MapKey, V>(s: Seq<(K, V)>, k: K::KeyView) -> int {
    choose|i: int| 0 <= i < s.len() && #[trigger] s[i].0.kview() == k
}

/// The map that a list of entries denotes.
pub open spec fn entries_map<K: MapKey, V>(s: Seq<(K, V)>) -> Map<K::KeyView, V> {
    Map::new(|k: K::KeyView| entry_has(s, k), |k: K::KeyView| s[entry_pos(s, k)].1)
}

/// No key occurs twice.
pub open spec fn distinct_keys<K: MapKey, V>(s: Seq<(K, V)>) -> bool {
    forall|i: int, j: int|
        0 <= i < s.len() && 0 <= j < s.len() && i != j ==> #[trigger] s[i].0.kview()
            != #[trigger] s[j].0.kview()
}

impl<K: MapKey, V> KeyMap<K, V> {
    pub closed spec fn view(&self) -> Map<K::KeyView, V> {
        entries_map(self.entries@)
    }

    pub closed spec fn wf(&self) -> bool {
        distinct_keys(self.entries@)
    }

    pub fn new() -> (r: Self)
        ensures
            r.wf(),
            r.view() == Map::<K::KeyView, V>::empty(),
    {
        let r = KeyMap { entries: Vec::new() };
        assert(r.view() =~= Map::<K::KeyView, V>::empty());
        r
    }

    fn position(&self, k: &K) -> (r: Option<usize>)
        requires
            self.wf(),
        ensures
            r matches Some(i) ==> i < self.entries@.len() && self.entries@[i as int].0.kview() == k.kview(),
            r is None ==> !entry_has(self.entries@, k.kview()),
    {
        let mut i: usize = 0;
        while i < self.entries.len()
            invariant
                i <= self.entries@.len(),
                forall|j: int| 0 <= j < i ==> self.entries@[j].0.kview() != k.kview(),
            decreases self.entries@.len() - i,
        {
            if self.entries[i].0.key_eq(k) {
                return Some(i);
            }
            i = i + 1;
        }
        None
    }

    proof fn lemma_value_at(&self, i: int)
        requires
            self.wf(),
            0 <= i < self.entries@.len(),
        ensures
            self.view().contains_key(self.entries@[i].0.kview()),
            self.view()[self.entries@[i].0.kview()] == self.entries@[i].1,
    {
        let s = self.entries@;
        let k = s[i].0.kview();
        assert(entry_has(s, k));
        let p = entry_pos(s, k);
        assert(s[p].0.kview() == k);
        assert(p == i);
    }

    pub fn get(&self, k: &K) -> (r: Option<&V>)
        requires
            self.wf(),
        ensures
            r matches Some(v) ==> self.view().contains_key(k.kview()) && self.view()[k.kview()] == *v,
            r is None ==> !self.view().contains_key(k.kview()),
    {
        match self.position(k) {
            Some(i) => {
                proof {
                    self.lemma_value_at(i as int);
                }
                Some(&self.entries[i].1)
            },
            None => None,
        }
    }

    pub fn insert(&mut self, k: K, v: V)
        requires
            old(self).wf(),
        ensures
            final(self).wf(),
            final(self).view() == old(self).view().insert(k.kview(), v),
    {
        let ghost old_s = self.entries@;
        let ghost kv = k.kview();
        match self.position(&k) {
            Some(i) => {
                self.entries.set(i, (k, v));
                proof {
                    let s = self.entries@;
                    assert(s =~= old_s.update(i as int, s[i as int]));
                    assert(distinct_keys(s)) by {
                        assert forall|a: int, b: int|
                            0 <= a < s.len() && 0 <= b < s.len() && a != b implies #[trigger] s[a].0.kview()
                            != #[trigger] s[b].0.kview() by {
                            if a != i && b != i {
                                assert(s[a] == old_s[a] && s[b] == old_s[b]);
                            } else if a == i {
                                assert(s[b] == old_s[b]);
                                assert(old_s[i as int].0.kview() != old_s[b].0.kview());
                            } else {
                                assert(s[a] == old_s[a]);
                                assert(old_s[i as int].0.kview() != old_s[a].0.kview());
                            }
                        }
                    }
                    assert forall|key: K::KeyView|
                        #![trigger entry_has(s, key)]
                        entry_has(s, key) == (entry_has(old_s, key) || key == kv) by {
                        if entry_has(old_s, key) {
                            let p = choose|p: int| 0 <= p < old_s.len() && old_s[p].0.kview() == key;
                            if p != i {
                                assert(s[p] == old_s[p]);
                            }
                        }
                        if entry_has(s, key) {
                            let p = choose|p: int| 0 <= p < s.len() && s[p].0.kview() == key;
                            if p != i {
                                assert(s[p] == old_s[p]);
                            }
                        }
                        assert(s[i as int].0.kview() == kv);
                    }
                    assert forall|key: K::KeyView|
                        #![trigger entries_map(s).contains_key(key)]
                        entries_map(s).contains_key(key) && key != kv implies entries_map(s)[key]
                        == entries_map(old_s)[key] by {
                        let p = entry_pos(s, key);
                        let q = entry_pos(old_s, key);
                        assert(p != i);
                        assert(s[p] == old_s[p]);
                        assert(q == p);
                    }
                    self.lemma_value_at(i as int);
                    assert(self.view() =~= old_s_map(old_s).insert(kv, v));
                }
            },
            None => {
                self.entries.push((k, v));
                proof {
                    let s = self.entries@;
                    let n = old_s.len() as int;
                    assert(distinct_keys(s)) by {
                        assert forall|a: int, b: int|
                            0 <= a < s.len() && 0 <= b < s.len() && a != b implies #[trigger] s[a].0.kview()
                            != #[trigger] s[b].0.kview() by {
                            if a < n && b < n {
                                assert(s[a] == old_s[a] && s[b] == old_s[b]);
                            } else if a == n {
                                assert(s[b] == old_s[b]);
                            } else {
                                assert(s[a] == old_s[a]);
                            }
                        }
                    }
                    assert forall|key: K::KeyView|
                        #![trigger entry_has(s, key)]
                        entry_has(s, key) == (entry_has(old_s, key) || key == kv) by {
                        if entry_has(old_s, key) {
                            let p = choose|p: int| 0 <= p < old_s.len() && old_s[p].0.kview() == key;
                            assert(s[p] == old_s[p]);
                        }
                        if entry_has(s, key) {
                            let p = choose|p: int| 0 <= p < s.len() && s[p].0.kview() == key;
                            if p < n {
                                assert(s[p] == old_s[p]);
                            }
                        }
                        assert(s[n].0.kview() == kv);
                    }
                    assert forall|key: K::KeyView|
                        #![trigger entries_map(s).contains_key(key)]
                        entries_map(s).contains_key(key) && key != kv implies entries_map(s)[key]
                        == entries_map(old_s)[key] by {
                        let p = entry_pos(s, key);
                        let q = entry_pos(old_s, key);
                        assert(p != n);
                        assert(s[p] == old_s[p]);
                        assert(q == p);
                    }
                    self.lemma_value_at(n);
                    assert(self.view() =~= old_s_map(old_s).insert(kv, v));
                }
            },
        }
    }

    pub fn remove(&mut self, k: &K)
        requires
            old(self).wf(),
        ensures
            final(self).wf(),
            final(self).view() == old(self).view().remove(k.kview()),
    {
        let ghost old_s = self.entries@;
        match self.position(k) {
            Some(i) => {
                self.entries.remove(i);
                proof {
                    let s = self.entries@;
                    assert(s =~= old_s.remove(i as int));
                    assert(distinct_keys(s)) by {
                        assert forall|a: int, b: int|
                            0 <= a < s.len() && 0 <= b < s.len() && a != b implies #[trigger] s[a].0.kview()
                            != #[trigger] s[b].0.kview() by {
                            let a2 = if a < i { a } else { a + 1 };
                            let b2 = if b < i { b } else { b + 1 };
                            assert(s[a] == old_s[a2] && s[b] == old_s[b2]);
                        }
                    }
                    assert forall|key: K::KeyView|
                        #![trigger entry_has(s, key)]
                        entry_has(s, key) == (entry_has(old_s, key) && key != k.kview()) by {
                        if entry_has(old_s, key) && key != k.kview() {
                            let p = choose|p: int| 0 <= p < old_s.len() && old_s[p].0.kview() == key;
                            assert(p != i);
                            let p2 = if p < i { p } else { p - 1 };
                            assert(s[p2] == old_s[p]);
                        }
                        if entry_has(s, key) {
                            let p = choose|p: int| 0 <= p < s.len() && s[p].0.kview() == key;
                            let p2 = if p < i { p } else { p + 1 };
                            assert(s[p] == old_s[p2]);
                            assert(p2 != i);
                            assert(old_s[p2].0.kview() != old_s[i as int].0.kview());
                        }
                    }
                    assert forall|key: K::KeyView|
                        #![trigger entries_map(s).contains_key(key)]
                        entries_map(s).contains_key(key) implies entries_map(s)[key]
                        == entries_map(old_s)[key] by {
                        let p = entry_pos(s, key);
                        let p2 = if p < i { p } else { p + 1 };
                        assert(s[p] == old_s[p2]);
                        let q = entry_pos(old_s, key);
                        assert(old_s[q].0.kview() == key);
                        assert(q == p2);
                    }
                    assert(self.view() =~= old_s_map(old_s).remove(k.kview()));
                }
            },
            None => {
                assert(self.view() =~= old_s_map(old_s).remove(k.kview()));
            },
        }
    }

}

/// The entries of `s` that are in force at `now`, in order.
pub open spec fn keep_active<K, V: Expiring>(s: Seq<(K, V)>, now: i128) -> Seq<(K, V)>
    decreases s.len(),
{
    if s.len() == 0 {
        s
    } else if s[0].1.active_at(now) {
        seq![s[0]] + keep_active(s.drop_first(), now)
    } else {
        keep_active(s.drop_first(), now)
    }
}

proof fn lemma_keep_active_members<K, V: Expiring>(s: Seq<(K, V)>, now: i128)
    ensures
        forall|x: (K, V)| #[trigger] keep_active(s, now).contains(x) <==> (s.contains(x) && x.1.active_at(now)),
    decreases s.len(),
{
    if s.len() > 0 {
        let t = s.drop_first();
        lemma_keep_active_members(t, now);
        let r = keep_active(t, now);
        assert forall|x: (K, V)| #[trigger] keep_active(s, now).contains(x) <==> (s.contains(x) && x.1.active_at(now)) by {
            let in_s = s.contains(x);
            let in_t = t.contains(x);
            if in_s {
                let p = choose|p: int| 0 <= p < s.len() && s[p] == x;
                if p > 0 {
                    assert(t[p - 1] == x);
                }
            }
            if in_t {
                let p = choose|p: int| 0 <= p < t.len() && t[p] == x;
                assert(s[p + 1] == x);
            }
            assert(in_s <==> (x == s[0] || in_t));
            if s[0].1.active_at(now) {
                let u = seq![s[0]] + r;
                assert(keep_active(s, now) == u);
                if u.contains(x) {
                    let p = choose|p: int| 0 <= p < u.len() && u[p] == x;
                    if p > 0 {
                        assert(r[p - 1] == x);
                    }
                }
                if r.contains(x) {
                    let p = choose|p: int| 0 <= p < r.len() && r[p] == x;
                    assert(u[p + 1] == x);
                }
                if x == s[0] {
                    assert(u[0] == x);
                }
                assert(u.contains(x) <==> (x == s[0] || r.contains(x)));
            } else {
                assert(keep_active(s, now) == r);
            }
        }
    }
}

impl<K: MapKey, V: Expiring> KeyMap<K, V> {
    /// Drops the entries that are no longer in force at `now`.
    pub fn retain_active(&mut self, now: i128)
        requires
            old(self).wf(),
        ensures
            final(self).wf(),
            forall|k: K::KeyView|
                #![trigger final(self).view().contains_key(k)]
                final(self).view().contains_key(k) <==> (old(self).view().contains_key(k) && old(
                    self,
                ).view()[k].active_at(now)),
            forall|k: K::KeyView|
                #![trigger final(self).view().contains_key(k)]
                final(self).view().contains_key(k) ==> final(self).view()[k] == old(self).view()[k],
    {
        let ghost old_s = self.entries@;
        let mut i: usize = self.entries.len();
        assert(old_s.skip(old_s.len() as int) =~= Seq::<(K, V)>::empty());
        assert(old_s.take(old_s.len() as int) =~= old_s);
        while i > 0
            invariant
                i <= old_s.len(),
                self.entries@ == old_s.take(i as int) + keep_active(old_s.skip(i as int), now),
            decreases i,
        {
            i = i - 1;
            assert(old_s.skip(i as int).drop_first() =~= old_s.skip(i + 1));
            assert(old_s.skip(i as int)[0] == old_s[i as int]);
            assert(self.entries@[i as int] == old_s[i as int]);
            if !self.entries[i].1.is_active_at(now) {
                let ghost before = self.entries@;
                self.entries.remove(i);
                assert(self.entries@ =~= old_s.take(i as int) + keep_active(old_s.skip(i as int), now));
            } else {
                assert(old_s.take(i + 1) + keep_active(old_s.skip(i + 1), now) =~= old_s.take(i as int)
                    + keep_active(old_s.skip(i as int), now));
            }
        }
        assert(old_s.take(0) + keep_active(old_s.skip(0), now) =~= keep_active(old_s, now));
        assert(old_s.skip(0) =~= old_s);
        proof {
            let s = self.entries@;
            lemma_keep_active_members(old_s, now);
            assert(distinct_keys(s)) by {
                assert forall|a: int, b: int|
                    0 <= a < s.len() && 0 <= b < s.len() && a != b implies #[trigger] s[a].0.kview()
                    != #[trigger] s[b].0.kview() by {
                    lemma_keep_active_order(old_s, now, a, b);
                }
            }
            assert forall|k: K::KeyView|
                #![trigger entries_map(s).contains_key(k)]
                entries_map(s).contains_key(k) <==> (entries_map(old_s).contains_key(k)
                    && entries_map(old_s)[k].active_at(now)) by {
                if entries_map(s).contains_key(k) {
                    let p = choose|p: int| 0 <= p < s.len() && #[trigger] s[p].0.kview() == k;
                    assert(s.contains(s[p]));
                    let q = choose|q: int| 0 <= q < old_s.len() && old_s[q] == s[p];
                    assert(old_s[q].0.kview() == k);
                    assert(entry_pos(old_s, k) == q);
                }
                if entries_map(old_s).contains_key(k) && entries_map(old_s)[k].active_at(now) {
                    let q = entry_pos(old_s, k);
                    assert(old_s.contains(old_s[q]));
                    assert(s.contains(old_s[q]));
                    let p = choose|p: int| 0 <= p < s.len() && s[p] == old_s[q];
                    assert(s[p].0.kview() == k);
                }
            }
            assert forall|k: K::KeyView|
                #![trigger entries_map(s).contains_key(k)]
                entries_map(s).contains_key(k) implies entries_map(s)[k] == entries_map(old_s)[k] by {
                let p = entry_pos(s, k);
                assert(s.contains(s[p]));
                let q = choose|q: int| 0 <= q < old_s.len() && old_s[q] == s[p];
                assert(old_s[q].0.kview() == k);
                assert(entry_pos(old_s, k) == q);
            }
        }
    }
}

proof fn lemma_keep_active_order<K: MapKey, V: Expiring>(s: Seq<(K, V)>, now: i128, a: int, b: int)
    requires
        distinct_keys(s),
        0 <= a < keep_active(s, now).len(),
        0 <= b < keep_active(s, now).len(),
        a != b,
    ensures
        keep_active(s, now)[a].0.kview() != keep_active(s, now)[b].0.kview(),
    decreases s.len(),
{
    let t = s.drop_first();
    assert(distinct_keys(t)) by {
        assert forall|x: int, y: int|
            0 <= x < t.len() && 0 <= y < t.len() && x != y implies #[trigger] t[x].0.kview()
            != #[trigger] t[y].0.kview() by {
            assert(t[x] == s[x + 1] && t[y] == s[y + 1]);
        }
    }
    lemma_keep_active_members(t, now);
    if s[0].1.active_at(now) {
        let r = keep_active(t, now);
        if a == 0 {
            assert(r.contains(r[b - 1]));
            assert(t.contains(r[b - 1]));
            let q = choose|q: int| 0 <= q < t.len() && t[q] == r[b - 1];
            assert(s[q + 1] == t[q]);
        } else if b == 0 {
            assert(r.contains(r[a - 1]));
            assert(t.contains(r[a - 1]));
            let q = choose|q: int| 0 <= q < t.len() && t[q] == r[a - 1];
            assert(s[q + 1] == t[q]);
        } else {
            lemma_keep_active_order(t, now, a - 1, b - 1);
        }
    } else {
        lemma_keep_active_order(t, now, a, b);
    }
}

spec fn old_s_map<K: MapKey, V>(s: Seq<(K, V)>) -> Map<K::KeyView, V> {
    entries_map(s)
}

} // verus!
