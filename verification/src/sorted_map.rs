//! A map that keeps its keys in order, over any key with a total order.
use crate::text;
use crate::text::Rank;
use vstd::prelude::*;
use vstd::std_specs::vec::*;

verus! {

/// A key of a [`SortedMap`]: values with the same model are the same key.
pub trait SortKey: Sized {
    /// What a key stands for.
    type Model;

    /// What a key is looked up by.
    type Probe: ?Sized;

    spec fn model(&self) -> Self::Model;

    spec fn probe_model(p: &Self::Probe) -> Self::Model;

    /// The order of keys.
    spec fn below(a: Self::Model, b: Self::Model) -> bool;

    proof fn below_irreflexive(a: Self::Model)
        ensures
            !Self::below(a, a),
    ;

    proof fn below_transitive(a: Self::Model, b: Self::Model, c: Self::Model)
        requires
            Self::below(a, b),
            Self::below(b, c),
        ensures
            Self::below(a, c),
    ;

    fn probe(&self) -> (p: &Self::Probe)
        ensures
            Self::probe_model(p) == self.model(),
    ;

    /// How this key stands to the one looked for.
    fn rank(&self, p: &Self::Probe) -> (r: Rank)
        ensures
            match r {
                Rank::Less => Self::below(self.model(), Self::probe_model(p)),
                Rank::Equal => self.model() == Self::probe_model(p),
                Rank::Greater => Self::below(Self::probe_model(p), self.model()),
            },
    ;
}

impl SortKey for String {
    type Model = Seq<char>;

    type Probe = str;

    open spec fn model(&self) -> Seq<char> {
        self@
    }

    open spec fn probe_model(p: &str) -> Seq<char> {
        p@
    }

    open spec fn below(a: Seq<char>, b: Seq<char>) -> bool {
        text::before(a, b)
    }

    proof fn below_irreflexive(a: Seq<char>) {
        text::before_irreflexive(a);
    }

    proof fn below_transitive(a: Seq<char>, b: Seq<char>, c: Seq<char>) {
        text::before_transitive(a, b, c);
    }

    fn probe(&self) -> (p: &str) {
        self.as_str()
    }

    fn rank(&self, p: &str) -> (r: Rank) {
        text::rank(self.as_str(), p)
    }
}

/// The keys of `keys` strictly increase.
pub open spec fn increasing<K: SortKey>(keys: Seq<K::Model>) -> bool {
    forall|i: int, j: int| 0 <= i < j < keys.len() ==> K::below(#[trigger] keys[i], #[trigger] keys[j])
}

/// Strictly increasing keys are all different.
pub proof fn increasing_distinct<K: SortKey>(keys: Seq<K::Model>)
    requires
        increasing::<K>(keys),
    ensures
        keys.no_duplicates(),
{
    assert forall|i: int, j: int| 0 <= i < keys.len() && 0 <= j < keys.len() && i != j implies keys[i]
        != keys[j] by {
        K::below_irreflexive(keys[i]);
        if i < j {
            assert(K::below(keys[i], keys[j]));
        } else {
            assert(K::below(keys[j], keys[i]));
        }
    }
}

/// The map that a list of entries stands for.
pub open spec fn map_of<M, V>(entries: Seq<(M, V)>) -> Map<M, V> {
    Map::new(
        |k: M| keys_of(entries).contains(k),
        |k: M| entries[keys_of(entries).index_of(k)].1,
    )
}

/// The keys of a list of entries.
pub open spec fn keys_of<M, V>(entries: Seq<(M, V)>) -> Seq<M> {
    entries.map_values(|e: (M, V)| e.0)
}

/// The map of a list of entries with distinct keys has each of them.
pub proof fn map_of_at<M, V>(entries: Seq<(M, V)>, i: int)
    requires
        0 <= i < entries.len(),
        keys_of(entries).no_duplicates(),
    ensures
        map_of(entries).dom().contains(entries[i].0),
        map_of(entries)[entries[i].0] == entries[i].1,
{
    let keys = keys_of(entries);
    assert(keys[i] == entries[i].0);
    assert(keys.contains(entries[i].0));
    assert(keys.index_of(entries[i].0) == i);
}

/// The entries that `keep` holds for, in their order.
pub open spec fn kept<M, V>(entries: Seq<(M, V)>, keep: spec_fn(V) -> bool) -> Seq<(M, V)>
    decreases entries.len(),
{
    if entries.len() == 0 {
        entries
    } else if keep(entries.last().1) {
        kept(entries.drop_last(), keep).push(entries.last())
    } else {
        kept(entries.drop_last(), keep)
    }
}

/// The entries that are kept are those of the list that `keep` holds for.
pub proof fn kept_entries<M, V>(entries: Seq<(M, V)>, keep: spec_fn(V) -> bool)
    ensures
        kept(entries, keep).len() <= entries.len(),
        forall|j: int|
            0 <= j < kept(entries, keep).len() ==> keep((#[trigger] kept(entries, keep)[j]).1)
                && entries.contains(kept(entries, keep)[j]),
        forall|i: int|
            0 <= i < entries.len() && keep((#[trigger] entries[i]).1) ==> kept(
                entries,
                keep,
            ).contains(entries[i]),
    decreases entries.len(),
{
    if entries.len() > 0 {
        let rest = entries.drop_last();
        kept_entries(rest, keep);
        let now = kept(entries, keep);
        let was = kept(rest, keep);
        assert forall|j: int| 0 <= j < now.len() implies keep((#[trigger] now[j]).1)
            && entries.contains(now[j]) by {
            if j < was.len() {
                assert(now[j] == was[j]);
                assert(rest.contains(was[j]));
                let i = choose|i: int| 0 <= i < rest.len() && rest[i] == was[j];
                assert(entries[i] == now[j]);
            } else {
                assert(now[j] == entries[entries.len() - 1]);
            }
        }
        assert forall|i: int| 0 <= i < entries.len() && keep((#[trigger] entries[i]).1) implies now.contains(
            entries[i],
        ) by {
            if i < rest.len() {
                assert(rest[i] == entries[i]);
                let j = choose|j: int| 0 <= j < was.len() && was[j] == rest[i];
                assert(now[j] == entries[i]);
            } else {
                assert(now[was.len() as int] == entries[i]);
            }
        }
    }
}

/// A map of kept entries has the keys whose values are kept, with those
/// values.
pub proof fn kept_map<M, V>(entries: Seq<(M, V)>, keep: spec_fn(V) -> bool)
    requires
        keys_of(entries).no_duplicates(),
        keys_of(kept(entries, keep)).no_duplicates(),
    ensures
        map_of(kept(entries, keep)) == Map::new(
            |k: M| map_of(entries).dom().contains(k) && keep(map_of(entries)[k]),
            |k: M| map_of(entries)[k],
        ),
{
    kept_entries(entries, keep);
    let now = kept(entries, keep);
    let want = Map::new(
        |k: M| map_of(entries).dom().contains(k) && keep(map_of(entries)[k]),
        |k: M| map_of(entries)[k],
    );
    assert forall|k: M| #[trigger] map_of(now).dom().contains(k) implies want.dom().contains(k)
        && map_of(now)[k] == want[k] by {
        let j = choose|j: int| 0 <= j < now.len() && keys_of(now)[j] == k;
        assert(now[j].0 == k);
        map_of_at(now, j);
        assert(entries.contains(now[j]));
        let i = choose|i: int| 0 <= i < entries.len() && entries[i] == now[j];
        map_of_at(entries, i);
    }
    assert forall|k: M| #[trigger] want.dom().contains(k) implies map_of(now).dom().contains(k) by {
        let i = choose|i: int| 0 <= i < entries.len() && keys_of(entries)[i] == k;
        assert(entries[i].0 == k);
        map_of_at(entries, i);
        assert(now.contains(entries[i]));
        let j = choose|j: int| 0 <= j < now.len() && now[j] == entries[i];
        map_of_at(now, j);
    }
    assert(map_of(now) =~= want);
}

/// A map in the order of its keys.
#[derive(Debug)]
pub struct SortedMap<K: SortKey, V> {
    items: Vec<(K, V)>,
}

/// A map from strings.
pub type StrMap<V> = SortedMap<String, V>;

impl<K: SortKey, V> View for SortedMap<K, V> {
    type V = Map<K::Model, V>;

    open spec fn view(&self) -> Map<K::Model, V> {
        map_of(self.entries())
    }
}

impl<K: SortKey, V> SortedMap<K, V> {
    /// Keys with their values, in the order of the keys.
    pub closed spec fn entries(&self) -> Seq<(K::Model, V)> {
        self.items@.map_values(|e: (K, V)| (e.0.model(), e.1))
    }

    /// The keys, in order.
    pub open spec fn keys(&self) -> Seq<K::Model> {
        keys_of(self.entries())
    }

    #[verifier::type_invariant]
    spec fn in_order(self) -> bool {
        increasing::<K>(self.keys())
    }

    /// A map without keys.
    pub fn new() -> (m: Self)
        ensures
            m.entries() == Seq::<(K::Model, V)>::empty(),
            m@ == Map::<K::Model, V>::empty(),
    {
        let m = SortedMap { items: Vec::new() };
        assert(m.entries() =~= Seq::empty());
        assert(m@ =~= Map::empty());
        m
    }

    /// The number of keys; they strictly increase and make up the domain.
    pub fn len(&self) -> (n: usize)
        ensures
            n == self.entries().len(),
            increasing::<K>(self.keys()),
            self.keys().no_duplicates(),
            forall|i: int|
                0 <= i < self.entries().len() ==> self@.dom().contains(
                    (#[trigger] self.entries()[i]).0,
                ) && self@[self.entries()[i].0] == self.entries()[i].1,
            n == 0 ==> self@ == Map::<K::Model, V>::empty(),
    {
        proof {
            use_type_invariant(self);
            increasing_distinct::<K>(self.keys());
            assert forall|i: int| 0 <= i < self.entries().len() implies self@.dom().contains(
                (#[trigger] self.entries()[i]).0,
            ) && self@[self.entries()[i].0] == self.entries()[i].1 by {
                map_of_at(self.entries(), i);
            }
            if self.entries().len() == 0 {
                assert(self@ =~= Map::empty());
            }
        }
        self.items.len()
    }

    /// Whether there are no keys.
    pub fn is_empty(&self) -> (r: bool)
        ensures
            r == (self@ == Map::<K::Model, V>::empty()),
            r == (self.entries().len() == 0),
    {
        proof {
            if self.entries().len() == 0 {
                assert(self@ =~= Map::empty());
            } else {
                assert(self.keys()[0] == self.entries()[0].0);
                assert(self@.dom().contains(self.entries()[0].0));
            }
        }
        self.items.len() == 0
    }

    /// Where `k` stands, or where it would stand.
    fn find(&self, k: &K::Probe) -> (r: (bool, usize))
        ensures
            r.1 <= self.entries().len(),
            r.0 ==> r.1 < self.entries().len() && self.keys()[r.1 as int] == K::probe_model(k),
            !r.0 ==> !self.keys().contains(K::probe_model(k)),
            forall|j: int| 0 <= j < r.1 ==> K::below(#[trigger] self.keys()[j], K::probe_model(k)),
            !r.0 ==> forall|j: int|
                r.1 <= j < self.keys().len() ==> K::below(
                    K::probe_model(k),
                    #[trigger] self.keys()[j],
                ),
    {
        let ghost m = K::probe_model(k);
        let mut i: usize = 0;
        while i < self.items.len()
            invariant
                i <= self.items@.len(),
                m == K::probe_model(k),
                forall|j: int| 0 <= j < i ==> K::below(#[trigger] self.keys()[j], m),
            decreases self.items@.len() - i,
        {
            match self.items[i].0.rank(k) {
                Rank::Equal => {
                    assert(self.keys()[i as int] == m);
                    return (true, i);
                },
                Rank::Greater => {
                    proof {
                        use_type_invariant(self);
                        assert(self.keys()[i as int] == self.items@[i as int].0.model());
                        assert forall|j: int| i <= j < self.keys().len() implies K::below(
                            m,
                            #[trigger] self.keys()[j],
                        ) by {
                            if j > i {
                                K::below_transitive(m, self.keys()[i as int], self.keys()[j]);
                            }
                        }
                        Self::between_is_absent(self.keys(), m, i as int);
                    }
                    return (false, i);
                },
                Rank::Less => {
                    assert(self.keys()[i as int] == self.items@[i as int].0.model());
                },
            }
            i += 1;
        }
        proof {
            Self::between_is_absent(self.keys(), m, i as int);
        }
        (false, i)
    }

    proof fn between_is_absent(keys: Seq<K::Model>, m: K::Model, at: int)
        requires
            0 <= at <= keys.len(),
            forall|j: int| 0 <= j < at ==> K::below(#[trigger] keys[j], m),
            forall|j: int| at <= j < keys.len() ==> K::below(m, #[trigger] keys[j]),
        ensures
            !keys.contains(m),
    {
        K::below_irreflexive(m);
        if keys.contains(m) {
            let j = choose|j: int| 0 <= j < keys.len() && keys[j] == m;
            if j < at {
                assert(K::below(keys[j], m));
            } else {
                assert(K::below(m, keys[j]));
            }
        }
    }

    /// The value of `k`.
    pub fn get(&self, k: &K::Probe) -> (r: Option<&V>)
        ensures
            match r {
                Some(v) => self@.dom().contains(K::probe_model(k)) && *v == self@[K::probe_model(k)],
                None => !self@.dom().contains(K::probe_model(k)),
            },
    {
        let (found, i) = self.find(k);
        if found {
            proof {
                use_type_invariant(self);
                increasing_distinct::<K>(self.keys());
                map_of_at(self.entries(), i as int);
            }
            Some(&self.items[i].1)
        } else {
            None
        }
    }

    /// Whether `k` is a key.
    pub fn contains_key(&self, k: &K::Probe) -> (r: bool)
        ensures
            r == self@.dom().contains(K::probe_model(k)),
    {
        let (found, i) = self.find(k);
        proof {
            if found {
                assert(self.keys()[i as int] == K::probe_model(k));
            }
        }
        found
    }

    /// The key at place `i` of the order.
    pub fn key_at(&self, i: usize) -> (k: &K)
        requires
            i < self.entries().len(),
        ensures
            k.model() == self.entries()[i as int].0,
            k.model() == self.keys()[i as int],
    {
        &self.items[i].0
    }

    /// The value of the key at place `i` of the order.
    pub fn value_at(&self, i: usize) -> (v: &V)
        requires
            i < self.entries().len(),
        ensures
            *v == self.entries()[i as int].1,
    {
        &self.items[i].1
    }

    /// Gives `k` the value `v`, and returns the value it had.
    pub fn insert(&mut self, k: K, v: V) -> (r: Option<V>)
        ensures
            final(self)@ == old(self)@.insert(k.model(), v),
            final(self)@.dom() == old(self)@.dom().insert(k.model()),
            match r {
                Some(w) => old(self)@.dom().contains(k.model()) && w == old(self)@[k.model()],
                None => !old(self)@.dom().contains(k.model()),
            },
    {
        let (found, i) = self.find(k.probe());
        let ghost entries = self.entries();
        let ghost m = k.model();
        proof {
            use_type_invariant(&*self);
            increasing_distinct::<K>(self.keys());
        }
        let mut items: Vec<(K, V)> = Vec::new();
        std::mem::swap(&mut items, &mut self.items);
        if found {
            let ghost now = entries.update(i as int, (m, v));
            let (_, w) = items.remove(i);
            items.insert(i, (k, v));
            proof {
                let e = items@.map_values(|e: (K, V)| (e.0.model(), e.1));
                assert(e =~= now);
                assert(keys_of(now) =~= keys_of(entries));
                map_of_at(entries, i as int);
                Self::set_entry(entries, i as int, v);
            }
            self.items = items;
            Some(w)
        } else {
            let ghost now = entries.insert(i as int, (m, v));
            items.insert(i, (k, v));
            proof {
                let e = items@.map_values(|e: (K, V)| (e.0.model(), e.1));
                assert(e =~= now);
                Self::add_entry(entries, i as int, m, v);
            }
            self.items = items;
            None
        }
    }

    pub(crate) proof fn set_entry(entries: Seq<(K::Model, V)>, i: int, v: V)
        requires
            0 <= i < entries.len(),
            keys_of(entries).no_duplicates(),
        ensures
            map_of(entries.update(i, (entries[i].0, v))) == map_of(entries).insert(entries[i].0, v),
    {
        let now = entries.update(i, (entries[i].0, v));
        assert(keys_of(now) =~= keys_of(entries));
        assert(keys_of(entries)[i] == entries[i].0);
        assert(map_of(now) =~= map_of(entries).insert(entries[i].0, v)) by {
            assert forall|q: K::Model| map_of(now).dom().contains(q) implies map_of(now)[q] == map_of(
                entries,
            ).insert(entries[i].0, v)[q] by {
                let j = keys_of(entries).index_of(q);
                assert(0 <= j < entries.len() && keys_of(entries)[j] == q);
                if q == entries[i].0 {
                    assert(j == i);
                }
            }
        }
    }

    proof fn add_entry(entries: Seq<(K::Model, V)>, i: int, m: K::Model, v: V)
        requires
            0 <= i <= entries.len(),
            increasing::<K>(keys_of(entries)),
            !keys_of(entries).contains(m),
            forall|j: int| 0 <= j < i ==> K::below(#[trigger] keys_of(entries)[j], m),
            forall|j: int| i <= j < entries.len() ==> K::below(m, #[trigger] keys_of(entries)[j]),
        ensures
            increasing::<K>(keys_of(entries.insert(i, (m, v)))),
            map_of(entries.insert(i, (m, v))) == map_of(entries).insert(m, v),
    {
        let now = entries.insert(i, (m, v));
        let was = keys_of(entries);
        let keys = keys_of(now);
        assert(keys =~= was.insert(i, m));
        assert forall|a: int, b: int| 0 <= a < b < keys.len() implies K::below(
            #[trigger] keys[a],
            #[trigger] keys[b],
        ) by {
            let oa = if a < i { a } else { a - 1 };
            let ob = if b < i { b } else { b - 1 };
            if a == i {
                assert(keys[b] == was[ob]);
            } else if b == i {
                assert(keys[a] == was[oa]);
            } else {
                assert(keys[a] == was[oa]);
                assert(keys[b] == was[ob]);
            }
        }
        increasing_distinct::<K>(was);
        increasing_distinct::<K>(keys);
        assert(map_of(now) =~= map_of(entries).insert(m, v)) by {
            assert forall|q: K::Model| map_of(now).dom().contains(q) == map_of(entries).insert(
                m,
                v,
            ).dom().contains(q) by {
                if keys.contains(q) && q != m {
                    let j = choose|j: int| 0 <= j < keys.len() && keys[j] == q;
                    let o = if j < i { j } else { j - 1 };
                    assert(was[o] == q);
                }
                if was.contains(q) {
                    let j = choose|j: int| 0 <= j < was.len() && was[j] == q;
                    let o = if j < i { j } else { j + 1 };
                    assert(keys[o] == q);
                }
                assert(keys[i] == m);
            }
            assert forall|q: K::Model| map_of(now).dom().contains(q) implies map_of(now)[q] == map_of(
                entries,
            ).insert(m, v)[q] by {
                let j = keys.index_of(q);
                assert(0 <= j < keys.len() && keys[j] == q);
                if q == m {
                    assert(keys[i] == m);
                    assert(j == i);
                } else {
                    let o = if j < i { j } else { j - 1 };
                    assert(was[o] == q);
                    map_of_at(entries, o);
                }
            }
        }
    }

    /// Takes `k` out, and returns the value it had.
    pub fn remove(&mut self, k: &K::Probe) -> (r: Option<V>)
        ensures
            final(self)@ == old(self)@.remove(K::probe_model(k)),
            match r {
                Some(w) => old(self)@.dom().contains(K::probe_model(k)) && w == old(self)@[K::probe_model(k)],
                None => !old(self)@.dom().contains(K::probe_model(k)) && *final(self) == *old(self),
            },
    {
        let (found, i) = self.find(k);
        if found {
            proof {
                use_type_invariant(&*self);
                increasing_distinct::<K>(self.keys());
                map_of_at(self.entries(), i as int);
                Self::drop_entry(self.entries(), i as int);
            }
            Some(self.remove_at(i))
        } else {
            assert(self@.remove(K::probe_model(k)) =~= self@);
            None
        }
    }

    /// Takes out the key at place `i` of the order, and returns its value.
    pub fn remove_at(&mut self, i: usize) -> (v: V)
        requires
            i < old(self).entries().len(),
        ensures
            final(self).entries() == old(self).entries().remove(i as int),
            final(self)@ == old(self)@.remove(old(self).entries()[i as int].0),
            v == old(self).entries()[i as int].1,
    {
        let ghost entries = self.entries();
        proof {
            use_type_invariant(&*self);
            Self::drop_entry(entries, i as int);
        }
        let mut items: Vec<(K, V)> = Vec::new();
        std::mem::swap(&mut items, &mut self.items);
        let (_, v) = items.remove(i);
        assert(items@.map_values(|e: (K, V)| (e.0.model(), e.1)) =~= entries.remove(i as int));
        self.items = items;
        v
    }

    /// Takes out the key at place `i` of the order with its value.
    pub fn take_at(&mut self, i: usize) -> (e: (K, V))
        requires
            i < old(self).entries().len(),
        ensures
            final(self).entries() == old(self).entries().remove(i as int),
            (e.0.model(), e.1) == old(self).entries()[i as int],
            increasing::<K>(old(self).keys()),
    {
        let ghost entries = self.entries();
        proof {
            use_type_invariant(&*self);
            Self::drop_entry(entries, i as int);
        }
        let mut items: Vec<(K, V)> = Vec::new();
        std::mem::swap(&mut items, &mut self.items);
        let e = items.remove(i);
        assert(items@.map_values(|e: (K, V)| (e.0.model(), e.1)) =~= entries.remove(i as int));
        self.items = items;
        e
    }

    /// Puts a key with its value at place `i` of the order, where it fits.
    pub fn put_at(&mut self, i: usize, k: K, v: V)
        requires
            i <= old(self).entries().len(),
            increasing::<K>(keys_of(old(self).entries().insert(i as int, (k.model(), v)))),
        ensures
            final(self).entries() == old(self).entries().insert(i as int, (k.model(), v)),
    {
        let ghost entries = self.entries();
        let mut items: Vec<(K, V)> = Vec::new();
        std::mem::swap(&mut items, &mut self.items);
        items.insert(i, (k, v));
        assert(items@.map_values(|e: (K, V)| (e.0.model(), e.1)) =~= entries.insert(
            i as int,
            (k.model(), v),
        ));
        self.items = items;
    }

    /// Gives the key at place `i` of the order another value.
    pub fn set_at(&mut self, i: usize, v: V)
        requires
            i < old(self).entries().len(),
        ensures
            final(self).entries() == old(self).entries().update(
                i as int,
                (old(self).entries()[i as int].0, v),
            ),
            final(self).keys() == old(self).keys(),
            final(self)@ == old(self)@.insert(old(self).entries()[i as int].0, v),
    {
        let ghost entries = self.entries();
        proof {
            use_type_invariant(&*self);
            increasing_distinct::<K>(self.keys());
            Self::set_entry(entries, i as int, v);
        }
        let mut items: Vec<(K, V)> = Vec::new();
        std::mem::swap(&mut items, &mut self.items);
        let (k, _) = items.remove(i);
        items.insert(i, (k, v));
        proof {
            let now = items@.map_values(|e: (K, V)| (e.0.model(), e.1));
            assert(now =~= entries.update(i as int, (entries[i as int].0, v)));
            assert(keys_of(now) =~= keys_of(entries));
        }
        self.items = items;
    }

    proof fn drop_entry(entries: Seq<(K::Model, V)>, i: int)
        requires
            0 <= i < entries.len(),
            increasing::<K>(keys_of(entries)),
        ensures
            increasing::<K>(keys_of(entries.remove(i))),
            map_of(entries.remove(i)) == map_of(entries).remove(entries[i].0),
    {
        let now = entries.remove(i);
        let was = keys_of(entries);
        let keys = keys_of(now);
        assert(keys =~= was.remove(i));
        increasing_distinct::<K>(was);
        assert forall|a: int, b: int| 0 <= a < b < keys.len() implies K::below(
            #[trigger] keys[a],
            #[trigger] keys[b],
        ) by {
            let oa = if a < i { a } else { a + 1 };
            let ob = if b < i { b } else { b + 1 };
            assert(keys[a] == was[oa]);
            assert(keys[b] == was[ob]);
        }
        increasing_distinct::<K>(keys);
        assert(map_of(now) =~= map_of(entries).remove(entries[i].0)) by {
            assert(was[i] == entries[i].0);
            assert forall|q: K::Model| map_of(now).dom().contains(q) == map_of(entries).remove(
                entries[i].0,
            ).dom().contains(q) by {
                if keys.contains(q) {
                    let j = choose|j: int| 0 <= j < keys.len() && keys[j] == q;
                    let o = if j < i { j } else { j + 1 };
                    assert(was[o] == q);
                }
                if was.contains(q) && q != was[i] {
                    let j = choose|j: int| 0 <= j < was.len() && was[j] == q;
                    let o = if j < i { j } else { j - 1 };
                    assert(keys[o] == q);
                }
            }
            assert forall|q: K::Model| map_of(now).dom().contains(q) implies map_of(now)[q] == map_of(
                entries,
            ).remove(entries[i].0)[q] by {
                let j = keys.index_of(q);
                assert(0 <= j < keys.len() && keys[j] == q);
                let o = if j < i { j } else { j + 1 };
                assert(was[o] == q);
                map_of_at(entries, o);
            }
        }
    }
}

/// Keeping the entries whose value passes keeps them in order and no others.
pub proof fn kept_is_what_passes<M, V>(entries: Seq<(M, V)>, keep: spec_fn(V) -> bool)
    ensures
        kept(entries, keep) == entries.filter(|e: (M, V)| keep(e.1)),
    decreases entries.len(),
{
    reveal(Seq::filter);
    if entries.len() > 0 {
        kept_is_what_passes(entries.drop_last(), keep);
    }
    assert(kept(entries, keep) =~= entries.filter(|e: (M, V)| keep(e.1)));
}

} // verus!
