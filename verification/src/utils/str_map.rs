//! A map from strings to values that keeps its keys in insertion order.
use vstd::prelude::*;

verus! {

/// The map that a list of (key, value) entries stands for: a later entry for a key
/// wins over an earlier one.
pub open spec fn entries_map<V>(es: Seq<(Seq<char>, V)>) -> Map<Seq<char>, V>
    decreases es.len(),
{
    if es.len() == 0 {
        Map::empty()
    } else {
        entries_map(es.drop_last()).insert(es.last().0, es.last().1)
    }
}

pub proof fn lemma_entries_map_domain<V>(es: Seq<(Seq<char>, V)>, k: Seq<char>)
    ensures
        entries_map(es).dom().contains(k) <==> exists|i: int| 0 <= i < es.len() && (#[trigger] es[i]).0 == k,
    decreases es.len(),
{
    if es.len() > 0 {
        lemma_entries_map_domain(es.drop_last(), k);
        if entries_map(es.drop_last()).dom().contains(k) {
            let i = choose|i: int| 0 <= i < es.drop_last().len() && (#[trigger] es.drop_last()[i]).0 == k;
            assert(es[i] == es.drop_last()[i]);
        }
        if exists|i: int| 0 <= i < es.len() && (#[trigger] es[i]).0 == k {
            let i = choose|i: int| 0 <= i < es.len() && (#[trigger] es[i]).0 == k;
            if i < es.len() - 1 {
                assert(es.drop_last()[i] == es[i]);
            }
        }
    }
}

/// Without a later entry for its key, the entry at `i` gives the map its value.
pub proof fn lemma_entries_map_last<V>(es: Seq<(Seq<char>, V)>, i: int)
    requires
        0 <= i < es.len(),
        forall|j: int| i < j < es.len() ==> (#[trigger] es[j]).0 != es[i].0,
    ensures
        entries_map(es).dom().contains(es[i].0),
        entries_map(es)[es[i].0] == es[i].1,
    decreases es.len(),
{
    if i < es.len() - 1 {
        let d = es.drop_last();
        assert forall|j: int| i < j < d.len() implies (#[trigger] d[j]).0 != d[i].0 by {
            assert(d[j] == es[j]);
        }
        lemma_entries_map_last(d, i);
        assert(es[es.len() - 1].0 != es[i].0);
    }
}

/// Replacing the entry at `i` (with no later entry for its key) by one for the same
/// key sets that key's value.
pub proof fn lemma_entries_map_update<V>(es: Seq<(Seq<char>, V)>, i: int, v: V)
    requires
        0 <= i < es.len(),
        forall|j: int| i < j < es.len() ==> (#[trigger] es[j]).0 != es[i].0,
    ensures
        entries_map(es.update(i, (es[i].0, v))) == entries_map(es).insert(es[i].0, v),
    decreases es.len(),
{
    let k = es[i].0;
    let es2 = es.update(i, (k, v));
    if i == es.len() - 1 {
        assert(es2.drop_last() == es.drop_last());
        assert(entries_map(es2) == entries_map(es.drop_last()).insert(k, v));
        assert(entries_map(es).insert(k, v) =~= entries_map(es.drop_last()).insert(k, v));
    } else {
        let d = es.drop_last();
        assert forall|j: int| i < j < d.len() implies (#[trigger] d[j]).0 != d[i].0 by {
            assert(d[j] == es[j]);
        }
        lemma_entries_map_update(d, i, v);
        assert(es2.drop_last() == d.update(i, (k, v)));
        let last = es.last();
        assert(es2.last() == last);
        assert(last.0 != k);
        assert(entries_map(es2) =~= entries_map(es).insert(k, v));
    }
}

/// One more entry adds its key and value to the map of those before it.
pub proof fn lemma_entries_map_take<V>(es: Seq<(Seq<char>, V)>, i: int)
    requires
        0 <= i < es.len(),
    ensures
        entries_map(es.take(i + 1)) == entries_map(es.take(i)).insert(es[i].0, es[i].1),
{
    assert(es.take(i + 1).drop_last() =~= es.take(i));
    assert(es.take(i + 1).last() == es[i]);
}

/// Mapping the values of a map after an insert is inserting the mapped value.
pub proof fn lemma_map_values_insert<V, W>(m: Map<Seq<char>, V>, k: Seq<char>, v: V, f: spec_fn(V) -> W)
    ensures
        m.insert(k, v).map_values(f) == m.map_values(f).insert(k, f(v)),
{
    assert(m.insert(k, v).map_values(f) =~= m.map_values(f).insert(k, f(v)));
}

/// A map from strings to values.  The entries keep the order in which their keys
/// were first inserted.
#[derive(Debug)]
pub struct StrMap<V> {
    items: Vec<(String, V)>,
}

/// No key occurs twice.
pub open spec fn unique_keys<V>(es: Seq<(Seq<char>, V)>) -> bool {
    forall|i: int, j: int| 0 <= i < j < es.len() ==> (#[trigger] es[i]).0 != (#[trigger] es[j]).0
}

/// With keys that occur once, the map holds exactly the keys of the entries, each
/// with its entry's value.
pub proof fn lemma_unique_entries<V>(es: Seq<(Seq<char>, V)>)
    requires
        unique_keys(es),
    ensures
        forall|j: int| 0 <= j < es.len() ==> #[trigger] entries_map(es).dom().contains(es[j].0)
            && entries_map(es)[es[j].0] == es[j].1,
        forall|k: Seq<char>| #[trigger] entries_map(es).dom().contains(k) ==> exists|j: int| 0 <= j < es.len() && es[j].0 == k,
        entries_map(es).dom().len() == es.len(),
        entries_map(es).dom().finite(),
    decreases es.len(),
{
    assert forall|j: int| 0 <= j < es.len() implies #[trigger] entries_map(es).dom().contains(es[j].0)
        && entries_map(es)[es[j].0] == es[j].1 by {
        assert forall|k: int| j < k < es.len() implies (#[trigger] es[k]).0 != es[j].0 by {
            assert(es[j].0 != es[k].0);
        }
        lemma_entries_map_last(es, j);
    }
    assert forall|k: Seq<char>| #[trigger] entries_map(es).dom().contains(k) implies exists|j: int| 0 <= j < es.len() && es[j].0 == k by {
        lemma_entries_map_domain(es, k);
    }
    if es.len() > 0 {
        let d = es.drop_last();
        assert(unique_keys(d)) by {
            assert forall|i: int, j: int| 0 <= i < j < d.len() implies (#[trigger] d[i]).0 != (#[trigger] d[j]).0 by {
                assert(d[i] == es[i] && d[j] == es[j]);
            }
        }
        lemma_unique_entries(d);
        let last = es.last();
        assert(!entries_map(d).dom().contains(last.0)) by {
            if entries_map(d).dom().contains(last.0) {
                let j = choose|j: int| 0 <= j < d.len() && d[j].0 == last.0;
                assert(d[j] == es[j]);
            }
        }
        assert(entries_map(es).dom() == entries_map(d).dom().insert(last.0));
    } else {
        assert(entries_map(es).dom() =~= Set::<Seq<char>>::empty());
    }
}

impl<V> StrMap<V> {
    /// No key is stored twice.
    #[verifier::type_invariant]
    spec fn keys_unique(&self) -> bool {
        unique_keys(self.entries())
    }

    /// The entries, keys read as text.
    pub closed spec fn entries(&self) -> Seq<(Seq<char>, V)> {
        self.items@.map_values(|e: (String, V)| (e.0@, e.1))
    }

    /// The map that the entries stand for.
    pub open spec fn view(&self) -> Map<Seq<char>, V> {
        entries_map(self.entries())
    }

    /// An empty map.
    pub fn new() -> (r: Self)
        ensures
            r.entries() == Seq::<(Seq<char>, V)>::empty(),
            r.view() == Map::<Seq<char>, V>::empty(),
    {
        let r = StrMap { items: Vec::new() };
        assert(r.entries() =~= Seq::<(Seq<char>, V)>::empty());
        r
    }

    /// The number of entries.
    pub fn len(&self) -> (r: usize)
        ensures
            r == self.entries().len(),
            unique_keys(self.entries()),
    {
        proof {
            use_type_invariant(self);
        }
        self.items.len()
    }

    /// The key and value of entry `i`.
    pub fn entry(&self, i: usize) -> (r: (&String, &V))
        requires
            i < self.entries().len(),
        ensures
            r.0@ == self.entries()[i as int].0,
            *r.1 == self.entries()[i as int].1,
            unique_keys(self.entries()),
    {
        proof {
            use_type_invariant(self);
        }
        let e = &self.items[i];
        (&e.0, &e.1)
    }

    /// The index of the last entry for `key`, if any.
    fn find(&self, key: &str) -> (r: Option<usize>)
        ensures
            r matches Some(i) ==> i < self.entries().len() && self.entries()[i as int].0 == key@
                && forall|j: int| i < j < self.entries().len() ==> (#[trigger] self.entries()[j]).0 != key@,
            r is None ==> forall|j: int| 0 <= j < self.entries().len() ==> (#[trigger] self.entries()[j]).0 != key@,
    {
        let mut i = self.items.len();
        while i > 0
            invariant
                i <= self.entries().len(),
                self.entries().len() == self.items@.len(),
                forall|j: int| i <= j < self.entries().len() ==> (#[trigger] self.entries()[j]).0 != key@,
            decreases i,
        {
            i -= 1;
            let k = self.items[i].0.as_str();
            assert(self.entries()[i as int].0 == k@);
            if str_eq(k, key) {
                return Some(i);
            }
        }
        None
    }

    /// The map holds `key`.
    pub fn contains_key(&self, key: &str) -> (r: bool)
        ensures
            r == self.view().dom().contains(key@),
    {
        proof {
            lemma_entries_map_domain(self.entries(), key@);
        }
        self.find(key).is_some()
    }

    /// The value for `key`, if any.
    pub fn get(&self, key: &str) -> (r: Option<&V>)
        ensures
            r is Some <==> self.view().dom().contains(key@),
            r matches Some(v) ==> *v == self.view()[key@],
    {
        proof {
            lemma_entries_map_domain(self.entries(), key@);
        }
        match self.find(key) {
            Some(i) => {
                proof {
                    lemma_entries_map_last(self.entries(), i as int);
                }
                Some(&self.items[i].1)
            },
            None => None,
        }
    }

    /// Sets the value of `key`: a key already there keeps its place, a new key goes last.
    pub fn insert(&mut self, key: String, value: V)
        ensures
            final(self).view() == old(self).view().insert(key@, value),
            old(self).entries().len() <= final(self).entries().len(),
            forall|j: int| 0 <= j < final(self).entries().len() ==> (#[trigger] final(self).entries()[j]) == (key@, value)
                || (j < old(self).entries().len() && final(self).entries()[j] == old(self).entries()[j]),
    {
        match self.find(key.as_str()) {
            Some(i) => {
                proof {
                    lemma_entries_map_update(self.entries(), i as int, value);
                }
                let ghost before = self.entries();
                proof {
                    use_type_invariant(&*self);
                }
                assert(unique_keys(before.update(i as int, (before[i as int].0, value))));
                let mut items: Vec<(String, V)> = Vec::new();
                std::mem::swap(&mut items, &mut self.items);
                items.set(i, (key, value));
                assert(items@.map_values(|e: (String, V)| (e.0@, e.1)) =~= before.update(i as int, (before[i as int].0, value)));
                self.items = items;
                assert(self.entries() =~= before.update(i as int, (before[i as int].0, value)));
            },
            None => {
                let ghost before = self.entries();
                proof {
                    use_type_invariant(&*self);
                }
                assert(unique_keys(before.push((key@, value))));
                let mut items: Vec<(String, V)> = Vec::new();
                std::mem::swap(&mut items, &mut self.items);
                items.push((key, value));
                assert(items@.map_values(|e: (String, V)| (e.0@, e.1)) =~= before.push((key@, value)));
                self.items = items;
                assert(self.entries() =~= before.push((key@, value)));
                assert(self.entries().drop_last() =~= before);
            },
        }
    }
}

impl<V> StrMap<V> {
    /// Takes the map apart into its entries, in order.
    pub fn into_entries(self) -> (r: Vec<(String, V)>)
        ensures
            r@.map_values(|e: (String, V)| (e.0@, e.1)) == self.entries(),
            unique_keys(self.entries()),
    {
        proof {
            use_type_invariant(&self);
        }
        self.items
    }
}

/// Two strings are equal.
pub fn str_eq(a: &str, b: &str) -> (r: bool)
    ensures
        r == (a@ == b@),
{
    let x = crate::tokenizer::utils::to_chars(a);
    let y = crate::tokenizer::utils::to_chars(b);
    if x.len() != y.len() {
        return false;
    }
    let mut i: usize = 0;
    while i < x.len()
        invariant
            x@ == a@,
            y@ == b@,
            x.len() == y.len(),
            i <= x.len(),
            forall|j: int| 0 <= j < i ==> x@[j] == y@[j],
        decreases x.len() - i,
    {
        if x[i] != y[i] {
            return false;
        }
        i += 1;
    }
    assert(x@ =~= y@);
    true
}

} // verus!
