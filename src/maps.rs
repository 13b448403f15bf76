//! Maps keyed by strings that keep their keys in insertion order: one value per
//! key for path parameters, an ordered list of values per key for queries.
use vstd::prelude::*;
use vstd::utf8::*;

verus! {

broadcast use vstd::string::group_string_axioms;

/// The value stored under `k`, looking from the first entry on.
pub open spec fn lookup<V>(e: Seq<(Seq<char>, V)>, k: Seq<char>) -> Option<V>
    decreases e.len(),
{
    if e.len() == 0 {
        None
    } else if e[0].0 == k {
        Some(e[0].1)
    } else {
        lookup(e.drop_first(), k)
    }
}

/// No key occurs twice.
pub open spec fn distinct_keys<V>(e: Seq<(Seq<char>, V)>) -> bool {
    forall|i: int, j: int| 0 <= i < j < e.len() ==> e[i].0 != e[j].0
}

/// The keys, in order.
pub open spec fn keys_of<V>(e: Seq<(Seq<char>, V)>) -> Seq<Seq<char>> {
    e.map_values(|p: (Seq<char>, V)| p.0)
}

/// `v` stored under `k`, in place of what was there; a new key goes last.
pub open spec fn put_entry<V>(e: Seq<(Seq<char>, V)>, k: Seq<char>, v: V) -> Seq<(Seq<char>, V)> {
    if exists|i: int| 0 <= i < e.len() && e[i].0 == k {
        let i = choose|i: int| 0 <= i < e.len() && e[i].0 == k;
        e.update(i, (k, v))
    } else {
        e.push((k, v))
    }
}

/// `v` appended to the list under `k`; a new key goes last with `[v]`.
pub open spec fn add_entry(e: Seq<(Seq<char>, Seq<Seq<char>>)>, k: Seq<char>, v: Seq<char>) -> Seq<
    (Seq<char>, Seq<Seq<char>>),
> {
    if exists|i: int| 0 <= i < e.len() && e[i].0 == k {
        let i = choose|i: int| 0 <= i < e.len() && e[i].0 == k;
        e.update(i, (k, e[i].1.push(v)))
    } else {
        e.push((k, seq![v]))
    }
}

pub proof fn lemma_lookup_at<V>(e: Seq<(Seq<char>, V)>, i: int)
    requires
        distinct_keys(e),
        0 <= i < e.len(),
    ensures
        lookup(e, e[i].0) == Some(e[i].1),
    decreases i,
{
    if i > 0 {
        lemma_lookup_at(e.drop_first(), i - 1);
    }
}

pub proof fn lemma_lookup_absent<V>(e: Seq<(Seq<char>, V)>, k: Seq<char>)
    requires
        forall|i: int| 0 <= i < e.len() ==> e[i].0 != k,
    ensures
        lookup(e, k) is None,
    decreases e.len(),
{
    if e.len() > 0 {
        assert(e[0].0 != k);
        lemma_lookup_absent(e.drop_first(), k);
    }
}

pub proof fn lemma_lookup_found<V>(e: Seq<(Seq<char>, V)>, k: Seq<char>)
    requires
        lookup(e, k) is Some,
    ensures
        exists|i: int| 0 <= i < e.len() && e[i].0 == k && e[i].1 == lookup(e, k)->0,
    decreases e.len(),
{
    if e[0].0 != k {
        lemma_lookup_found(e.drop_first(), k);
        let i = choose|i: int|
            0 <= i < e.len() - 1 && e.drop_first()[i].0 == k && e.drop_first()[i].1 == lookup(
                e.drop_first(),
                k,
            )->0;
        assert(e[i + 1].0 == k);
    } else {
        assert(e[0].0 == k);
    }
}

/// The stored value of a key of a map with distinct keys, for every key.
pub proof fn lemma_lookup_all<V>(e: Seq<(Seq<char>, V)>, k: Seq<char>)
    requires
        distinct_keys(e),
    ensures
        lookup(e, k) is Some <==> exists|i: int| 0 <= i < e.len() && e[i].0 == k,
        forall|i: int| 0 <= i < e.len() && e[i].0 == k ==> lookup(e, k) == Some(e[i].1),
{
    if lookup(e, k) is Some {
        lemma_lookup_found(e, k);
    } else {
        if exists|i: int| 0 <= i < e.len() && e[i].0 == k {
            let i = choose|i: int| 0 <= i < e.len() && e[i].0 == k;
            lemma_lookup_at(e, i);
        }
    }
    assert forall|i: int| 0 <= i < e.len() && e[i].0 == k implies lookup(e, k) == Some(e[i].1) by {
        lemma_lookup_at(e, i);
    }
}

pub proof fn lemma_lookup_update<V>(e: Seq<(Seq<char>, V)>, i: int, v: V)
    requires
        distinct_keys(e),
        0 <= i < e.len(),
    ensures
        distinct_keys(e.update(i, (e[i].0, v))),
        forall|k: Seq<char>|
            #![auto]
            lookup(e.update(i, (e[i].0, v)), k) == if k == e[i].0 {
                Some(v)
            } else {
                lookup(e, k)
            },
{
    let f = e.update(i, (e[i].0, v));
    assert(distinct_keys(f));
    assert forall|k: Seq<char>|
        #![auto]
        lookup(f, k) == if k == e[i].0 {
            Some(v)
        } else {
            lookup(e, k)
        } by {
        lemma_lookup_all(f, k);
        lemma_lookup_all(e, k);
        if k == e[i].0 {
            assert(f[i].0 == k);
        } else {
            if lookup(e, k) is Some {
                let j = choose|j: int| 0 <= j < e.len() && e[j].0 == k;
                assert(f[j] == e[j]);
            }
            if lookup(f, k) is Some {
                let j = choose|j: int| 0 <= j < f.len() && f[j].0 == k;
                assert(f[j] == e[j]);
            }
        }
    }
}

pub proof fn lemma_lookup_push<V>(e: Seq<(Seq<char>, V)>, k0: Seq<char>, v: V)
    requires
        distinct_keys(e),
        lookup(e, k0) is None,
    ensures
        distinct_keys(e.push((k0, v))),
        forall|k: Seq<char>|
            #![auto]
            lookup(e.push((k0, v)), k) == if k == k0 {
                Some(v)
            } else {
                lookup(e, k)
            },
{
    let f = e.push((k0, v));
    lemma_lookup_all(e, k0);
    assert(distinct_keys(f));
    assert forall|k: Seq<char>|
        #![auto]
        lookup(f, k) == if k == k0 {
            Some(v)
        } else {
            lookup(e, k)
        } by {
        lemma_lookup_all(f, k);
        lemma_lookup_all(e, k);
        if k == k0 {
            assert(f[e.len() as int].0 == k);
        } else {
            if lookup(e, k) is Some {
                let j = choose|j: int| 0 <= j < e.len() && e[j].0 == k;
                assert(f[j] == e[j]);
            }
            if lookup(f, k) is Some {
                let j = choose|j: int| 0 <= j < f.len() && f[j].0 == k;
                assert(f[j] == e[j]);
            }
        }
    }
}

pub proof fn lemma_lookup_remove<V>(e: Seq<(Seq<char>, V)>, i: int)
    requires
        distinct_keys(e),
        0 <= i < e.len(),
    ensures
        distinct_keys(e.remove(i)),
        forall|k: Seq<char>|
            #![auto]
            lookup(e.remove(i), k) == if k == e[i].0 {
                None
            } else {
                lookup(e, k)
            },
{
    let f = e.remove(i);
    assert forall|a: int, b: int| 0 <= a < b < f.len() implies f[a].0 != f[b].0 by {
        let a2 = if a < i { a } else { a + 1 };
        let b2 = if b < i { b } else { b + 1 };
        assert(f[a] == e[a2] && f[b] == e[b2]);
    }
    assert forall|k: Seq<char>|
        #![auto]
        lookup(f, k) == if k == e[i].0 {
            None
        } else {
            lookup(e, k)
        } by {
        lemma_lookup_all(f, k);
        lemma_lookup_all(e, k);
        if lookup(f, k) is Some {
            let j = choose|j: int| 0 <= j < f.len() && f[j].0 == k;
            let j2 = if j < i { j } else { j + 1 };
            assert(f[j] == e[j2]);
        }
        if k != e[i].0 && lookup(e, k) is Some {
            let j = choose|j: int| 0 <= j < e.len() && e[j].0 == k;
            let j2 = if j < i { j } else { j - 1 };
            assert(f[j2] == e[j]);
        }
    }
}

/// Whether two strings hold the same characters.
pub fn str_eq(a: &str, b: &str) -> (r: bool)
    ensures
        r == (a@ == b@),
{
    let x = a.as_bytes();
    let y = b.as_bytes();
    proof {
        encode_utf8_decode_utf8(a@);
        encode_utf8_decode_utf8(b@);
    }
    if x.len() != y.len() {
        return false;
    }
    let n = x.len();
    for i in 0..n
        invariant
            n == x@.len() == y@.len(),
            x@ == encode_utf8(a@),
            y@ == encode_utf8(b@),
            forall|j: int| 0 <= j < i ==> x@[j] == y@[j],
    {
        if x[i] != y[i] {
            return false;
        }
    }
    assert(x@ =~= y@);
    true
}

/// A copy of a list of strings.
pub fn copy_strings(v: &Vec<String>) -> (r: Vec<String>)
    ensures
        r.deep_view() == v.deep_view(),
{
    let mut r: Vec<String> = Vec::new();
    for i in 0..v.len()
        invariant
            r.deep_view() == v.deep_view().take(i as int),
    {
        let ghost prev = r.deep_view();
        let c = v[i].clone();
        r.push(c);
        assert(r.deep_view() =~= prev.push(c@));
        assert(v.deep_view()[i as int] == v@[i as int]@);
        assert(r.deep_view() =~= v.deep_view().take(i + 1));
    }
    assert(v.deep_view().take(v.len() as int) =~= v.deep_view());
    r
}

/// A map keyed by strings that keeps its keys in first-insertion order.
#[derive(Debug, Clone)]
pub struct StrMap<V> {
    entries: Vec<(String, V)>,
}

/// Path parameters: one decoded value per name.
pub type ParamMap = StrMap<String>;

/// Query parameters: the ordered list of decoded values under each key.
pub type QueryMap = StrMap<Vec<String>>;

impl<V: DeepView> View for StrMap<V> {
    type V = Seq<(Seq<char>, V::V)>;

    closed spec fn view(&self) -> Seq<(Seq<char>, V::V)> {
        self.entries@.map_values(|p: (String, V)| (p.0@, p.1.deep_view()))
    }
}

impl<V: DeepView> StrMap<V> {
    /// Well-formedness: no name is stored twice.
    pub open spec fn wf(&self) -> bool {
        distinct_keys(self@)
    }

    /// The value stored under `k`.
    pub open spec fn spec_get(&self, k: Seq<char>) -> Option<V::V> {
        lookup(self@, k)
    }

    /// An empty map.
    pub fn new() -> (r: Self)
        ensures
            r@ == Seq::<(Seq<char>, V::V)>::empty(),
            r.wf(),
    {
        StrMap { entries: Vec::new() }
    }

    fn find(&self, key: &str) -> (r: Option<usize>)
        ensures
            match r {
                Some(i) => i < self@.len() && self@[i as int].0 == key@,
                None => forall|i: int| 0 <= i < self@.len() ==> self@[i].0 != key@,
            },
    {
        let n = self.entries.len();
        for i in 0..n
            invariant
                n == self@.len(),
                forall|j: int| 0 <= j < i ==> self@[j].0 != key@,
        {
            if str_eq(self.entries[i].0.as_str(), key) {
                return Some(i);
            }
        }
        None
    }

    /// The value stored under `key`.
    pub fn get(&self, key: &str) -> (r: Option<&V>)
        requires
            self.wf(),
        ensures
            match r {
                Some(v) => self.spec_get(key@) == Some(v.deep_view()),
                None => self.spec_get(key@) is None,
            },
    {
        proof {
            lemma_lookup_all(self@, key@);
        }
        match self.find(key) {
            Some(i) => Some(&self.entries[i].1),
            None => None,
        }
    }

    /// Whether a value is stored under `key`.
    pub fn contains_key(&self, key: &str) -> (r: bool)
        requires
            self.wf(),
        ensures
            r == self.spec_get(key@) is Some,
    {
        proof {
            lemma_lookup_all(self@, key@);
        }
        self.find(key).is_some()
    }

    /// Stores `value` under `key`, replacing what was there; a new key goes last.
    pub fn insert(&mut self, key: String, value: V)
        requires
            old(self).wf(),
        ensures
            final(self).wf(),
            forall|k: Seq<char>|
                #![auto]
                final(self).spec_get(k) == if k == key@ {
                    Some(value.deep_view())
                } else {
                    old(self).spec_get(k)
                },
            keys_of(final(self)@) == if old(self).spec_get(key@) is Some {
                keys_of(old(self)@)
            } else {
                keys_of(old(self)@).push(key@)
            },
            final(self)@ == put_entry(old(self)@, key@, value.deep_view()),
    {
        let ghost e0 = self@;
        let ghost v = value.deep_view();
        proof {
            lemma_lookup_all(e0, key@);
        }
        match self.find(key.as_str()) {
            Some(i) => {
                proof {
                    let j = choose|j: int| 0 <= j < e0.len() && e0[j].0 == key@;
                    assert(j == i);
                }
                self.entries.set(i, (key, value));
                assert(self@ =~= e0.update(i as int, (e0[i as int].0, v)));
                assert(keys_of(self@) =~= keys_of(e0));
                proof {
                    lemma_lookup_update(e0, i as int, v);
                }
            },
            None => {
                self.entries.push((key, value));
                assert(self@ =~= e0.push((key@, v)));
                assert(keys_of(self@) =~= keys_of(e0).push(key@));
                proof {
                    lemma_lookup_push(e0, key@, v);
                }
            },
        }
    }

    /// Removes what is stored under `key` and returns it.
    pub fn remove(&mut self, key: &str) -> (r: Option<V>)
        requires
            old(self).wf(),
        ensures
            final(self).wf(),
            match r {
                Some(v) => old(self).spec_get(key@) == Some(v.deep_view()),
                None => old(self).spec_get(key@) is None,
            },
            forall|k: Seq<char>|
                #![auto]
                final(self).spec_get(k) == if k == key@ {
                    None
                } else {
                    old(self).spec_get(k)
                },
            old(self).spec_get(key@) is None ==> final(self)@ == old(self)@,
            old(self).spec_get(key@) is Some ==> exists|i: int|
                0 <= i < old(self)@.len() && final(self)@ == old(self)@.remove(i),
    {
        let ghost e0 = self@;
        proof {
            lemma_lookup_all(e0, key@);
        }
        match self.find(key) {
            Some(i) => {
                let (_, v) = self.entries.remove(i);
                assert(self@ =~= e0.remove(i as int));
                proof {
                    lemma_lookup_remove(e0, i as int);
                }
                Some(v)
            },
            None => None,
        }
    }

    /// Removes every entry.
    pub fn clear(&mut self)
        ensures
            final(self)@ == Seq::<(Seq<char>, V::V)>::empty(),
            final(self).wf(),
    {
        self.entries.clear();
        assert(self@ =~= Seq::<(Seq<char>, V::V)>::empty());
    }

    /// The keys, in order.
    pub fn keys(&self) -> (r: Vec<&str>)
        ensures
            r@.map_values(|k: &str| k@) == keys_of(self@),
    {
        let mut r: Vec<&str> = Vec::new();
        for i in 0..self.entries.len()
            invariant
                r@.map_values(|k: &str| k@) == keys_of(self@).take(i as int),
        {
            let ghost prev = r@;
            let k = self.entries[i].0.as_str();
            r.push(k);
            assert(self@[i as int].0 == k@);
            assert(r@ == prev.push(k));
            assert(r@.map_values(|k: &str| k@) =~= prev.map_values(|k: &str| k@).push(k@));
            assert(r@.map_values(|k: &str| k@) =~= keys_of(self@).take(i + 1));
        }
        assert(keys_of(self@).take(self@.len() as int) =~= keys_of(self@));
        r
    }

    /// The stored values, in key order.
    pub closed spec fn values_spec(&self) -> Seq<V> {
        self.entries@.map_values(|p: (String, V)| p.1)
    }

    /// The key of the `i`-th entry.
    pub fn key_at(&self, i: usize) -> (r: &str)
        requires
            i < self@.len(),
        ensures
            r@ == self@[i as int].0,
            self.values_spec().len() == self@.len(),
    {
        self.entries[i].0.as_str()
    }

    /// The value of the `i`-th entry.
    pub fn value_at(&self, i: usize) -> (r: &V)
        requires
            i < self@.len(),
        ensures
            *r == self.values_spec()[i as int],
            r.deep_view() == self@[i as int].1,
            self.values_spec().len() == self@.len(),
    {
        &self.entries[i].1
    }

    /// The number of names.
    pub fn len(&self) -> (r: usize)
        ensures
            r == self@.len(),
    {
        self.entries.len()
    }

    /// Whether no name is stored.
    pub fn is_empty(&self) -> (r: bool)
        ensures
            r == (self@.len() == 0),
    {
        self.entries.len() == 0
    }
}

impl StrMap<Vec<String>> {
    /// Appends `value` to the list under `key`; a new key goes last.
    pub fn add(&mut self, key: String, value: String)
        requires
            old(self).wf(),
        ensures
            final(self).wf(),
            forall|k: Seq<char>|
                #![auto]
                final(self).spec_get(k) == if k == key@ {
                    match old(self).spec_get(key@) {
                        Some(vs) => Some(vs.push(value@)),
                        None => Some(seq![value@]),
                    }
                } else {
                    old(self).spec_get(k)
                },
            keys_of(final(self)@) == if old(self).spec_get(key@) is Some {
                keys_of(old(self)@)
            } else {
                keys_of(old(self)@).push(key@)
            },
            final(self)@ == add_entry(old(self)@, key@, value@),
    {
        let ghost e0 = self@;
        proof {
            lemma_lookup_all(e0, key@);
        }
        match self.find(key.as_str()) {
            Some(i) => {
                proof {
                    let j = choose|j: int| 0 <= j < e0.len() && e0[j].0 == key@;
                    assert(j == i);
                }
                let (k, mut vs) = self.entries.remove(i);
                let ghost vs0 = vs.deep_view();
                vs.push(value);
                let ghost v = vs.deep_view();
                assert(v =~= vs0.push(value@));
                self.entries.insert(i, (k, vs));
                assert(self@ =~= e0.update(i as int, (e0[i as int].0, v)));
                assert(keys_of(self@) =~= keys_of(e0));
                proof {
                    lemma_lookup_update(e0, i as int, v);
                }
            },
            None => {
                let mut vs: Vec<String> = Vec::new();
                vs.push(value);
                let ghost v = vs.deep_view();
                assert(v =~= seq![value@]);
                self.entries.push((key, vs));
                assert(self@ =~= e0.push((key@, v)));
                assert(keys_of(self@) =~= keys_of(e0).push(key@));
                proof {
                    lemma_lookup_push(e0, key@, v);
                }
            },
        }
    }

    /// A copy of the map.
    pub fn duplicate(&self) -> (r: QueryMap)
        ensures
            r@ == self@,
    {
        let mut entries: Vec<(String, Vec<String>)> = Vec::new();
        for i in 0..self.entries.len()
            invariant
                entries@.map_values(|p: (String, Vec<String>)| (p.0@, p.1.deep_view())) == self@.take(
                    i as int,
                ),
        {
            let ghost prev = entries@.map_values(|p: (String, Vec<String>)| (p.0@, p.1.deep_view()));
            let vs = copy_strings(&self.entries[i].1);
            let k = self.entries[i].0.clone();
            assert(self@[i as int] == (k@, vs.deep_view()));
            entries.push((k, vs));
            assert(entries@.map_values(|p: (String, Vec<String>)| (p.0@, p.1.deep_view())) =~= prev.push(
                (k@, vs.deep_view()),
            ));
            assert(entries@.map_values(|p: (String, Vec<String>)| (p.0@, p.1.deep_view())) =~= self@.take(
                i + 1,
            ));
        }
        assert(self@.take(self@.len() as int) =~= self@);
        StrMap { entries }
    }

    /// The first value under `key`.
    pub fn first(&self, key: &str) -> (r: Option<&String>)
        requires
            self.wf(),
        ensures
            match r {
                Some(v) => self.spec_get(key@) is Some && self.spec_get(key@)->0.len() > 0
                    && self.spec_get(key@)->0[0] == v@,
                None => self.spec_get(key@) is None || self.spec_get(key@)->0.len() == 0,
            },
    {
        match self.get(key) {
            Some(vs) => {
                if vs.len() > 0 {
                    Some(&vs[0])
                } else {
                    None
                }
            },
            None => None,
        }
    }
}

} // verus!
