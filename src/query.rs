//! Parsed query strings with typed access, and a builder for them.
use crate::codec::{format_query_string, parse_query_string, query_parsed, query_text};
use crate::convert::{FromParam, ToParam};
use crate::error::ParseError;
use crate::maps::{QueryMap, StrMap, add_entry, keys_of, lookup, put_entry};
use crate::text::owned;
use vstd::prelude::*;

verus! {

broadcast use vstd::string::group_string_axioms;

/// The first value stored under `k`.
pub open spec fn first_value(e: Seq<(Seq<char>, Seq<Seq<char>>)>, k: Seq<char>) -> Option<Seq<char>> {
    match lookup(e, k) {
        Some(vs) => if vs.len() > 0 {
            Some(vs[0])
        } else {
            None
        },
        None => None,
    }
}

/// All values stored under `k`, none where the key is absent.
pub open spec fn all_values(e: Seq<(Seq<char>, Seq<Seq<char>>)>, k: Seq<char>) -> Seq<Seq<char>> {
    match lookup(e, k) {
        Some(vs) => vs,
        None => seq![],
    }
}

/// What reading `T` from `v` gives, as `T::from_param` states it.
pub open spec fn converted<T: FromParam>(v: Seq<char>, r: Result<T, ParseError>) -> bool {
    &&& (r is Ok <==> T::accepts(v))
    &&& (r is Ok ==> T::denotes(v, r->Ok_0))
    &&& (r is Err ==> r->Err_0 is TypeConversion && r->Err_0->TypeConversion_0@ == T::rejection(v))
}

/// A parsed query string.
#[derive(Debug, Clone)]
pub struct QueryParser {
    raw_query: String,
    params: QueryMap,
}

impl QueryParser {
    /// The text the query was read from, or last formatted to.
    pub closed spec fn spec_raw(&self) -> Seq<char> {
        self.raw_query@
    }

    /// The entries: keys in first-arrival order, each with its values in order.
    pub closed spec fn spec_params(&self) -> Seq<(Seq<char>, Seq<Seq<char>>)> {
        self.params@
    }

    /// Well-formedness: no key is stored twice.
    pub closed spec fn wf(&self) -> bool {
        self.params.wf()
    }

    /// Parses `query` (without `?`). Fails with `UrlEncoding` exactly where a
    /// key or a value does not decode.
    pub fn new(query: &str) -> (r: Result<QueryParser, ParseError>)
        ensures
            match query_parsed(query@) {
                Some(e) => r is Ok && r->Ok_0.wf() && r->Ok_0.spec_params() == e
                    && r->Ok_0.spec_raw() == query@,
                None => r is Err && r->Err_0 is UrlEncoding && r->Err_0->UrlEncoding_0@
                    == crate::codec::query_error(
                    crate::codec::nonempty(crate::codec::pieces(query@, '&')),
                ),
            },
    {
        let params = parse_query_string(query)?;
        Ok(QueryParser { raw_query: owned(query), params })
    }

    /// A parser holding the given entries, its text formatted from them.
    pub fn from_params(params: QueryMap) -> (r: QueryParser)
        requires
            params.wf(),
        ensures
            r.wf(),
            r.spec_params() == params@,
            r.spec_raw() == query_text(params@),
    {
        let raw_query = format_query_string(&params);
        QueryParser { raw_query, params }
    }

    /// The first value under `key`.
    pub fn get(&self, key: &str) -> (r: Option<&str>)
        requires
            self.wf(),
        ensures
            match first_value(self.spec_params(), key@) {
                Some(v) => r is Some && r->0@ == v,
                None => r is None,
            },
    {
        match self.params.first(key) {
            Some(v) => Some(v.as_str()),
            None => None,
        }
    }

    /// All values under `key`, in order; none where the key is absent.
    pub fn get_all(&self, key: &str) -> (r: &[String])
        requires
            self.wf(),
        ensures
            r@.map_values(|s: String| s@) == all_values(self.spec_params(), key@),
    {
        match self.params.get(key) {
            Some(vs) => {
                assert(vs@.map_values(|s: String| s@) =~= vs.deep_view());
                vs.as_slice()
            },
            None => {
                let e: &[String] = &[];
                assert(e@.map_values(|s: String| s@) =~= Seq::<Seq<char>>::empty());
                e
            },
        }
    }

    /// Whether `key` is present.
    pub fn contains(&self, key: &str) -> (r: bool)
        requires
            self.wf(),
        ensures
            r == lookup(self.spec_params(), key@) is Some,
    {
        self.params.contains_key(key)
    }

    /// Reads the first value under `key` as a `T`. Fails with
    /// `MissingParameter(key)` where there is none, else as `T::from_param`.
    pub fn get_parsed<T: FromParam>(&self, key: &str) -> (r: Result<T, ParseError>)
        requires
            self.wf(),
        ensures
            match first_value(self.spec_params(), key@) {
                Some(v) => converted(v, r),
                None => r is Err && r->Err_0 is MissingParameter && r->Err_0->MissingParameter_0@
                    == key@,
            },
    {
        match self.get(key) {
            Some(v) => T::from_param(v),
            None => Err(ParseError::missing_parameter(key)),
        }
    }

    /// Reads the first value under `key` as a `T` where there is one.
    pub fn get_optional<T: FromParam>(&self, key: &str) -> (r: Result<Option<T>, ParseError>)
        requires
            self.wf(),
        ensures
            match first_value(self.spec_params(), key@) {
                Some(v) => (r is Ok <==> T::accepts(v)) && (r is Ok ==> r->Ok_0 is Some && T::denotes(
                    v,
                    r->Ok_0->0,
                )) && (r is Err ==> r->Err_0 is TypeConversion && r->Err_0->TypeConversion_0@
                    == T::rejection(v)),
                None => r == Ok::<Option<T>, ParseError>(None),
            },
    {
        match self.get(key) {
            Some(v) => match T::from_param(v) {
                Ok(t) => Ok(Some(t)),
                Err(e) => Err(e),
            },
            None => Ok(None),
        }
    }

    /// Reads the first value under `key` as a `T`, or gives `default` where
    /// there is none.
    pub fn get_with_default<T: FromParam>(&self, key: &str, default: T) -> (r: Result<T, ParseError>)
        requires
            self.wf(),
        ensures
            match first_value(self.spec_params(), key@) {
                Some(v) => converted(v, r),
                None => r == Ok::<T, ParseError>(default),
            },
    {
        match self.get(key) {
            Some(v) => T::from_param(v),
            None => Ok(default),
        }
    }

    /// Reads every value under `key` as a `T`, failing on the first that is
    /// not accepted.
    pub fn get_all_parsed<T: FromParam>(&self, key: &str) -> (r: Result<Vec<T>, ParseError>)
        requires
            self.wf(),
        ensures
            r is Ok <==> forall|i: int|
                0 <= i < all_values(self.spec_params(), key@).len() ==> T::accepts(
                    #[trigger] all_values(self.spec_params(), key@)[i],
                ),
            r is Ok ==> r->Ok_0@.len() == all_values(self.spec_params(), key@).len() && forall|
                i: int,
            |
                0 <= i < r->Ok_0@.len() ==> T::denotes(
                    #[trigger] all_values(self.spec_params(), key@)[i],
                    r->Ok_0@[i],
                ),
            r is Err ==> r->Err_0 is TypeConversion && exists|i: int|
                0 <= i < all_values(self.spec_params(), key@).len() && !T::accepts(
                    #[trigger] all_values(self.spec_params(), key@)[i],
                ) && (forall|j: int|
                    0 <= j < i ==> T::accepts(all_values(self.spec_params(), key@)[j]))
                    && r->Err_0->TypeConversion_0@ == T::rejection(
                    all_values(self.spec_params(), key@)[i],
                ),
    {
        let values = self.get_all(key);
        let ghost vs = all_values(self.spec_params(), key@);
        let mut out: Vec<T> = Vec::new();
        for i in 0..values.len()
            invariant
                values@.map_values(|s: String| s@) == vs,
                vs == all_values(self.spec_params(), key@),
                out@.len() == i,
                forall|j: int| 0 <= j < i ==> T::accepts(#[trigger] vs[j]),
                forall|j: int| 0 <= j < i ==> T::denotes(#[trigger] vs[j], out@[j]),
        {
            assert(vs[i as int] == values@[i as int]@);
            match T::from_param(values[i].as_str()) {
                Ok(v) => out.push(v),
                Err(e) => {
                    assert(!T::accepts(vs[i as int]));
                    return Err(e);
                },
            }
        }
        Ok(out)
    }

    fn update_raw_query(&mut self)
        requires
            old(self).wf(),
        ensures
            final(self).wf(),
            final(self).spec_params() == old(self).spec_params(),
            final(self).spec_raw() == query_text(old(self).spec_params()),
    {
        self.raw_query = format_query_string(&self.params);
    }

    /// Stores `value` as the only value under `key`.
    pub fn set<T: ToParam>(&mut self, key: &str, value: T)
        requires
            old(self).wf(),
        ensures
            final(self).wf(),
            final(self).spec_params() == put_entry(old(self).spec_params(), key@, seq![value.param_text()]),
            final(self).spec_raw() == query_text(final(self).spec_params()),
    {
        let value_str = value.to_param();
        let mut v: Vec<String> = Vec::new();
        v.push(value_str);
        assert(v.deep_view() =~= seq![value.param_text()]);
        self.params.insert(owned(key), v);
        self.update_raw_query();
    }

    /// Appends `value` to the values under `key`.
    pub fn add<T: ToParam>(&mut self, key: &str, value: T)
        requires
            old(self).wf(),
        ensures
            final(self).wf(),
            final(self).spec_params() == add_entry(old(self).spec_params(), key@, value.param_text()),
            final(self).spec_raw() == query_text(final(self).spec_params()),
    {
        let value_str = value.to_param();
        self.params.add(owned(key), value_str);
        self.update_raw_query();
    }

    /// Removes `key` and returns its values.
    pub fn remove(&mut self, key: &str) -> (r: Option<Vec<String>>)
        requires
            old(self).wf(),
        ensures
            final(self).wf(),
            match r {
                Some(v) => lookup(old(self).spec_params(), key@) == Some(v.deep_view()),
                None => lookup(old(self).spec_params(), key@) is None,
            },
            forall|k: Seq<char>|
                #![auto]
                lookup(final(self).spec_params(), k) == if k == key@ {
                    None
                } else {
                    lookup(old(self).spec_params(), k)
                },
            final(self).spec_raw() == query_text(final(self).spec_params()),
    {
        let ghost old_params = self.params@;
        let result = self.params.remove(key);
        assert forall|k: Seq<char>|
            #![auto]
            lookup(self.params@, k) == if k == key@ {
                None
            } else {
                lookup(old_params, k)
            } by {
            assert(self.params.spec_get(k) == lookup(self.params@, k));
        }
        self.update_raw_query();
        result
    }

    /// Removes every key.
    pub fn clear(&mut self)
        ensures
            final(self).wf(),
            final(self).spec_params() == Seq::<(Seq<char>, Seq<Seq<char>>)>::empty(),
            final(self).spec_raw() == Seq::<char>::empty(),
    {
        self.params.clear();
        self.raw_query = String::new();
    }

    /// The keys, in first-arrival order.
    pub fn keys(&self) -> (r: Vec<&str>)
        ensures
            r@.map_values(|k: &str| k@) == keys_of(self.spec_params()),
    {
        self.params.keys()
    }

    /// Whether there is no key.
    pub fn is_empty(&self) -> (r: bool)
        ensures
            r == (self.spec_params().len() == 0),
    {
        self.params.is_empty()
    }

    /// The number of keys (not of values).
    pub fn len(&self) -> (r: usize)
        ensures
            r == self.spec_params().len(),
    {
        self.params.len()
    }

    /// The query text: as read, or as last formatted after a change.
    pub fn format(&self) -> (r: String)
        ensures
            r@ == self.spec_raw(),
    {
        self.raw_query.clone()
    }

    /// The query text.
    pub fn raw(&self) -> (r: &str)
        ensures
            r@ == self.spec_raw(),
    {
        self.raw_query.as_str()
    }

    /// The entries.
    pub fn params(&self) -> (r: &QueryMap)
        ensures
            r@ == self.spec_params(),
            self.wf() ==> r.wf(),
    {
        &self.params
    }
}

/// Builds a query by chained calls.
#[derive(Debug)]
pub struct QueryBuilder {
    params: QueryMap,
}

impl QueryBuilder {
    /// The entries set so far.
    pub closed spec fn spec_params(&self) -> Seq<(Seq<char>, Seq<Seq<char>>)> {
        self.params@
    }

    /// Well-formedness: no key is stored twice.
    pub closed spec fn wf(&self) -> bool {
        self.params.wf()
    }

    /// An empty builder.
    pub fn new() -> (r: QueryBuilder)
        ensures
            r.wf(),
            r.spec_params() == Seq::<(Seq<char>, Seq<Seq<char>>)>::empty(),
    {
        QueryBuilder { params: StrMap::new() }
    }

    /// Stores `value` as the only value under `key`.
    pub fn set<T: ToParam>(self, key: &str, value: T) -> (r: QueryBuilder)
        requires
            self.wf(),
        ensures
            r.wf(),
            r.spec_params() == put_entry(self.spec_params(), key@, seq![value.param_text()]),
    {
        let mut params = self.params;
        let mut v: Vec<String> = Vec::new();
        v.push(value.to_param());
        assert(v.deep_view() =~= seq![value.param_text()]);
        params.insert(owned(key), v);
        QueryBuilder { params }
    }

    /// Appends `value` to the values under `key`.
    pub fn add<T: ToParam>(self, key: &str, value: T) -> (r: QueryBuilder)
        requires
            self.wf(),
        ensures
            r.wf(),
            r.spec_params() == add_entry(self.spec_params(), key@, value.param_text()),
    {
        let mut params = self.params;
        params.add(owned(key), value.to_param());
        QueryBuilder { params }
    }

    /// A parser holding the entries.
    pub fn build(self) -> (r: QueryParser)
        requires
            self.wf(),
        ensures
            r.wf(),
            r.spec_params() == self.spec_params(),
            r.spec_raw() == query_text(self.spec_params()),
    {
        QueryParser::from_params(self.params)
    }

    /// The query string of the entries.
    pub fn build_string(self) -> (r: String)
        requires
            self.wf(),
        ensures
            r@ == query_text(self.spec_params()),
    {
        format_query_string(&self.params)
    }
}

} // verus!
