//! Formatting paths, query strings and whole URLs from parameters.
use crate::codec::{format_query_string, normalized, query_text};
use crate::convert::ToParam;
use crate::error::ParseError;
use crate::maps::{ParamMap, QueryMap, StrMap, add_entry, lookup, put_entry};
use crate::path::{PathParser, compiled, formatted};
use crate::query::QueryParser;
use crate::text::{owned, push_char, push_str};
use vstd::prelude::*;

verus! {

broadcast use vstd::string::group_string_axioms;

/// The entries of a typed map, each value as its parameter text.
pub open spec fn texts_of<T: ToParam + DeepView>(m: StrMap<T>) -> Seq<(Seq<char>, Seq<char>)> {
    Seq::new(m@.len(), |i: int| (m@[i].0, m.values_spec()[i].param_text()))
}

/// Formats paths for one pattern.
#[derive(Debug, Clone)]
pub struct PathFormatter {
    parser: PathParser,
}

impl PathFormatter {
    /// The compiled pattern.
    pub closed spec fn spec_parser(&self) -> PathParser {
        self.parser
    }

    /// Compiles `pattern`; fails as `PathParser::new` does.
    pub fn new(pattern: &str) -> (r: Result<PathFormatter, ParseError>)
        ensures
            match compiled(pattern@) {
                Some(segs) => r is Ok && r->Ok_0.spec_parser().spec_segments() == segs,
                None => r is Err && r->Err_0 is InvalidPath,
            },
    {
        Ok(PathFormatter { parser: PathParser::new(pattern)? })
    }

    /// Formats the path, as `PathParser::format_path` does.
    pub fn format(&self, params: &ParamMap) -> (r: Result<String, ParseError>)
        requires
            params.wf(),
        ensures
            match formatted(self.spec_parser().spec_segments(), params@) {
                Ok(t) => r is Ok && r->Ok_0@ == t,
                Err(n) => r is Err && r->Err_0 is MissingParameter && r->Err_0->MissingParameter_0@
                    == n,
            },
    {
        self.parser.format_path(params)
    }

    /// Formats the path from typed values, each written as its parameter text.
    pub fn format_typed<T: ToParam + DeepView>(&self, typed_params: &StrMap<T>) -> (r: Result<
        String,
        ParseError,
    >)
        requires
            typed_params.wf(),
        ensures
            match formatted(self.spec_parser().spec_segments(), texts_of(*typed_params)) {
                Ok(t) => r is Ok && r->Ok_0@ == t,
                Err(n) => r is Err && r->Err_0 is MissingParameter && r->Err_0->MissingParameter_0@
                    == n,
            },
    {
        let mut params: ParamMap = StrMap::new();
        let n = typed_params.len();
        let ghost texts = texts_of(*typed_params);
        for i in 0..n
            invariant
                n == typed_params@.len(),
                typed_params.wf(),
                texts == texts_of(*typed_params),
                params.wf(),
                params@ == texts.take(i as int),
        {
            let k = typed_params.key_at(i);
            let v = typed_params.value_at(i).to_param();
            proof {
                assert(texts.take(i as int) == params@);
                crate::maps::lemma_lookup_absent(params@, k@);
            }
            let ghost before = params@;
            params.insert(owned(k), v);
            proof {
                crate::maps::lemma_lookup_all(before, k@);
                assert(!exists|j: int| 0 <= j < before.len() && before[j].0 == k@);
                assert(params@ == before.push((k@, v@)));
                assert(params@ =~= texts.take(i + 1));
            }
        }
        assert(texts.take(n as int) =~= texts);
        self.parser.format_path(&params)
    }
}

/// Builds a query string by setting and adding values.
#[derive(Debug, Clone)]
pub struct QueryFormatter {
    params: QueryMap,
}

impl QueryFormatter {
    /// The entries.
    pub closed spec fn spec_params(&self) -> Seq<(Seq<char>, Seq<Seq<char>>)> {
        self.params@
    }

    /// Well-formedness: no key is stored twice.
    pub closed spec fn wf(&self) -> bool {
        self.params.wf()
    }

    /// An empty formatter.
    pub fn new() -> (r: QueryFormatter)
        ensures
            r.wf(),
            r.spec_params() == Seq::<(Seq<char>, Seq<Seq<char>>)>::empty(),
    {
        QueryFormatter { params: StrMap::new() }
    }

    /// A formatter holding the parser's entries.
    pub fn from_parser(parser: &QueryParser) -> (r: QueryFormatter)
        requires
            parser.wf(),
        ensures
            r.wf(),
            r.spec_params() == parser.spec_params(),
    {
        QueryFormatter { params: parser.params().duplicate() }
    }

    /// Stores `value` as the only value under `key`.
    pub fn set<T: ToParam>(&mut self, key: &str, value: T) -> (r: &mut QueryFormatter)
        requires
            old(self).wf(),
        ensures
            (*r).wf(),
            (*r).spec_params() == put_entry(old(self).spec_params(), key@, seq![value.param_text()]),
            *final(self) == *final(r),
    {
        let mut v: Vec<String> = Vec::new();
        v.push(value.to_param());
        assert(v.deep_view() =~= seq![value.param_text()]);
        self.params.insert(owned(key), v);
        self
    }

    /// Appends `value` to the values under `key`.
    pub fn add<T: ToParam>(&mut self, key: &str, value: T) -> (r: &mut QueryFormatter)
        requires
            old(self).wf(),
        ensures
            (*r).wf(),
            (*r).spec_params() == add_entry(old(self).spec_params(), key@, value.param_text()),
            *final(self) == *final(r),
    {
        self.params.add(owned(key), value.to_param());
        self
    }

    /// Stores the values, in order, as the values under `key`.
    pub fn set_multiple<T: ToParam>(&mut self, key: &str, values: &[T]) -> (r: &mut QueryFormatter)
        requires
            old(self).wf(),
        ensures
            (*r).wf(),
            (*r).spec_params() == put_entry(
                old(self).spec_params(),
                key@,
                values@.map_values(|v: T| v.param_text()),
            ),
            *final(self) == *final(r),
    {
        let mut string_values: Vec<String> = Vec::new();
        for i in 0..values.len()
            invariant
                string_values.deep_view() == values@.map_values(|v: T| v.param_text()).take(i as int),
        {
            let ghost prev = string_values.deep_view();
            let t = values[i].to_param();
            string_values.push(t);
            assert(string_values.deep_view() =~= prev.push(t@));
            assert(string_values.deep_view() =~= values@.map_values(|v: T| v.param_text()).take(
                i + 1,
            ));
        }
        assert(values@.map_values(|v: T| v.param_text()).take(values@.len() as int)
            =~= values@.map_values(|v: T| v.param_text()));
        self.params.insert(owned(key), string_values);
        self
    }

    /// Removes `key`.
    pub fn remove(&mut self, key: &str) -> (r: &mut QueryFormatter)
        requires
            old(self).wf(),
        ensures
            (*r).wf(),
            forall|k: Seq<char>|
                #![auto]
                lookup((*r).spec_params(), k) == if k == key@ {
                    None
                } else {
                    lookup(old(self).spec_params(), k)
                },
            *final(self) == *final(r),
    {
        let ghost old_params = self.params@;
        self.params.remove(key);
        assert forall|k: Seq<char>|
            #![auto]
            lookup(self.params@, k) == if k == key@ {
                None
            } else {
                lookup(old_params, k)
            } by {
            assert(self.params.spec_get(k) == lookup(self.params@, k));
        }
        self
    }

    /// Removes every key.
    pub fn clear(&mut self) -> (r: &mut QueryFormatter)
        ensures
            (*r).wf(),
            (*r).spec_params() == Seq::<(Seq<char>, Seq<Seq<char>>)>::empty(),
            *final(self) == *final(r),
    {
        self.params.clear();
        self
    }

    /// The query string (without `?`).
    pub fn format(&self) -> (r: String)
        requires
            self.wf(),
        ensures
            r@ == query_text(self.spec_params()),
    {
        format_query_string(&self.params)
    }

    /// The query string with a leading `?`, or nothing where it is empty.
    pub fn format_with_prefix(&self) -> (r: String)
        requires
            self.wf(),
        ensures
            r@ == with_prefix(query_text(self.spec_params())),
    {
        let query = self.format();
        if query.as_str().is_empty() {
            String::new()
        } else {
            let mut r = String::new();
            push_char(&mut r, '?');
            push_str(&mut r, query.as_str());
            assert(r@ =~= seq!['?'] + query@);
            r
        }
    }

    /// Whether there is no key.
    pub fn is_empty(&self) -> (r: bool)
        ensures
            r == (self.spec_params().len() == 0),
    {
        self.params.is_empty()
    }

    /// The number of keys.
    pub fn len(&self) -> (r: usize)
        ensures
            r == self.spec_params().len(),
    {
        self.params.len()
    }

    /// The entries.
    pub fn params(&self) -> (r: &QueryMap)
        ensures
            r@ == self.spec_params(),
            self.wf() ==> r.wf(),
    {
        &self.params
    }
}

/// A query string with `?` before it, or nothing where it is empty.
pub open spec fn with_prefix(q: Seq<char>) -> Seq<char> {
    if q.len() == 0 {
        q
    } else {
        seq!['?'] + q
    }
}

/// Formats whole URLs: a path for one pattern and a query.
#[derive(Debug, Clone)]
pub struct UrlFormatter {
    path_formatter: PathFormatter,
    query_formatter: QueryFormatter,
}

impl UrlFormatter {
    /// The path formatter.
    pub closed spec fn spec_path(&self) -> PathFormatter {
        self.path_formatter
    }

    /// The query formatter.
    pub closed spec fn spec_query(&self) -> QueryFormatter {
        self.query_formatter
    }

    /// Compiles `path_pattern`, with an empty query; fails as
    /// `PathParser::new` does.
    pub fn new(path_pattern: &str) -> (r: Result<UrlFormatter, ParseError>)
        ensures
            match compiled(path_pattern@) {
                Some(segs) => r is Ok && r->Ok_0.spec_path().spec_parser().spec_segments() == segs
                    && r->Ok_0.spec_query().wf() && r->Ok_0.spec_query().spec_params() == Seq::<
                    (Seq<char>, Seq<Seq<char>>),
                >::empty(),
                None => r is Err && r->Err_0 is InvalidPath,
            },
    {
        Ok(UrlFormatter { path_formatter: PathFormatter::new(path_pattern)?, query_formatter: QueryFormatter::new() })
    }

    /// The path formatter.
    pub fn path_formatter(&self) -> (r: &PathFormatter)
        ensures
            *r == self.spec_path(),
    {
        &self.path_formatter
    }

    /// The query formatter, to change.
    pub fn query_formatter_mut(&mut self) -> (r: &mut QueryFormatter)
        ensures
            *r == old(self).spec_query(),
            final(self).spec_query() == *final(r),
            final(self).spec_path() == old(self).spec_path(),
    {
        &mut self.query_formatter
    }

    /// The query formatter.
    pub fn query_formatter(&self) -> (r: &QueryFormatter)
        ensures
            *r == self.spec_query(),
    {
        &self.query_formatter
    }

    /// The URL: the formatted path, normalized, then the query with `?`.
    pub fn format(&self, path_params: &ParamMap) -> (r: Result<String, ParseError>)
        requires
            path_params.wf(),
            self.spec_query().wf(),
        ensures
            match formatted(self.spec_path().spec_parser().spec_segments(), path_params@) {
                Ok(t) => r is Ok && r->Ok_0@ == normalized(t) + with_prefix(
                    query_text(self.spec_query().spec_params()),
                ),
                Err(n) => r is Err && r->Err_0 is MissingParameter && r->Err_0->MissingParameter_0@
                    == n,
            },
    {
        let path = self.path_formatter.format(path_params)?;
        let query = self.query_formatter.format_with_prefix();
        let mut r = crate::codec::normalize_path(path.as_str());
        push_str(&mut r, query.as_str());
        Ok(r)
    }

    /// The URL from typed path parameters.
    pub fn format_typed<T: ToParam + DeepView>(&self, path_params: &StrMap<T>) -> (r: Result<
        String,
        ParseError,
    >)
        requires
            path_params.wf(),
            self.spec_query().wf(),
        ensures
            match formatted(self.spec_path().spec_parser().spec_segments(), texts_of(*path_params)) {
                Ok(t) => r is Ok && r->Ok_0@ == normalized(t) + with_prefix(
                    query_text(self.spec_query().spec_params()),
                ),
                Err(n) => r is Err && r->Err_0 is MissingParameter && r->Err_0->MissingParameter_0@
                    == n,
            },
    {
        let path = self.path_formatter.format_typed(path_params)?;
        let query = self.query_formatter.format_with_prefix();
        let mut r = crate::codec::normalize_path(path.as_str());
        push_str(&mut r, query.as_str());
        Ok(r)
    }
}

} // verus!
