use ruled_router::convert::FromParam;
use ruled_router::error::ParseError;
use ruled_router::formatter::QueryFormatter;
use ruled_router::maps::QueryMap;
use ruled_router::query::QueryParser;
use ruled_router::route::Query;

fn opt<T: FromParam>(p: &QueryParser, key: &str) -> Result<Option<T>, ParseError> {
    p.get_optional(key)
}

fn all<T: FromParam>(p: &QueryParser, key: &str) -> Result<Vec<T>, ParseError> {
    p.get_all_parsed(key)
}

// floating point stays outside the library: the raw text is read here
fn float<T: std::str::FromStr>(p: &QueryParser, key: &str) -> Result<Option<T>, ParseError> {
    match p.get(key) {
        Some(v) => v.parse::<T>().map(Some).map_err(|_| ParseError::type_conversion(v)),
        None => Ok(None),
    }
}

fn set_opt<T: ToString>(f: &mut QueryFormatter, key: &str, v: &Option<T>) {
    if let Some(v) = v {
        f.set(key, v.to_string());
    }
}

fn add_all(f: &mut QueryFormatter, key: &str, vs: &[String]) {
    for v in vs {
        f.add(key, v.clone());
    }
}


#[derive(Debug, Clone, PartialEq, Default)]
struct SearchQuery {
    q: Option<String>,
    page: Option<u32>,
    limit: Option<u32>,
    tags: Vec<String>,
}

impl Query for SearchQuery {
    fn parse(query: &str) -> Result<Self, ParseError> {
        let p = QueryParser::new(query)?;
        Ok(Self { q: opt(&p, "q")?, page: opt(&p, "page")?, limit: opt(&p, "limit")?, tags: all(&p, "tags")? })
    }
    fn format(&self) -> String {
        let mut f = QueryFormatter::new();
        set_opt(&mut f, "q", &self.q);
        set_opt(&mut f, "page", &self.page);
        set_opt(&mut f, "limit", &self.limit);
        add_all(&mut f, "tags", &self.tags);
        f.format()
    }
    fn from_query_map(query_map: &QueryMap) -> Result<Self, ParseError> {
        Self::parse(&ruled_router::codec::format_query_string(query_map))
    }
    fn to_query_string(&self) -> String {
        self.format()
    }
    fn query_keys() -> Vec<&'static str> {
        vec!["q", "page", "limit", "tags"]
    }
}

#[derive(Debug, Clone, PartialEq, Default)]
struct FilterQuery {
    active: Option<bool>,
    sort_by: Option<String>,
    order: Option<String>,
    categories: Vec<String>,
    min_price: Option<f64>,
    max_price: Option<f64>,
}

impl Query for FilterQuery {
    fn parse(query: &str) -> Result<Self, ParseError> {
        let p = QueryParser::new(query)?;
        Ok(Self {
            active: opt(&p, "active")?,
            sort_by: opt(&p, "sort_by")?,
            order: opt(&p, "order")?,
            categories: all(&p, "categories")?,
            min_price: float(&p, "min_price")?,
            max_price: float(&p, "max_price")?,
        })
    }
    fn format(&self) -> String {
        let mut f = QueryFormatter::new();
        set_opt(&mut f, "active", &self.active);
        set_opt(&mut f, "sort_by", &self.sort_by);
        set_opt(&mut f, "order", &self.order);
        add_all(&mut f, "categories", &self.categories);
        set_opt(&mut f, "min_price", &self.min_price);
        set_opt(&mut f, "max_price", &self.max_price);
        f.format()
    }
    fn from_query_map(query_map: &QueryMap) -> Result<Self, ParseError> {
        Self::parse(&ruled_router::codec::format_query_string(query_map))
    }
    fn to_query_string(&self) -> String {
        self.format()
    }
    fn query_keys() -> Vec<&'static str> {
        vec!["active", "sort_by", "order", "categories", "min_price", "max_price"]
    }
}

#[derive(Debug, Clone, PartialEq, Default)]
struct ComplexQuery {
    query: Option<String>,
    title: Option<String>,
    author: Option<String>,
    page: Option<u32>,
    limit: Option<u32>,
    min_rating: Option<f32>,
    max_rating: Option<f32>,
    year: Option<i32>,
    published: Option<bool>,
    featured: Option<bool>,
    free: Option<bool>,
    tags: Vec<String>,
    categories: Vec<String>,
    authors: Vec<String>,
    sort: Option<String>,
    format: Option<String>,
    status: Option<String>,
}

impl Query for ComplexQuery {
    fn parse(query: &str) -> Result<Self, ParseError> {
        let p = QueryParser::new(query)?;
        Ok(Self {
            query: opt(&p, "query")?,
            title: opt(&p, "title")?,
            author: opt(&p, "author")?,
            page: opt(&p, "page")?,
            limit: opt(&p, "limit")?,
            min_rating: float(&p, "min_rating")?,
            max_rating: float(&p, "max_rating")?,
            year: opt(&p, "year")?,
            published: opt(&p, "published")?,
            featured: opt(&p, "featured")?,
            free: opt(&p, "free")?,
            tags: all(&p, "tags")?,
            categories: all(&p, "categories")?,
            authors: all(&p, "authors")?,
            sort: opt(&p, "sort")?,
            format: opt(&p, "format")?,
            status: opt(&p, "status")?,
        })
    }
    fn format(&self) -> String {
        let mut f = QueryFormatter::new();
        set_opt(&mut f, "query", &self.query);
        set_opt(&mut f, "title", &self.title);
        set_opt(&mut f, "author", &self.author);
        set_opt(&mut f, "page", &self.page);
        set_opt(&mut f, "limit", &self.limit);
        set_opt(&mut f, "min_rating", &self.min_rating);
        set_opt(&mut f, "max_rating", &self.max_rating);
        set_opt(&mut f, "year", &self.year);
        set_opt(&mut f, "published", &self.published);
        set_opt(&mut f, "featured", &self.featured);
        set_opt(&mut f, "free", &self.free);
        add_all(&mut f, "tags", &self.tags);
        add_all(&mut f, "categories", &self.categories);
        add_all(&mut f, "authors", &self.authors);
        set_opt(&mut f, "sort", &self.sort);
        set_opt(&mut f, "format", &self.format);
        set_opt(&mut f, "status", &self.status);
        f.format()
    }
    fn from_query_map(query_map: &QueryMap) -> Result<Self, ParseError> {
        Self::parse(&ruled_router::codec::format_query_string(query_map))
    }
    fn to_query_string(&self) -> String {
        self.format()
    }
    fn query_keys() -> Vec<&'static str> {
        vec!["query", "title", "author", "page", "limit", "min_rating", "max_rating", "year"]
    }
}

#[derive(Debug, Clone, PartialEq, Default)]
struct CustomFieldQuery {
    q: Option<String>,
    p: Option<u32>,
    size: Option<u32>,
    sort_by: Option<String>,
}

impl Query for CustomFieldQuery {
    fn parse(query: &str) -> Result<Self, ParseError> {
        let p = QueryParser::new(query)?;
        Ok(Self { q: opt(&p, "q")?, p: opt(&p, "p")?, size: opt(&p, "size")?, sort_by: opt(&p, "sort_by")? })
    }
    fn format(&self) -> String {
        let mut f = QueryFormatter::new();
        set_opt(&mut f, "q", &self.q);
        set_opt(&mut f, "p", &self.p);
        set_opt(&mut f, "size", &self.size);
        set_opt(&mut f, "sort_by", &self.sort_by);
        f.format()
    }
    fn from_query_map(query_map: &QueryMap) -> Result<Self, ParseError> {
        Self::parse(&ruled_router::codec::format_query_string(query_map))
    }
    fn to_query_string(&self) -> String {
        self.format()
    }
    fn query_keys() -> Vec<&'static str> {
        vec!["q", "p", "size", "sort_by"]
    }
}

#[derive(Debug, Clone, PartialEq, Default)]
struct NestedQuery {
    query: Option<String>,
    page: Option<u32>,
    per_page: Option<u32>,
    offset: Option<u32>,
    sort: Option<String>,
    order: Option<String>,
    status: Vec<String>,
    category: Vec<String>,
    tag: Vec<String>,
    min_price: Option<f64>,
    max_price: Option<f64>,
    min_date: Option<String>,
    max_date: Option<String>,
    active: Option<bool>,
    featured: Option<bool>,
    public: Option<bool>,
}

impl Query for NestedQuery {
    fn parse(query: &str) -> Result<Self, ParseError> {
        let p = QueryParser::new(query)?;
        Ok(Self {
            query: opt(&p, "query")?,
            page: opt(&p, "page")?,
            per_page: opt(&p, "per_page")?,
            offset: opt(&p, "offset")?,
            sort: opt(&p, "sort")?,
            order: opt(&p, "order")?,
            status: all(&p, "status")?,
            category: all(&p, "category")?,
            tag: all(&p, "tag")?,
            min_price: float(&p, "min_price")?,
            max_price: float(&p, "max_price")?,
            min_date: opt(&p, "min_date")?,
            max_date: opt(&p, "max_date")?,
            active: opt(&p, "active")?,
            featured: opt(&p, "featured")?,
            public: opt(&p, "public")?,
        })
    }
    fn format(&self) -> String {
        let mut f = QueryFormatter::new();
        set_opt(&mut f, "query", &self.query);
        set_opt(&mut f, "page", &self.page);
        set_opt(&mut f, "per_page", &self.per_page);
        set_opt(&mut f, "offset", &self.offset);
        set_opt(&mut f, "sort", &self.sort);
        set_opt(&mut f, "order", &self.order);
        add_all(&mut f, "status", &self.status);
        add_all(&mut f, "category", &self.category);
        add_all(&mut f, "tag", &self.tag);
        set_opt(&mut f, "min_price", &self.min_price);
        set_opt(&mut f, "max_price", &self.max_price);
        set_opt(&mut f, "min_date", &self.min_date);
        set_opt(&mut f, "max_date", &self.max_date);
        set_opt(&mut f, "active", &self.active);
        set_opt(&mut f, "featured", &self.featured);
        set_opt(&mut f, "public", &self.public);
        f.format()
    }
    fn from_query_map(query_map: &QueryMap) -> Result<Self, ParseError> {
        Self::parse(&ruled_router::codec::format_query_string(query_map))
    }
    fn to_query_string(&self) -> String {
        self.format()
    }
    fn query_keys() -> Vec<&'static str> {
        vec!["query", "page", "per_page", "offset", "sort", "order", "status", "category", "tag"]
    }
}

#[test]
fn test_search_query_parse_and_format() {
    let query_str = "q=rust&page=2&limit=10&tags=programming&tags=tutorial";
    let query = SearchQuery::parse(query_str).unwrap();

    assert_eq!(query.q, Some("rust".to_string()));
    assert_eq!(query.page, Some(2));
    assert_eq!(query.limit, Some(10));
    assert_eq!(query.tags, vec!["programming", "tutorial"]);

    let formatted = query.format();
    let reparsed = SearchQuery::parse(&formatted).unwrap();
    assert_eq!(query, reparsed);
}

#[test]
fn test_filter_query_with_floats() {
    let query_str = "active=true&sort_by=price&min_price=10.5&max_price=99.99&categories=electronics&categories=books";
    let query = FilterQuery::parse(query_str).unwrap();

    assert_eq!(query.active, Some(true));
    assert_eq!(query.sort_by, Some("price".to_string()));
    assert_eq!(query.min_price, Some(10.5));
    assert_eq!(query.max_price, Some(99.99));
    assert_eq!(query.categories, vec!["electronics", "books"]);
}

#[test]
fn query_derive_tests_test_empty_query() {
    let query = SearchQuery::parse("").unwrap();
    assert_eq!(query.q, None);
    assert_eq!(query.page, None);
    assert_eq!(query.limit, None);
    assert!(query.tags.is_empty());

    let query = SearchQuery::default();
    let formatted = query.format();
    assert!(formatted.is_empty() || formatted == "?");
}

#[test]
fn test_complex_query_all_types() {
    let query_str = "query=test&page=1&min_rating=4.5&published=true&tags=rust&tags=web&sort=date";
    let query = ComplexQuery::parse(query_str).unwrap();

    assert_eq!(query.query, Some("test".to_string()));
    assert_eq!(query.page, Some(1));
    assert_eq!(query.min_rating, Some(4.5));
    assert_eq!(query.published, Some(true));
    assert_eq!(query.tags, vec!["rust", "web"]);
    assert_eq!(query.sort, Some("date".to_string()));
}

#[test]
fn test_url_encoded_values() {
    let query_str = "q=hello%20world&title=Rust%20Programming";
    let query = SearchQuery::parse(query_str).unwrap();
    assert_eq!(query.q, Some("hello world".to_string()));
}

#[test]
fn test_boolean_parsing() {
    let test_cases = vec![
        ("active=true", Some(true)),
        ("active=false", Some(false)),
        ("active=1", Some(true)),
        ("active=0", Some(false)),
        ("active=yes", Some(true)),
        ("active=no", Some(false)),
        ("", None),
    ];

    for (query_str, expected) in test_cases {
        let query = FilterQuery::parse(query_str).unwrap();
        assert_eq!(query.active, expected, "Failed for: {query_str}");
    }
}

#[test]
fn test_array_parameters() {
    let query_str = "tags=rust&tags=programming&tags=tutorial";
    let query = SearchQuery::parse(query_str).unwrap();
    assert_eq!(query.tags, vec!["rust", "programming", "tutorial"]);
}

#[test]
fn test_numeric_types() {
    let query_str = "page=42&min_rating=4.5&year=-2023";
    let query = ComplexQuery::parse(query_str).unwrap();
    assert_eq!(query.page, Some(42));
    assert_eq!(query.min_rating, Some(4.5));
    assert_eq!(query.year, Some(-2023));
}

#[test]
fn query_derive_tests_test_roundtrip_consistency() {
    let original = ComplexQuery {
        query: Some("test search".to_string()),
        page: Some(5),
        min_rating: Some(4.2),
        published: Some(true),
        tags: vec!["rust".to_string(), "web".to_string()],
        sort: Some("relevance".to_string()),
        ..Default::default()
    };

    let formatted = original.format();
    let parsed = ComplexQuery::parse(&formatted).unwrap();
    assert_eq!(original, parsed);
}

#[test]
fn test_custom_field_names() {
    let query_str = "q=rust&p=2&size=50&sort_by=date";
    let query = CustomFieldQuery::parse(query_str).unwrap();

    assert_eq!(query.q, Some("rust".to_string()));
    assert_eq!(query.p, Some(2));
    assert_eq!(query.size, Some(50));
    assert_eq!(query.sort_by, Some("date".to_string()));

    let formatted = query.format();
    assert!(formatted.contains("q=rust"));
    assert!(formatted.contains("p=2"));
    assert!(formatted.contains("size=50"));
    assert!(formatted.contains("sort_by=date"));
}

#[test]
fn test_nested_query_comprehensive() {
    let query_str = "query=search&page=1&per_page=20&offset=0&sort=name&order=asc&status=active&status=pending&category=tech&category=web&tag=rust&tag=programming&min_price=10.5&max_price=99.99&min_date=2023-01-01&max_date=2023-12-31&active=true&featured=false&public=1";
    let query = NestedQuery::parse(query_str).unwrap();

    assert_eq!(query.query, Some("search".to_string()));
    assert_eq!(query.page, Some(1));
    assert_eq!(query.per_page, Some(20));
    assert_eq!(query.offset, Some(0));
    assert_eq!(query.sort, Some("name".to_string()));
    assert_eq!(query.order, Some("asc".to_string()));
    assert_eq!(query.status, vec!["active".to_string(), "pending".to_string()]);
    assert_eq!(query.category, vec!["tech".to_string(), "web".to_string()]);
    assert_eq!(query.tag, vec!["rust".to_string(), "programming".to_string()]);
    assert_eq!(query.min_price, Some(10.5));
    assert_eq!(query.max_price, Some(99.99));
    assert_eq!(query.min_date, Some("2023-01-01".to_string()));
    assert_eq!(query.max_date, Some("2023-12-31".to_string()));
    assert_eq!(query.active, Some(true));
    assert_eq!(query.featured, Some(false));
    assert_eq!(query.public, Some(true));
}

#[test]
fn test_partial_query_parameters() {
    let query_str = "query=test&page=5&active=true";
    let query = NestedQuery::parse(query_str).unwrap();

    assert_eq!(query.query, Some("test".to_string()));
    assert_eq!(query.page, Some(5));
    assert_eq!(query.active, Some(true));

    assert_eq!(query.per_page, None);
    assert_eq!(query.offset, None);
    assert_eq!(query.sort, None);
    assert!(query.status.is_empty());
    assert!(query.category.is_empty());
    assert_eq!(query.min_price, None);
    assert_eq!(query.featured, None);
}

#[test]
fn test_boolean_value_variations() {
    let test_cases = vec![
        ("active=true", Some(true)),
        ("active=false", Some(false)),
        ("active=1", Some(true)),
        ("active=0", Some(false)),
        ("active=yes", Some(true)),
        ("active=no", Some(false)),
        ("active=on", Some(true)),
        ("active=off", Some(false)),
    ];

    for (query_str, expected) in test_cases {
        let query = NestedQuery::parse(query_str).unwrap();
        assert_eq!(query.active, expected, "Failed for query: {query_str}");
    }
}

#[test]
fn test_numeric_type_conversions() {
    let query_str = "page=42&per_page=100&offset=200&min_price=19.99&max_price=199.99";
    let query = NestedQuery::parse(query_str).unwrap();

    assert_eq!(query.page, Some(42));
    assert_eq!(query.per_page, Some(100));
    assert_eq!(query.offset, Some(200));
    assert_eq!(query.min_price, Some(19.99));
    assert_eq!(query.max_price, Some(199.99));
}

#[test]
fn test_array_parameter_handling() {
    let query_str = "tag=rust&tag=web&tag=backend&category=tech&status=active";
    let query = NestedQuery::parse(query_str).unwrap();

    assert_eq!(query.tag, vec!["rust".to_string(), "web".to_string(), "backend".to_string()]);
    assert_eq!(query.category, vec!["tech".to_string()]);
    assert_eq!(query.status, vec!["active".to_string()]);
}

#[test]
fn test_url_encoded_values_in_nested_query() {
    let query_str = "query=hello%20world&tag=rust%20programming&min_date=2023-01-01%2010%3A00%3A00";
    let query = NestedQuery::parse(query_str).unwrap();

    assert_eq!(query.query, Some("hello world".to_string()));
    assert_eq!(query.tag, vec!["rust programming".to_string()]);
    assert_eq!(query.min_date, Some("2023-01-01 10:00:00".to_string()));
}

#[test]
fn test_empty_and_malformed_values() {
    let query_str = "query=&page=abc&active=maybe&min_price=not_a_number";

    let result = NestedQuery::parse(query_str);
    assert!(result.is_err(), "Should fail to parse malformed query parameters");
}

#[test]
fn test_query_formatting_with_arrays() {
    let query = NestedQuery {
        query: Some("test".to_string()),
        page: Some(1),
        status: vec!["active".to_string(), "pending".to_string()],
        tag: vec!["rust".to_string(), "web".to_string()],
        active: Some(true),
        min_price: Some(10.5),
        ..Default::default()
    };

    let formatted = query.format();

    assert!(formatted.contains("query=test"));
    assert!(formatted.contains("page=1"));
    assert!(formatted.contains("status=active"));
    assert!(formatted.contains("status=pending"));
    assert!(formatted.contains("tag=rust"));
    assert!(formatted.contains("tag=web"));
    assert!(formatted.contains("active=true"));
    assert!(formatted.contains("min_price=10.5"));
}
