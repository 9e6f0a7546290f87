//! Connectors: a minimal HTTP/1.1 client and SQLite steps — their URLs,
//! request and response texts, and SQL statements.

use vstd::prelude::*;
use vstd::string::*;

use crate::json::{Json, JsonView};
use crate::keyed::{lookup, unique_keys, upsert, Keyed};
use crate::order::{sort_by_key, sorted_by_key};
use crate::text::{
    concat2, concat3, concat4, contains, decimal, digits, parse_u16, parse_u16_spec, seq_contains,
    seq_starts_with, split_first, split_once, starts_with,
};

verus! {

/// The parts of an `http://` URL.
#[derive(Debug)]
pub struct UrlParts {
    pub host: String,
    pub port: u16,
    pub path: String,
}

/// Why a URL is refused.
#[derive(Debug, Clone, Copy, PartialEq, Eq, Structural)]
pub enum UrlError {
    /// Only `http://` URLs are supported.
    Scheme,
    /// The port is not a 16-bit number.
    Port,
}

/// The text of a URL error.
pub open spec fn url_error_text(e: UrlError, url: Seq<char>) -> Seq<char> {
    match e {
        UrlError::Scheme => "only http:// urls are supported (S5)"@,
        UrlError::Port => "invalid port in url '"@ + url + "'"@,
    }
}

/// The error's text for `url`.
pub fn url_error_message(e: UrlError, url: &str) -> (r: String)
    ensures
        r@ == url_error_text(e, url@),
{
    match e {
        UrlError::Scheme => "only http:// urls are supported (S5)".to_owned(),
        UrlError::Port => concat3("invalid port in url '", url, "'"),
    }
}

/// The URL after its `http://` scheme.
pub open spec fn url_rest(url: Seq<char>) -> Seq<char> {
    url.subrange(7, url.len() as int)
}

/// Host and port text, and the path after the first `/`.
pub open spec fn url_split(rest: Seq<char>) -> (Seq<char>, Seq<char>) {
    match split_first(rest, "/"@) {
        Some((hp, path)) => (hp, path),
        None => (rest, Seq::empty()),
    }
}

/// What an `http://` URL parses to: the host, the port (80 when none is
/// given), and the path with its leading `/`.
pub open spec fn url_parse(url: Seq<char>) -> Result<(Seq<char>, u16, Seq<char>), UrlError> {
    if !seq_starts_with(url, "http://"@) {
        Err(UrlError::Scheme)
    } else {
        let (hp, path) = url_split(url_rest(url));
        match split_first(hp, ":"@) {
            Some((host, port)) => match parse_u16_spec(port) {
                Some(p) => Ok((host, p, "/"@ + path)),
                None => Err(UrlError::Port),
            },
            None => Ok((hp, 80u16, "/"@ + path)),
        }
    }
}

/// Parse an `http://host[:port][/path]` URL.
pub fn parse_url(url: &str) -> (r: Result<UrlParts, UrlError>)
    ensures
        match r {
            Ok(u) => url_parse(url@) == Ok::<(Seq<char>, u16, Seq<char>), UrlError>((u.host@, u.port, u.path@)),
            Err(e) => url_parse(url@) == Err::<(Seq<char>, u16, Seq<char>), UrlError>(e),
        },
{
    proof {
        reveal_strlit("http://");
    }
    if !starts_with(url, "http://") {
        return Err(UrlError::Scheme);
    }
    let n = url.unicode_len();
    let rest = url.substring_char(7, n);
    let (host_port, path) = match split_once(rest, "/") {
        Some((hp, p)) => (hp, p),
        None => (rest.to_owned(), String::new()),
    };
    let full_path = concat2("/", path.as_str());
    match split_once(host_port.as_str(), ":") {
        Some((host, port)) => match parse_u16(port.as_str()) {
            Some(p) => Ok(UrlParts { host, port: p, path: full_path }),
            None => Err(UrlError::Port),
        },
        None => Ok(UrlParts { host: host_port, port: 80, path: full_path }),
    }
}

/// A header, keyed by its name.
#[derive(Debug)]
pub struct Header {
    pub name: String,
    pub value: String,
}

impl Keyed for Header {
    open spec fn key(&self) -> Seq<char> {
        self.name@
    }

    fn key_str(&self) -> (r: &str) {
        self.name.as_str()
    }
}

/// The header lines of a request, each `name: value` and CRLF.
pub open spec fn header_lines(h: Seq<Header>) -> Seq<char>
    decreases h.len(),
{
    if h.len() == 0 {
        Seq::empty()
    } else {
        header_lines(h.drop_last()) + h.last().name@ + ": "@ + h.last().value@ + "\r\n"@
    }
}

/// The text of a request: the request line, `Host`, `Connection: close`,
/// the headers, `Content-Length` (in bytes) and the body.
pub open spec fn request_spec(method: Seq<char>, url: UrlParts, headers: Seq<Header>, body: &str) -> Seq<char> {
    method + " "@ + url.path@ + " HTTP/1.1\r\nHost: "@ + url.host@ + "\r\nConnection: close\r\n"@ + header_lines(headers)
        + "Content-Length: "@ + digits(((body.spec_bytes().len() as usize) as u64) as nat, 10) + "\r\n\r\n"@ + body@
}

/// Build the text of a request.
pub fn request_text(method: &str, url: &UrlParts, headers: &Vec<Header>, body: &str) -> (r: String)
    ensures
        r@ == request_spec(method@, *url, headers@, body),
{
    let mut r = concat4(method, " ", url.path.as_str(), " HTTP/1.1\r\nHost: ");
    r.append(url.host.as_str());
    r.append("\r\nConnection: close\r\n");
    let ghost head = r@;
    let mut i: usize = 0;
    assert(headers@.subrange(0, 0) =~= Seq::<Header>::empty());
    while i < headers.len()
        invariant
            i <= headers@.len(),
            r@ == head + header_lines(headers@.subrange(0, i as int)),
        decreases headers.len() - i,
    {
        r.append(headers[i].name.as_str());
        r.append(": ");
        r.append(headers[i].value.as_str());
        r.append("\r\n");
        assert(headers@.subrange(0, i + 1).drop_last() =~= headers@.subrange(0, i as int));
        i = i + 1;
    }
    assert(headers@.subrange(0, headers@.len() as int) =~= headers@);
    r.append("Content-Length: ");
    let blen = body.len();
    let len = decimal(blen as u64);
    r.append(len.as_str());
    r.append("\r\n\r\n");
    r.append(body);
    assert(r@ =~= request_spec(method@, *url, headers@, body));
    r
}

/// Set a header, replacing one of the same name.
pub fn set_header(headers: &mut Vec<Header>, name: &str, value: &str)
    requires
        unique_keys(old(headers)@),
    ensures
        unique_keys(final(headers)@),
        crate::keyed::lookup(final(headers)@, name@) matches Some(h) && h.value@ == value@,
        forall|k: Seq<char>| k != name@ ==> #[trigger] crate::keyed::lookup(final(headers)@, k) == crate::keyed::lookup(old(headers)@, k),
{
    upsert(headers, Header { name: name.to_owned(), value: value.to_owned() });
}

/// The headers a JSON request sends, in the order a name-keyed map keeps
/// them: the given headers with `Content-Type: application/json` set,
/// sorted by name.
pub fn json_request_headers(headers: Vec<Header>) -> (r: Vec<Header>)
    requires
        unique_keys(headers@),
    ensures
        sorted_by_key(r@),
        exists|s: Seq<Header>|
            {
                &&& r@.to_multiset() == s.to_multiset()
                &&& unique_keys(s)
                &&& lookup(s, "Content-Type"@) matches Some(h) && h.value@ == "application/json"@
                &&& forall|k: Seq<char>| k != "Content-Type"@ ==> #[trigger] lookup(s, k) == lookup(headers@, k)
            },
{
    let mut all = headers;
    set_header(&mut all, "Content-Type", "application/json");
    let ghost s = all@;
    let r = sort_by_key(all);
    assert(r@.to_multiset() == s.to_multiset());
    r
}

/// Why a response is refused.
#[derive(Debug)]
pub enum ResponseError {
    Malformed,
    NoStatusLine,
    Failed { status: String },
}

/// The text of a response error.
pub open spec fn response_error_text(e: ResponseError) -> Seq<char> {
    match e {
        ResponseError::Malformed => "malformed http response"@,
        ResponseError::NoStatusLine => "http response without status line"@,
        ResponseError::Failed { status } => "http request failed: "@ + status@,
    }
}

impl ResponseError {
    /// The human-readable text of the error.
    pub fn message(&self) -> (r: String)
        ensures
            r@ == response_error_text(*self),
    {
        match self {
            ResponseError::Malformed => "malformed http response".to_owned(),
            ResponseError::NoStatusLine => "http response without status line".to_owned(),
            ResponseError::Failed { status } => concat2("http request failed: ", status.as_str()),
        }
    }
}

/// The first line of a text, as `str::lines` yields it: up to the first
/// newline, without the carriage return before it; none for empty text.
pub open spec fn first_line(s: Seq<char>) -> Option<Seq<char>> {
    if s.len() == 0 {
        None
    } else {
        match split_first(s, "\n"@) {
            Some((l, _)) => Some(if l.len() > 0 && l.last() == '\r' {
                l.drop_last()
            } else {
                l
            }),
            None => Some(s),
        }
    }
}

/// What a response text yields: its body when the status line holds a 2xx
/// code (` 2`), else the error.
pub open spec fn response_spec(text: Seq<char>) -> Result<Seq<char>, ResponseError> {
    match split_first(text, "\r\n\r\n"@) {
        None => Err(ResponseError::Malformed),
        Some((head, body)) => match first_line(head) {
            None => Err(ResponseError::NoStatusLine),
            Some(status) => if seq_contains(status, " 2"@) {
                Ok(body)
            } else {
                Err(ResponseError::Failed { status: arbitrary_status(status) })
            },
        },
    }
}

/// A string holding the status line (only its text is claimed).
pub open spec fn arbitrary_status(status: Seq<char>) -> String {
    choose|s: String| s@ == status
}

/// The first line of a text.
#[verifier::rlimit(40)]
fn take_first_line(s: &str) -> (r: Option<String>)
    ensures
        match r {
            Some(l) => first_line(s@) == Some(l@),
            None => first_line(s@) is None,
        },
{
    let n = s.unicode_len();
    if n == 0 {
        return None;
    }
    match split_once(s, "\n") {
        Some((l, _)) => {
            let m = l.unicode_len();
            if m > 0 && l.as_str().get_char(m - 1) == '\r' {
                Some(l.as_str().substring_char(0, m - 1).to_owned())
            } else {
                Some(l)
            }
        },
        None => Some(s.to_owned()),
    }
}

/// Split a response into its head and body and check its status line.
pub fn parse_response(text: &str) -> (r: Result<String, ResponseError>)
    ensures
        match r {
            Ok(body) => response_spec(text@) == Ok::<Seq<char>, ResponseError>(body@),
            Err(e) => match (response_spec(text@), e) {
                (Err(ResponseError::Failed { status: a }), ResponseError::Failed { status: b }) => a@ == b@,
                (Err(x), y) => x == y,
                _ => false,
            },
        },
{
    let (head, body) = match split_once(text, "\r\n\r\n") {
        Some(p) => p,
        None => {
            return Err(ResponseError::Malformed);
        },
    };
    let status = match take_first_line(head.as_str()) {
        Some(l) => l,
        None => {
            return Err(ResponseError::NoStatusLine);
        },
    };
    if !contains(status.as_str(), " 2") {
        proof {
            let a = arbitrary_status(status@);
            assert(exists|s: String| s@ == status@) by {
                assert(status@ == status@);
            }
        }
        return Err(ResponseError::Failed { status });
    }
    Ok(body)
}

/// `source.http` step: fetch JSON from an HTTP endpoint (optionally polling).
#[derive(Debug)]
pub struct HttpSource {
    pub name: String,
    pub url: UrlParts,
    pub method: String,
    pub headers: Vec<Header>,
    /// Poll again after this many milliseconds, when set.
    pub poll_millis: Option<u64>,
}

/// The name of an HTTP step.
pub open spec fn http_name(url: Seq<char>) -> Seq<char> {
    "http:"@ + url
}

impl HttpSource {
    /// Build the step; the method defaults to `GET`.
    pub fn build(url: &str, method: Option<String>, headers: Vec<Header>, poll_millis: Option<u64>) -> (r: Result<HttpSource, UrlError>)
        ensures
            match r {
                Ok(s) => {
                    &&& url_parse(url@) == Ok::<(Seq<char>, u16, Seq<char>), UrlError>((s.url.host@, s.url.port, s.url.path@))
                    &&& s.name@ == http_name(url@)
                    &&& s.method@ == match method {
                        Some(m) => m@,
                        None => "GET"@,
                    }
                    &&& s.headers == headers
                    &&& s.poll_millis == poll_millis
                },
                Err(e) => url_parse(url@) == Err::<(Seq<char>, u16, Seq<char>), UrlError>(e),
            },
    {
        let parts = match parse_url(url) {
            Ok(p) => p,
            Err(e) => return Err(e),
        };
        let method = match method {
            Some(m) => m,
            None => "GET".to_owned(),
        };
        Ok(HttpSource { name: concat2("http:", url), url: parts, method, headers, poll_millis })
    }
}

/// `sink.http` step: send each record payload as JSON to an endpoint.
#[derive(Debug)]
pub struct HttpSink {
    pub name: String,
    pub url: UrlParts,
    pub method: String,
    pub headers: Vec<Header>,
}

impl HttpSink {
    /// Build the step; the method defaults to `POST`.
    pub fn build(url: &str, method: Option<String>, headers: Vec<Header>) -> (r: Result<HttpSink, UrlError>)
        ensures
            match r {
                Ok(s) => {
                    &&& url_parse(url@) == Ok::<(Seq<char>, u16, Seq<char>), UrlError>((s.url.host@, s.url.port, s.url.path@))
                    &&& s.name@ == http_name(url@)
                    &&& s.method@ == match method {
                        Some(m) => m@,
                        None => "POST"@,
                    }
                    &&& s.headers == headers
                },
                Err(e) => url_parse(url@) == Err::<(Seq<char>, u16, Seq<char>), UrlError>(e),
            },
    {
        let parts = match parse_url(url) {
            Ok(p) => p,
            Err(e) => return Err(e),
        };
        let method = match method {
            Some(m) => m,
            None => "POST".to_owned(),
        };
        Ok(HttpSink { name: concat2("http:", url), url: parts, method, headers })
    }
}

/// Whether a fetched body (already trimmed) is parsed as JSON: it opens an
/// object or an array; any other body is kept as a string.
pub fn body_is_json(trimmed: &str) -> (r: bool)
    ensures
        r == (seq_starts_with(trimmed@, "{"@) || seq_starts_with(trimmed@, "["@)),
{
    starts_with(trimmed, "{") || starts_with(trimmed, "[")
}

/// `source.db` step: run a SQL query and emit one record per row.
#[derive(Debug)]
pub struct DbSource {
    pub name: String,
    pub path: String,
    pub query: String,
}

impl DbSource {
    /// Build the step.
    pub fn build(path: String, query: String) -> (r: DbSource)
        ensures
            r.name@ == "db:"@ + path@,
            r.path == path,
            r.query == query,
    {
        DbSource { name: concat2("db:", path.as_str()), path, query }
    }
}

/// `sink.db` step: buffer records and insert them into a SQLite table on flush.
#[derive(Debug)]
pub struct DbSink {
    pub name: String,
    pub path: String,
    pub table: String,
}

impl DbSink {
    /// Build the step.
    pub fn build(path: String, table: String) -> (r: DbSink)
        ensures
            r.name@ == "db:"@ + path@,
            r.path == path,
            r.table == table,
    {
        DbSink { name: concat2("db:", path.as_str()), path, table }
    }
}

/// The texts of `items` joined with `sep`, each mapped by `f` first.
pub open spec fn joined(items: Seq<Seq<char>>, sep: Seq<char>) -> Seq<char>
    decreases items.len(),
{
    if items.len() == 0 {
        Seq::empty()
    } else if items.len() == 1 {
        items[0]
    } else {
        joined(items.drop_last(), sep) + sep + items.last()
    }
}

/// The views of a list of strings.
pub open spec fn texts(v: Seq<String>) -> Seq<Seq<char>> {
    v.map_values(|s: String| s@)
}

/// Join the texts of `items` with `sep`, each followed by `suffix`.
fn join_with(items: &Vec<String>, suffix: &str, sep: &str) -> (r: String)
    ensures
        r@ == joined(items@.map_values(|s: String| s@ + suffix@), sep@),
{
    let ghost all = items@.map_values(|s: String| s@ + suffix@);
    let mut r = String::new();
    let mut i: usize = 0;
    while i < items.len()
        invariant
            i <= items@.len(),
            all == items@.map_values(|s: String| s@ + suffix@),
            r@ == joined(all.subrange(0, i as int), sep@),
        decreases items.len() - i,
    {
        assert(all.subrange(0, i + 1).drop_last() =~= all.subrange(0, i as int));
        if i > 0 {
            r.append(sep);
        }
        r.append(items[i].as_str());
        r.append(suffix);
        proof {
            if i == 0 {
                assert(all.subrange(0, 1) =~= seq![all[0]]);
            }
            assert(r@ =~= joined(all.subrange(0, i + 1), sep@));
        }
        i = i + 1;
    }
    assert(all.subrange(0, items@.len() as int) =~= all);
    r
}

/// The insert statement of a table: its columns, and one `?` per column.
pub open spec fn insert_sql_spec(table: Seq<char>, columns: Seq<String>) -> Seq<char> {
    "INSERT INTO "@ + table + " ("@ + joined(texts(columns), ", "@) + ") VALUES ("@ + joined(
        Seq::new(columns.len(), |i: int| "?"@),
        ", "@,
    ) + ")"@
}

/// Build the insert statement of a table.
pub fn insert_sql(table: &str, columns: &Vec<String>) -> (r: String)
    ensures
        r@ == insert_sql_spec(table@, columns@),
{
    let cols = join_with(columns, "", ", ");
    proof {
        reveal_strlit("");
    }
    assert(columns@.map_values(|s: String| s@ + ""@) =~= texts(columns@));
    let mut marks: Vec<String> = Vec::new();
    let mut i: usize = 0;
    while i < columns.len()
        invariant
            i <= columns@.len(),
            marks@.len() == i,
            forall|q: int| 0 <= q < i ==> (#[trigger] marks@[q])@ == "?"@,
        decreases columns.len() - i,
    {
        marks.push("?".to_owned());
        i = i + 1;
    }
    let placeholders = join_with(&marks, "", ", ");
    assert(marks@.map_values(|s: String| s@ + ""@) =~= Seq::new(columns@.len(), |i: int| "?"@));
    let mut r = concat4("INSERT INTO ", table, " (", cols.as_str());
    r.append(") VALUES (");
    r.append(placeholders.as_str());
    r.append(")");
    r
}

/// The create statement of a table: every column typed `TEXT`.
pub open spec fn create_table_spec(table: Seq<char>, columns: Seq<String>) -> Seq<char> {
    "CREATE TABLE IF NOT EXISTS "@ + table + " ("@ + joined(columns.map_values(|s: String| s@ + " TEXT"@), ", "@)
        + ")"@
}

/// Build the create statement of a table.
pub fn create_table_sql(table: &str, columns: &Vec<String>) -> (r: String)
    ensures
        r@ == create_table_spec(table@, columns@),
{
    let defs = join_with(columns, " TEXT", ", ");
    let mut r = concat4("CREATE TABLE IF NOT EXISTS ", table, " (", defs.as_str());
    r.append(")");
    r
}

/// The member names of an object payload, in order.
pub fn first_object_keys(payload: &Json) -> (r: Result<Vec<String>, String>)
    ensures
        match payload {
            Json::Object(m) => r matches Ok(keys) && keys@.len() == m@.len() && forall|i: int|
                0 <= i < keys@.len() ==> #[trigger] keys@[i] == m@[i].0,
            _ => r matches Err(e) && e@ == "db sink requires object records"@,
        },
{
    match payload {
        Json::Object(members) => {
            let mut keys: Vec<String> = Vec::new();
            let mut i: usize = 0;
            while i < members.len()
                invariant
                    i <= members@.len(),
                    keys@.len() == i,
                    forall|q: int| 0 <= q < i ==> #[trigger] keys@[q] == members@[q].0,
                decreases members.len() - i,
            {
                keys.push(members[i].0.clone());
                i = i + 1;
            }
            Ok(keys)
        },
        _ => Err("db sink requires object records".to_owned()),
    }
}

/// The text a value is stored as in a column: a string as it is, null as
/// nothing, a boolean or number as written, and an array or object as its
/// serialized JSON text, `serialized`.
pub fn json_text(value: &Json, serialized: &str) -> (r: String)
    ensures
        r@ == match value@ {
            JsonView::Str(s) => s,
            JsonView::Null => Seq::empty(),
            JsonView::Bool(b) => if b {
                "true"@
            } else {
                "false"@
            },
            JsonView::Number(n) => n,
            _ => serialized@,
        },
{
    match value {
        Json::Str(s) => s.clone(),
        Json::Null => String::new(),
        Json::Bool(b) => if *b {
            "true".to_owned()
        } else {
            "false".to_owned()
        },
        Json::Number(n) => n.clone(),
        _ => serialized.to_owned(),
    }
}

} // verus!
