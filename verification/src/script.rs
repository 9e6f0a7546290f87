//! Script steps: permissions, script sources, entry outcomes, and the
//! options of the host calls scripts make.

use vstd::prelude::*;

use crate::clock::{new_uuid, now_rfc3339, utc_timestamp};
use crate::json::{first_member_at, has_member, lemma_members_view, members_view, Json, JsonView};
use crate::keyed::{find_key, Keyed};
use crate::paths::{extension, is_absolute, join, parent, path_extension, path_is_absolute, path_join, path_parent, path_with_extension, with_extension};
use crate::runtime::record::Record;
use crate::text::{ascii_uppercase, concat2, concat3, parse_i64_spec, parse_i64_text, parse_u64_digits, parse_u64_spec, str_eq, upper_char};

verus! {

/// Whether the granted permissions allow `permission`.
pub open spec fn granted(permissions: Seq<String>, permission: Seq<char>) -> bool {
    exists|i: int| 0 <= i < permissions.len() && ((#[trigger] permissions[i])@ == permission || permissions[i]@ == "all"@)
}

/// Check a permission: it must be granted, or `all` must be.
pub fn require(permissions: &Vec<String>, permission: &str) -> (r: Result<(), String>)
    ensures
        granted(permissions@, permission@) ==> r is Ok,
        !granted(permissions@, permission@) ==> (r matches Err(m) && m@ == "permission '"@ + permission@
            + "' not granted; add it to the script step's 'allow' config"@),
{
    let mut i: usize = 0;
    while i < permissions.len()
        invariant
            i <= permissions@.len(),
            forall|j: int| 0 <= j < i ==> !((#[trigger] permissions@[j])@ == permission@ || permissions@[j]@ == "all"@),
        decreases permissions.len() - i,
    {
        if str_eq(permissions[i].as_str(), permission) || str_eq(permissions[i].as_str(), "all") {
            return Ok(());
        }
        i = i + 1;
    }
    Err(concat3("permission '", permission, "' not granted; add it to the script step's 'allow' config"))
}

/// Where a script's source comes from.
#[derive(Debug)]
pub enum ScriptSource {
    /// Read the file at this path.
    File(String),
    /// The code itself.
    Inline(String),
}

/// Decide where a script's source comes from: exactly one of a file and
/// inline code must be given. `what` names the step in errors.
pub fn load_source(script: Option<String>, inline: Option<String>, what: &str) -> (r: Result<ScriptSource, String>)
    ensures
        match (script, inline) {
            (Some(p), None) => r matches Ok(ScriptSource::File(q)) && q == p,
            (None, Some(c)) => r matches Ok(ScriptSource::Inline(q)) && q == c,
            (None, None) => r matches Err(m) && m@ == what@ + ": needs a 'script' file or 'inline' code"@,
            (Some(_), Some(_)) => r matches Err(m) && m@ == what@ + ": 'script' and 'inline' are mutually exclusive"@,
        },
{
    match (script, inline) {
        (Some(p), None) => Ok(ScriptSource::File(p)),
        (None, Some(c)) => Ok(ScriptSource::Inline(c)),
        (None, None) => Err(concat2(what, ": needs a 'script' file or 'inline' code")),
        (Some(_), Some(_)) => Err(concat2(what, ": 'script' and 'inline' are mutually exclusive")),
    }
}

/// The name a script step reports: its own, or `script` when it has none.
pub fn step_name(name: &str) -> (r: String)
    ensures
        r@ == if name@.len() == 0 {
            "script"@
        } else {
            name@
        },
{
    if name.unicode_len() == 0 {
        "script".to_owned()
    } else {
        name.to_owned()
    }
}

/// The directory of a script file, for resolving its modules: the file's
/// parent, when it has one; inline code has none.
pub fn script_dir(script: Option<&str>) -> (r: Option<String>)
    ensures
        match script {
            Some(p) => match path_parent(p@) {
                Some(d) => r matches Some(q) && q@ == d,
                None => r is None,
            },
            None => r is None,
        },
{
    match script {
        Some(p) => parent(p),
        None => None,
    }
}

/// The first path `require` tries for a module: an absolute path as it is,
/// else the path joined to the script's directory when there is one, else
/// the path as it is.
pub open spec fn module_candidate_spec(path: Seq<char>, dir: Option<Seq<char>>) -> Seq<char> {
    if path_is_absolute(path) {
        path
    } else {
        match dir {
            Some(d) => path_join(d, path),
            None => path,
        }
    }
}

/// The first path `require` tries for a module.
pub fn module_candidate(path: &str, script_dir: Option<&str>) -> (r: String)
    ensures
        r@ == module_candidate_spec(path@, match script_dir {
            Some(d) => Some(d@),
            None => None,
        }),
{
    if is_absolute(path) {
        path.to_owned()
    } else {
        match script_dir {
            Some(d) => join(d, path),
            None => path.to_owned(),
        }
    }
}

/// The second path `require` tries when the first is no file: the first
/// with the `js` extension, when it has no extension; `None` when it has
/// one (there is nothing else to try).
pub fn module_fallback(candidate: &str) -> (r: Option<String>)
    ensures
        path_extension(candidate@) is Some ==> r is None,
        path_extension(candidate@) is None ==> (r matches Some(q) && q@ == path_with_extension(candidate@, "js"@)),
{
    if extension(candidate).is_some() {
        None
    } else {
        proof {
            reveal_strlit("js");
        }
        Some(with_extension(candidate, "js"))
    }
}

/// The error of a module that was not found.
pub fn module_not_found(path: &str) -> (r: String)
    ensures
        r@ == "require: module '"@ + path@ + "' not found"@,
{
    concat3("require: module '", path, "' not found")
}

/// The value of flow variable `name`, from the first variable of that name
/// (`None` when undefined).
pub fn var_value(vars: &Vec<(String, Json)>, name: &str) -> (r: Option<Json>)
    ensures
        match r {
            Some(v) => exists|i: int| first_member_at(members_view(vars@), name@, i) && v@ == members_view(vars@)[i].1,
            None => !has_member(members_view(vars@), name@),
        },
{
    proof {
        lemma_members_view(vars@);
    }
    match find_key(vars, name) {
        Some(i) => {
            assert(first_member_at(members_view(vars@), name@, i as int)) by {
                assert forall|j: int| 0 <= j < i implies (#[trigger] members_view(vars@)[j]).0 != name@ by {
                    assert(vars@[j].key() != name@);
                }
            }
            Some(vars[i].1.duplicate())
        },
        None => {
            assert(!has_member(members_view(vars@), name@)) by {
                if has_member(members_view(vars@), name@) {
                    let j = choose|j: int| 0 <= j < members_view(vars@).len() && (#[trigger] members_view(vars@)[j]).0 == name@;
                    assert(vars@[j].key() == name@);
                }
            }
            None
        },
    }
}

/// The level a script's log line is written at.
#[derive(Debug, Clone, Copy, PartialEq, Eq, Structural)]
pub enum LogLevel {
    Error,
    Warn,
    Debug,
    Info,
}

/// The level named by a script: `error`, `warn` and `debug` as named,
/// anything else `info`.
pub fn log_level(level: &str) -> (r: LogLevel)
    ensures
        r == if level@ == "error"@ {
            LogLevel::Error
        } else if level@ == "warn"@ {
            LogLevel::Warn
        } else if level@ == "debug"@ {
            LogLevel::Debug
        } else {
            LogLevel::Info
        },
{
    if str_eq(level, "error") {
        LogLevel::Error
    } else if str_eq(level, "warn") {
        LogLevel::Warn
    } else if str_eq(level, "debug") {
        LogLevel::Debug
    } else {
        LogLevel::Info
    }
}

/// The current time for scripts: an RFC 3339 string in UTC.
pub fn now() -> (r: Json)
    ensures
        r matches Json::Str(s) && utc_timestamp(s@),
{
    Json::Str(now_rfc3339())
}

/// A fresh random id for scripts: a 36-character string.
pub fn uuid() -> (r: Json)
    ensures
        r matches Json::Str(s) && s@.len() == 36,
{
    Json::Str(new_uuid())
}

/// The environment of one script step: its identity, the flow's
/// variables, the permissions it was granted, its state (kept across
/// records of a run) and the records the current invocation emitted.
#[derive(Debug)]
pub struct StepEnv {
    /// The step's name, for diagnostics.
    pub name: String,
    /// The script file's directory (module resolution; none for inline code).
    pub script_dir: Option<String>,
    /// The flow's variables.
    pub vars: Vec<(String, Json)>,
    /// The flow's name.
    pub flow: String,
    /// The granted permissions.
    pub permissions: Vec<String>,
    /// The SQLite path for database queries.
    pub db: Option<String>,
    /// Whether an event bus is at hand (serve mode).
    pub has_bus: bool,
    /// The script's state.
    pub state: Json,
    /// The records the current invocation emitted, in order.
    pub emitted: Vec<Json>,
    /// The correlation id of the current invocation.
    pub correlation_id: String,
}

impl StepEnv {
    /// The environment of a script step: named after the step (`script`
    /// when it has no name), resolving modules next to its script file, with
    /// an empty object as state, nothing emitted and no correlation id yet.
    pub fn new(
        name: &str,
        script: Option<&str>,
        vars: Vec<(String, Json)>,
        flow: String,
        permissions: Vec<String>,
        db: Option<String>,
        has_bus: bool,
    ) -> (r: StepEnv)
        ensures
            r.name@ == if name@.len() == 0 {
                "script"@
            } else {
                name@
            },
            match script {
                Some(p) => match path_parent(p@) {
                    Some(d) => r.script_dir matches Some(q) && q@ == d,
                    None => r.script_dir is None,
                },
                None => r.script_dir is None,
            },
            r.vars == vars,
            r.flow == flow,
            r.permissions == permissions,
            r.db == db,
            r.has_bus == has_bus,
            r.state@ == JsonView::Object(Seq::empty()),
            r.emitted@.len() == 0,
            r.correlation_id@.len() == 0,
    {
        let state = Json::Object(Vec::new());
        proof {
            lemma_members_view(Seq::<(String, Json)>::empty());
        }
        StepEnv {
            name: step_name(name),
            script_dir: script_dir(script),
            vars,
            flow,
            permissions,
            db,
            has_bus,
            state,
            emitted: Vec::new(),
            correlation_id: String::new(),
        }
    }

    /// Check a permission (`all` grants every one).
    pub fn require(&self, permission: &str) -> (r: Result<(), String>)
        ensures
            granted(self.permissions@, permission@) ==> r is Ok,
            !granted(self.permissions@, permission@) ==> (r matches Err(m) && m@ == "permission '"@ + permission@
                + "' not granted; add it to the script step's 'allow' config"@),
    {
        require(&self.permissions, permission)
    }

    /// The first path `require` tries for a module of this step.
    pub fn module_candidate(&self, path: &str) -> (r: String)
        ensures
            r@ == module_candidate_spec(path@, match self.script_dir {
                Some(d) => Some(d@),
                None => None,
            }),
    {
        match &self.script_dir {
            Some(d) => module_candidate(path, Some(d.as_str())),
            None => module_candidate(path, None),
        }
    }

    /// The value of flow variable `name`.
    pub fn var(&self, name: &str) -> (r: Option<Json>)
        ensures
            match r {
                Some(v) => exists|i: int| first_member_at(members_view(self.vars@), name@, i) && v@ == members_view(self.vars@)[i].1,
                None => !has_member(members_view(self.vars@), name@),
            },
    {
        var_value(&self.vars, name)
    }

    /// Whether a script may publish to the event bus: it needs the `notify`
    /// permission and a bus (serve mode).
    pub fn notify_check(&self) -> (r: Result<(), String>)
        ensures
            !granted(self.permissions@, "notify"@) ==> (r matches Err(m) && m@ == "permission '"@ + "notify"@
                + "' not granted; add it to the script step's 'allow' config"@),
            granted(self.permissions@, "notify"@) && !self.has_bus ==> (r matches Err(m) && m@ == "sohara.notify: no event bus in run mode (use serve)"@),
            granted(self.permissions@, "notify"@) && self.has_bus ==> r is Ok,
    {
        match require(&self.permissions, "notify") {
            Err(e) => Err(e),
            Ok(()) => if self.has_bus {
                Ok(())
            } else {
                Err("sohara.notify: no event bus in run mode (use serve)".to_owned())
            },
        }
    }

    /// Start an invocation: a fresh correlation id and an empty emit buffer;
    /// the state carries over.
    pub fn begin_invocation(&mut self)
        ensures
            final(self).correlation_id@.len() == 36,
            final(self).emitted@.len() == 0,
            final(self).state == old(self).state,
            final(self).name == old(self).name,
            final(self).script_dir == old(self).script_dir,
            final(self).vars == old(self).vars,
            final(self).flow == old(self).flow,
            final(self).permissions == old(self).permissions,
            final(self).db == old(self).db,
            final(self).has_bus == old(self).has_bus,
    {
        self.correlation_id = new_uuid();
        self.emitted = Vec::new();
    }

    /// `ctx.emit`: add a record to the invocation's output.
    pub fn emit(&mut self, value: Json)
        ensures
            final(self).emitted@ == old(self).emitted@.push(value),
            final(self).state == old(self).state,
            final(self).correlation_id == old(self).correlation_id,
    {
        self.emitted.push(value);
    }

    /// `ctx.state` written back by the script.
    pub fn state_sync(&mut self, state: Json)
        ensures
            final(self).state == state,
            final(self).emitted == old(self).emitted,
            final(self).correlation_id == old(self).correlation_id,
    {
        self.state = state;
    }

    /// Take the records the invocation emitted (the buffer is emptied).
    pub fn take_emitted(&mut self) -> (r: Vec<Json>)
        ensures
            r@ == old(self).emitted@,
            final(self).emitted@.len() == 0,
            final(self).state == old(self).state,
            final(self).correlation_id == old(self).correlation_id,
    {
        let mut out: Vec<Json> = Vec::new();
        std::mem::swap(&mut out, &mut self.emitted);
        out
    }
}

/// What a transform produced for one record.
#[derive(Debug)]
pub enum TransformOutcome {
    Pass(Record),
    Filtered,
    Expand(Vec<Record>),
    Fail(String),
}

/// The outcome of an entry's return value: nothing (undefined or null)
/// filters the record, an array expands to one record per item, and any
/// other value passes as the new payload.
pub fn outcome_from_value(value: Json) -> (r: TransformOutcome)
    ensures
        value@ == JsonView::Null ==> r is Filtered,
        value matches Json::Array(items) ==> (r matches TransformOutcome::Expand(recs) && recs@.len() == items@.len()
            && forall|i: int| 0 <= i < recs@.len() ==> (#[trigger] recs@[i]).payload == items@[i] && recs@[i].metadata@.len() == 0),
        !(value@ == JsonView::Null) && !(value is Array) ==> (r matches TransformOutcome::Pass(rec) && rec.payload == value
            && rec.metadata@.len() == 0),
{
    match value {
        Json::Null => TransformOutcome::Filtered,
        Json::Array(items) => TransformOutcome::Expand(records_of(items)),
        other => TransformOutcome::Pass(Record::new(other)),
    }
}

/// One record per payload, in order.
pub fn records_of(items: Vec<Json>) -> (r: Vec<Record>)
    ensures
        r@.len() == items@.len(),
        forall|i: int| 0 <= i < r@.len() ==> (#[trigger] r@[i]).payload == items@[i] && r@[i].metadata@.len() == 0,
{
    let ghost all = items@;
    let total = items.len();
    let mut items = items;
    let mut out: Vec<Record> = Vec::new();
    let mut i: usize = 0;
    while items.len() > 0
        invariant
            all.len() == total,
            i + items@.len() == all.len(),
            items@ == all.subrange(i as int, all.len() as int),
            out@.len() == i,
            forall|q: int| 0 <= q < i ==> (#[trigger] out@[q]).payload == all[q] && out@[q].metadata@.len() == 0,
        decreases items.len(),
    {
        let item = items.remove(0);
        assert(item == all[i as int]);
        out.push(Record::new(item));
        i = i + 1;
        assert(items@ =~= all.subrange(i as int, all.len() as int));
    }
    out
}

/// `records` are the emitted values as new records, in order: each value
/// as the payload, with no metadata.
pub open spec fn emitted_records(records: Seq<Record>, emitted: Seq<Json>) -> bool {
    &&& records.len() == emitted.len()
    &&& forall|i: int| 0 <= i < records.len() ==> (#[trigger] records[i]).payload == emitted[i] && records[i].metadata@.len() == 0
}

/// Merge the records a script emitted into the outcome of its entry: they
/// follow a passed record or expanded records, replace a filtered outcome,
/// and are dropped after a failure.
pub fn merge_emitted(emitted: Vec<Json>, outcome: TransformOutcome) -> (r: TransformOutcome)
    ensures
        emitted@.len() == 0 ==> r == outcome,
        emitted@.len() > 0 ==> match outcome {
            TransformOutcome::Expand(items) => r matches TransformOutcome::Expand(all) && {
                &&& all@.len() == items@.len() + emitted@.len()
                &&& all@.subrange(0, items@.len() as int) == items@
                &&& emitted_records(all@.subrange(items@.len() as int, all@.len() as int), emitted@)
            },
            TransformOutcome::Pass(rec) => r matches TransformOutcome::Expand(all) && {
                &&& all@.len() == emitted@.len() + 1
                &&& all@[0] == rec
                &&& emitted_records(all@.drop_first(), emitted@)
            },
            TransformOutcome::Filtered => r matches TransformOutcome::Expand(all) && emitted_records(all@, emitted@),
            TransformOutcome::Fail(m) => r == TransformOutcome::Fail(m),
        },
{
    if emitted.len() == 0 {
        return outcome;
    }
    let records = records_of(emitted);
    let ghost rs = records@;
    assert(emitted_records(rs, emitted@));
    match outcome {
        TransformOutcome::Expand(items) => {
            let mut items = items;
            let ghost before = items@;
            let mut records = records;
            items.append(&mut records);
            assert(items@.subrange(0, before.len() as int) =~= before);
            assert(items@.subrange(before.len() as int, items@.len() as int) =~= rs);
            TransformOutcome::Expand(items)
        },
        TransformOutcome::Pass(rec) => {
            let mut items: Vec<Record> = Vec::new();
            let ghost first = rec;
            items.push(rec);
            let mut records = records;
            items.append(&mut records);
            assert(items@.drop_first() =~= rs);
            assert(items@[0] == first);
            TransformOutcome::Expand(items)
        },
        TransformOutcome::Filtered => TransformOutcome::Expand(records),
        other => other,
    }
}

/// The records a script source yields: a passed record, the expanded ones,
/// or none; a failure is returned as the error.
pub fn records_from_outcome(outcome: TransformOutcome) -> (r: Result<Vec<Record>, String>)
    ensures
        match outcome {
            TransformOutcome::Pass(rec) => r matches Ok(v) && v@ == seq![rec],
            TransformOutcome::Expand(recs) => r matches Ok(v) && v@ == recs@,
            TransformOutcome::Filtered => r matches Ok(v) && v@.len() == 0,
            TransformOutcome::Fail(m) => r == Err::<Vec<Record>, String>(m),
        },
{
    match outcome {
        TransformOutcome::Pass(rec) => {
            let mut v: Vec<Record> = Vec::new();
            v.push(rec);
            Ok(v)
        },
        TransformOutcome::Expand(recs) => Ok(recs),
        TransformOutcome::Filtered => Ok(Vec::new()),
        TransformOutcome::Fail(m) => Err(m),
    }
}

/// The HTTP methods scripts may use.
#[derive(Debug, Clone, Copy, PartialEq, Eq, Structural)]
pub enum HttpMethod {
    Get,
    Post,
    Put,
    Delete,
    Patch,
    Head,
}

/// The method a name stands for, if it is supported.
pub open spec fn method_of(name: Seq<char>) -> Option<HttpMethod> {
    if name == "GET"@ {
        Some(HttpMethod::Get)
    } else if name == "POST"@ {
        Some(HttpMethod::Post)
    } else if name == "PUT"@ {
        Some(HttpMethod::Put)
    } else if name == "DELETE"@ {
        Some(HttpMethod::Delete)
    } else if name == "PATCH"@ {
        Some(HttpMethod::Patch)
    } else if name == "HEAD"@ {
        Some(HttpMethod::Head)
    } else {
        None
    }
}

/// The method a name stands for; other names are refused.
pub fn http_method(method: &str) -> (r: Result<HttpMethod, String>)
    ensures
        match method_of(method@) {
            Some(m) => r == Ok::<HttpMethod, String>(m),
            None => r matches Err(e) && e@ == "sohara.http.request: unsupported method '"@ + method@ + "'"@,
        },
{
    if str_eq(method, "GET") {
        Ok(HttpMethod::Get)
    } else if str_eq(method, "POST") {
        Ok(HttpMethod::Post)
    } else if str_eq(method, "PUT") {
        Ok(HttpMethod::Put)
    } else if str_eq(method, "DELETE") {
        Ok(HttpMethod::Delete)
    } else if str_eq(method, "PATCH") {
        Ok(HttpMethod::Patch)
    } else if str_eq(method, "HEAD") {
        Ok(HttpMethod::Head)
    } else {
        Err(concat3("sohara.http.request: unsupported method '", method, "'"))
    }
}

/// Position `i` holds the first member named `k`.
pub open spec fn member_at(m: Seq<(String, Json)>, k: Seq<char>, i: int) -> bool {
    0 <= i < m.len() && m[i].0@ == k && forall|q: int| 0 <= q < i ==> (#[trigger] m[q]).0@ != k
}

/// The value of the first member named `k` of an object; nothing for other
/// values.
pub open spec fn member(j: Json, k: Seq<char>) -> Option<Json> {
    match j {
        Json::Object(m) => if exists|i: int| member_at(m@, k, i) {
            Some(m@[choose|i: int| member_at(m@, k, i)].1)
        } else {
            None
        },
        _ => None,
    }
}

/// Look up the first member named `key`.
#[verifier::spinoff_prover]
pub fn get_member<'a>(j: &'a Json, key: &str) -> (r: Option<&'a Json>)
    ensures
        match r {
            Some(v) => member(*j, key@) == Some(*v),
            None => member(*j, key@) is None,
        },
{
    match j {
        Json::Object(m) => {
            let mut i: usize = 0;
            while i < m.len()
                invariant
                    i <= m@.len(),
                    *j == Json::Object(*m),
                    forall|q: int| 0 <= q < i ==> (#[trigger] m@[q]).0@ != key@,
                decreases m.len() - i,
            {
                if str_eq(m[i].0.as_str(), key) {
                    proof {
                        assert(member_at(m@, key@, i as int));
                        let c = choose|c: int| member_at(m@, key@, c);
                        assert(c == i) by {
                            if c < i {
                                assert(m@[c].0@ != key@);
                            } else if c > i {
                                assert(m@[i as int].0@ != key@);
                            }
                        }
                        assert(member(*j, key@) == Some(m@[i as int].1));
                    }
                    return Some(&m[i].1);
                }
                i = i + 1;
            }
            proof {
                assert(!exists|c: int| member_at(m@, key@, c)) by {
                    if exists|c: int| member_at(m@, key@, c) {
                        let c = choose|c: int| member_at(m@, key@, c);
                        assert(m@[c].0@ != key@);
                    }
                }
            }
            None
        },
        _ => None,
    }
}

/// Parsed `sohara.http.request` options.
#[derive(Debug)]
pub struct HttpOptions {
    pub url: String,
    /// The method, upper-cased.
    pub method: String,
    /// The `headers` object's members, as given.
    pub headers: Vec<(String, Json)>,
    pub timeout_ms: u64,
    pub body: Option<Json>,
}

/// The number a canonical JSON integer text stands for, when it is a
/// non-negative 64-bit integer.
pub open spec fn as_u64(j: Option<Json>) -> Option<u64> {
    match j {
        Some(Json::Number(n)) => parse_u64_spec(n@),
        _ => None,
    }
}

/// Parse the options of `sohara.http.request`: `url` is required; the
/// method defaults to `GET` and is upper-cased; `timeout_ms` defaults to
/// ten seconds; a null body is no body.
pub fn parse_http_opts(opts: &Json) -> (r: Result<HttpOptions, String>)
    ensures
        match member(*opts, "url"@) {
            Some(Json::Str(url)) => r matches Ok(o) && {
                &&& o.url == url
                &&& o.method@ == (match member(*opts, "method"@) {
                    Some(Json::Str(m)) => m@,
                    _ => "GET"@,
                }).map_values(|c: char| upper_char(c))
                &&& o.timeout_ms == match as_u64(member(*opts, "timeout_ms"@)) {
                    Some(t) => t,
                    None => 10_000,
                }
                &&& (match member(*opts, "headers"@) {
                    Some(Json::Object(m)) => o.headers@.len() == m@.len() && forall|i: int| 0 <= i < m@.len() ==> (#[trigger] o.headers@[i]).0 == m@[i].0 && o.headers@[i].1@ == m@[i].1@,
                    _ => o.headers@.len() == 0,
                })
                &&& (match member(*opts, "body"@) {
                    Some(b) => if b is Null { o.body is None } else { o.body matches Some(x) && x@ == b@ },
                    None => o.body is None,
                })
            },
            _ => r matches Err(e) && e@ == "sohara.http.request: opts.url is required"@,
        },
{
    let url = match get_member(opts, "url") {
        Some(Json::Str(u)) => u.clone(),
        _ => {
            return Err("sohara.http.request: opts.url is required".to_owned());
        },
    };
    let method = match get_member(opts, "method") {
        Some(Json::Str(m)) => ascii_uppercase(m.as_str()),
        _ => ascii_uppercase("GET"),
    };
    let mut headers: Vec<(String, Json)> = Vec::new();
    match get_member(opts, "headers") {
        Some(Json::Object(m)) => {
            let mut i: usize = 0;
            while i < m.len()
                invariant
                    i <= m@.len(),
                    headers@.len() == i,
                    forall|q: int| 0 <= q < i ==> (#[trigger] headers@[q]).0 == m@[q].0 && headers@[q].1@ == m@[q].1@,
                decreases m.len() - i,
            {
                headers.push((m[i].0.clone(), m[i].1.duplicate()));
                i = i + 1;
            }
        },
        _ => {},
    }
    let timeout_ms = match get_member(opts, "timeout_ms") {
        Some(Json::Number(n)) => match parse_u64_digits(n.as_str()) {
            Some(t) => t,
            None => 10_000,
        },
        _ => 10_000,
    };
    let body = match get_member(opts, "body") {
        Some(Json::Null) => None,
        Some(b) => Some(b.duplicate()),
        None => None,
    };
    Ok(HttpOptions { url, method, headers, timeout_ms, body })
}

/// A parameter of a database query.
#[derive(Debug)]
pub enum SqlParam {
    Null,
    Integer(i64),
    /// A number that is not a 64-bit integer, by its JSON text (bound as a
    /// floating-point value).
    Real(String),
    Text(String),
    /// An array or object, bound as its JSON text.
    Composite(Json),
}

/// The parameter a JSON value binds as.
pub open spec fn param_of(v: Json) -> SqlParam {
    match v {
        Json::Null => SqlParam::Null,
        Json::Bool(b) => SqlParam::Integer(if b { 1 } else { 0 }),
        Json::Number(n) => match parse_i64_spec(n@) {
            Some(i) => SqlParam::Integer(i),
            None => SqlParam::Real(n),
        },
        Json::Str(s) => SqlParam::Text(s),
        other => SqlParam::Composite(other),
    }
}

/// The parameters of a query: one per item of an array; nothing for any
/// other value.
pub fn sql_params(params: Json) -> (r: Vec<SqlParam>)
    ensures
        match params {
            Json::Array(items) => r@.len() == items@.len() && forall|i: int| 0 <= i < r@.len() ==> #[trigger] r@[i] == param_of(items@[i]),
            _ => r@.len() == 0,
        },
{
    match params {
        Json::Array(items) => {
            let ghost all = items@;
            let total = items.len();
            let mut items = items;
            let mut out: Vec<SqlParam> = Vec::new();
            let mut i: usize = 0;
            while items.len() > 0
                invariant
                    all.len() == total,
                    i + items@.len() == all.len(),
                    items@ == all.subrange(i as int, all.len() as int),
                    out@.len() == i,
                    forall|q: int| 0 <= q < i ==> #[trigger] out@[q] == param_of(all[q]),
                decreases items.len(),
            {
                let v = items.remove(0);
                assert(v == all[i as int]);
                let p = match v {
                    Json::Null => SqlParam::Null,
                    Json::Bool(b) => SqlParam::Integer(if b { 1 } else { 0 }),
                    Json::Number(n) => match parse_i64_text(n.as_str()) {
                        Some(k) => SqlParam::Integer(k),
                        None => SqlParam::Real(n),
                    },
                    Json::Str(s) => SqlParam::Text(s),
                    other => SqlParam::Composite(other),
                };
                out.push(p);
                i = i + 1;
                assert(items@ =~= all.subrange(i as int, all.len() as int));
            }
            out
        },
        _ => Vec::new(),
    }
}

} // verus!
