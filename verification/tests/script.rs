use sohara::json::Json;
use sohara::runtime::record::Record;
use sohara::script::{
    http_method, load_source, merge_emitted, module_candidate, module_fallback, module_not_found, now,
    outcome_from_value, parse_http_opts, records_from_outcome, require, script_dir, sql_params, uuid, var_value,
    HttpMethod, LogLevel, ScriptSource, SqlParam, StepEnv, TransformOutcome, log_level,
};

#[test]
fn host_file_write_requires_permission() {
    let none: Vec<String> = Vec::new();
    assert_eq!(
        require(&none, "file.write"),
        Err("permission 'file.write' not granted; add it to the script step's 'allow' config".to_owned())
    );
    assert_eq!(require(&vec!["file.write".to_owned()], "file.write"), Ok(()));
    assert_eq!(require(&vec!["all".to_owned()], "db"), Ok(()));
}

#[test]
fn script_sources_are_exclusive() {
    assert!(matches!(load_source(Some("a.js".to_owned()), None, "script step"), Ok(ScriptSource::File(p)) if p == "a.js"));
    assert!(matches!(load_source(None, Some("x".to_owned()), "script step"), Ok(ScriptSource::Inline(c)) if c == "x"));
    assert!(matches!(load_source(None, None, "script step"), Err(m) if m == "script step: needs a 'script' file or 'inline' code"));
    assert!(matches!(load_source(Some("a".to_owned()), Some("b".to_owned()), "script sink"), Err(m) if m == "script sink: 'script' and 'inline' are mutually exclusive"));
}

#[test]
fn entry_results_become_outcomes() {
    assert!(matches!(outcome_from_value(Json::Null), TransformOutcome::Filtered));
    match outcome_from_value(Json::Array(vec![Json::Bool(true), Json::Null])) {
        TransformOutcome::Expand(records) => assert_eq!(records.len(), 2),
        other => panic!("unexpected {other:?}"),
    }
    let merged = merge_emitted(vec![Json::Str("e".to_owned())], outcome_from_value(Json::Str("p".to_owned())));
    let records = records_from_outcome(merged).unwrap();
    let payloads: Vec<Json> = records.into_iter().map(|r: Record| r.payload).collect();
    assert_eq!(payloads, vec![Json::Str("p".to_owned()), Json::Str("e".to_owned())]);
    let failed = merge_emitted(vec![Json::Null], TransformOutcome::Fail("boom".to_owned()));
    assert_eq!(records_from_outcome(failed).err(), Some("boom".to_owned()));
}

#[test]
fn http_options_and_methods() {
    let opts = Json::Object(vec![
        ("url".to_owned(), Json::Str("http://x".to_owned())),
        ("method".to_owned(), Json::Str("post".to_owned())),
        ("timeout_ms".to_owned(), Json::Number("250".to_owned())),
        ("body".to_owned(), Json::Null),
    ]);
    let parsed = parse_http_opts(&opts).unwrap();
    assert_eq!(parsed.url, "http://x");
    assert_eq!(parsed.method, "POST");
    assert_eq!(parsed.timeout_ms, 250);
    assert!(parsed.body.is_none());
    let defaults = parse_http_opts(&Json::Object(vec![("url".to_owned(), Json::Str("u".to_owned()))])).unwrap();
    assert_eq!(defaults.method, "GET");
    assert_eq!(defaults.timeout_ms, 10_000);
    assert_eq!(parse_http_opts(&Json::Null).err(), Some("sohara.http.request: opts.url is required".to_owned()));
    assert_eq!(http_method("PATCH"), Ok(HttpMethod::Patch));
    assert_eq!(http_method("TRACE"), Err("sohara.http.request: unsupported method 'TRACE'".to_owned()));
}

#[test]
fn sql_parameters_bind_by_kind() {
    let params = sql_params(Json::Array(vec![
        Json::Bool(true),
        Json::Number("-4".to_owned()),
        Json::Number("2.5".to_owned()),
        Json::Str("s".to_owned()),
        Json::Null,
    ]));
    assert!(matches!(params[0], SqlParam::Integer(1)));
    assert!(matches!(params[1], SqlParam::Integer(-4)));
    assert!(matches!(&params[2], SqlParam::Real(t) if t == "2.5"));
    assert!(matches!(&params[3], SqlParam::Text(t) if t == "s"));
    assert!(matches!(params[4], SqlParam::Null));
    assert!(sql_params(Json::Null).is_empty());
}

#[test]
fn modules_resolve_against_the_script_directory() {
    assert_eq!(script_dir(Some("flows/steps/enrich.js")), Some("flows/steps".to_owned()));
    assert_eq!(script_dir(None), None);
    assert_eq!(module_candidate("/lib/util.js", Some("flows")), "/lib/util.js");
    assert_eq!(module_candidate("util.js", Some("flows")), "flows/util.js");
    assert_eq!(module_candidate("util.js", None), "util.js");
    assert_eq!(module_fallback("flows/util"), Some("flows/util.js".to_owned()));
    assert_eq!(module_fallback("flows/util.mjs"), None);
    assert_eq!(module_not_found("util"), "require: module 'util' not found");
}

#[test]
fn host_values_for_scripts() {
    let vars = vec![("region".to_owned(), Json::Str("eu".to_owned())), ("region".to_owned(), Json::Null)];
    assert_eq!(var_value(&vars, "region"), Some(Json::Str("eu".to_owned())));
    assert_eq!(var_value(&vars, "missing"), None);
    assert!(matches!(now(), Json::Str(s) if s.contains('T')));
    assert!(matches!(uuid(), Json::Str(s) if s.len() == 36));
}

#[test]
fn script_time_is_utc_rfc3339_text() {
    match now() {
        Json::Str(s) => {
            assert!(s.len() >= 25);
            assert!(s.ends_with("+00:00"));
            assert_eq!(&s[4..5], "-");
            assert_eq!(&s[7..8], "-");
            assert_eq!(&s[10..11], "T");
        }
        other => panic!("not a string: {other:?}"),
    }
}

#[test]
fn module_fallback_treats_a_leading_dot_as_no_extension() {
    assert_eq!(module_fallback("lib/.hidden"), Some("lib/.hidden.js".to_owned()));
}

#[test]
fn step_environment_keeps_state_and_collects_emits() {
    let vars = vec![("threshold".to_owned(), Json::Number("5".to_owned()))];
    let mut env = StepEnv::new("", Some("flows/enrich.js"), vars, "demo".to_owned(), vec!["db".to_owned()], None, false);
    assert_eq!(env.name, "script");
    assert_eq!(env.script_dir, Some("flows".to_owned()));
    assert_eq!(env.state, Json::Object(vec![]));
    assert_eq!(env.module_candidate("util.js"), "flows/util.js");
    assert_eq!(env.var("threshold"), Some(Json::Number("5".to_owned())));
    assert_eq!(env.require("db"), Ok(()));
    assert!(env.require("http").is_err());
    assert_eq!(
        env.notify_check(),
        Err("permission 'notify' not granted; add it to the script step's 'allow' config".to_owned())
    );
    env.begin_invocation();
    assert_eq!(env.correlation_id.len(), 36);
    env.emit(Json::Number("1".to_owned()));
    env.emit(Json::Number("2".to_owned()));
    env.state_sync(Json::Object(vec![("seen".to_owned(), Json::Number("2".to_owned()))]));
    assert_eq!(env.take_emitted(), vec![Json::Number("1".to_owned()), Json::Number("2".to_owned())]);
    assert!(env.emitted.is_empty());
    let first = env.correlation_id.clone();
    env.begin_invocation();
    assert_ne!(env.correlation_id, first);
    assert_eq!(env.state, Json::Object(vec![("seen".to_owned(), Json::Number("2".to_owned()))]));

    let served = StepEnv::new("s", None, vec![], "demo".to_owned(), vec!["notify".to_owned()], None, true);
    assert_eq!(served.notify_check(), Ok(()));
    let run_mode = StepEnv::new("s", None, vec![], "demo".to_owned(), vec!["all".to_owned()], None, false);
    assert_eq!(run_mode.notify_check(), Err("sohara.notify: no event bus in run mode (use serve)".to_owned()));
}

#[test]
fn script_log_levels() {
    assert_eq!(log_level("error"), LogLevel::Error);
    assert_eq!(log_level("warn"), LogLevel::Warn);
    assert_eq!(log_level("debug"), LogLevel::Debug);
    assert_eq!(log_level("info"), LogLevel::Info);
    assert_eq!(log_level("loud"), LogLevel::Info);
}

#[test]
fn emitted_records_carry_no_metadata_and_passed_ones_keep_theirs() {
    let mut passed = Record::new(Json::Number("1".to_owned()));
    passed.metadata.push(("trace".to_owned(), "t1".to_owned()));
    match merge_emitted(vec![Json::Number("2".to_owned())], TransformOutcome::Pass(passed)) {
        TransformOutcome::Expand(all) => {
            assert_eq!(all.len(), 2);
            assert_eq!(all[0].metadata, vec![("trace".to_owned(), "t1".to_owned())]);
            assert_eq!(all[1].payload, Json::Number("2".to_owned()));
            assert!(all[1].metadata.is_empty());
        }
        other => panic!("unexpected {other:?}"),
    }
}
