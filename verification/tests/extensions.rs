use sohara::json::Json;
use sohara::runtime::record::Record;
use sohara::runtime::stdio_extensions::{
    async_kind_name, blocking_error, blocking_kind_name, check_protocol, default_protocol, ensure_capability,
    flush_error, manifest_registrations, plan_step_build, read_error, register_manifest, segment_after_last_colon,
    take_result, validate_jsonrpc, validate_manifest, write_error, AsyncKind, AsyncSpec, BlockingKind, BuiltKind,
    ComponentKind, ComponentRegistry, ExtensionCapabilities, HostError, JsonRpcError, NamedRegistration, PullBuffer,
    ListedPath, ManifestPathError, PullStep, RequestIds, StdioExtensionHost, StdioExtensionManifest, StepRegistration, select_manifests,
};

fn manifest(name: &str, steps: Vec<(ComponentKind, &str)>) -> StdioExtensionManifest {
    StdioExtensionManifest {
        name: name.to_owned(),
        version: "0.1.0".to_owned(),
        builtin: false,
        protocol: default_protocol(),
        command: "python3".to_owned(),
        cwd: None,
        args: Vec::new(),
        steps: steps
            .into_iter()
            .map(|(kind, t)| StepRegistration { kind, step_type: t.to_owned() })
            .collect(),
        triggers: Vec::new(),
        state_stores: Vec::new(),
        event_buses: Vec::new(),
    }
}

#[test]
fn duplicate_stdio_extension_registration_fails() {
    let mut registry = ComponentRegistry::new();
    registry.register(ComponentKind::Transform, "map".to_owned(), None);
    let host = StdioExtensionHost::new();
    let m = manifest("duplicate", vec![(ComponentKind::Transform, "map")]);
    let error = validate_manifest(&m, &registry, &host, false).unwrap_err();
    assert!(error.message().contains("duplicates existing registration"), "{}", error.message());
}

#[test]
fn untrusted_extensions_cannot_claim_builtin_prefix() {
    let registry = ComponentRegistry::new();
    let host = StdioExtensionHost::new();
    let m = manifest("third-party", vec![(ComponentKind::Transform, "builtin-evil")]);
    let error = validate_manifest(&m, &registry, &host, false).unwrap_err();
    assert!(error.message().contains("reserved for Sohara builtin"), "{}", error.message());
    assert_eq!(error.message(), "registration 'transform:builtin-evil' is reserved for Sohara builtin extensions");
}

#[test]
fn manifest_checks_come_in_order() {
    let registry = ComponentRegistry::new();
    let host = StdioExtensionHost::new();
    let mut m = manifest("x", vec![]);
    assert_eq!(
        validate_manifest(&m, &registry, &host, false).unwrap_err().message(),
        "extension 'x' must declare at least one registration"
    );
    m.protocol = "other/v2".to_owned();
    assert_eq!(
        validate_manifest(&m, &registry, &host, false).unwrap_err().message(),
        "extension 'x' uses unsupported protocol 'other/v2'; expected 'sohara.stdio/v1'"
    );
    m.builtin = true;
    assert_eq!(
        validate_manifest(&m, &registry, &host, false).unwrap_err().message(),
        "extension 'x' declares builtin=true outside Sohara's trusted builtin path"
    );
    let dup = manifest("y", vec![(ComponentKind::Sink, "s"), (ComponentKind::Sink, "s")]);
    assert_eq!(
        validate_manifest(&dup, &registry, &host, false).unwrap_err().message(),
        "extension 'y' declares duplicate kind='sink' type='s'"
    );
}

#[test]
fn registering_a_manifest_fills_registry_and_host() {
    let mut registry = ComponentRegistry::new();
    let mut host = StdioExtensionHost::new();
    let mut m = manifest("ext", vec![(ComponentKind::Transform, "upper")]);
    m.triggers.push(NamedRegistration { component_type: "tick".to_owned() });
    m.state_stores.push(NamedRegistration { component_type: "kv".to_owned() });
    validate_manifest(&m, &registry, &host, false).unwrap();
    register_manifest(&mut registry, &mut host, &m, "/opt/ext/manifest.yaml").unwrap();
    assert!(registry.contains(ComponentKind::Transform, "upper"));
    assert!(!registry.contains(ComponentKind::Sink, "upper"));
    assert_eq!(host.loaded().len(), 1);
    assert_eq!(
        host.loaded()[0].registrations,
        vec!["transform:upper".to_owned(), "trigger:tick".to_owned(), "state_store:kv".to_owned()]
    );
    assert_eq!(host.triggers.len(), 1);
    assert_eq!(host.triggers[0].command, "python3");
    assert_eq!(host.state_stores[0].kind, BlockingKind::StateStore);
    let again = validate_manifest(&m, &registry, &host, false).unwrap_err();
    assert!(again.message().contains("duplicates existing registration"));
}

#[test]
fn control_steps_are_refused_at_registration() {
    let mut registry = ComponentRegistry::new();
    let mut host = StdioExtensionHost::new();
    let m = manifest("ext", vec![(ComponentKind::Source, "gen"), (ComponentKind::Control, "loop")]);
    let error = register_manifest(&mut registry, &mut host, &m, "m.yaml").unwrap_err();
    assert_eq!(
        error.message(),
        "extension 'ext' step 'loop': control steps are not supported in the stdio host"
    );
    assert!(registry.contains(ComponentKind::Source, "gen"));
    assert_eq!(host.loaded().len(), 0);
}

#[test]
fn registration_names_and_segments() {
    let m = manifest("e", vec![(ComponentKind::Source, "a")]);
    assert_eq!(manifest_registrations(&m), vec!["source:a".to_owned()]);
    assert_eq!(segment_after_last_colon("trigger:builtin-x"), "builtin-x");
    assert_eq!(segment_after_last_colon("a:b:c"), "c");
    assert_eq!(segment_after_last_colon("plain"), "plain");
}

#[test]
fn kind_names_capabilities_and_rpc_checks() {
    assert_eq!(async_kind_name(AsyncKind::Trigger), "trigger");
    assert_eq!(blocking_kind_name(BlockingKind::EventBus), "event_bus");
    let caps = ExtensionCapabilities {
        source: true,
        transform: false,
        sink: false,
        trigger: false,
        state_store: true,
        event_bus: false,
    };
    assert!(caps.supports_async(AsyncKind::Source));
    assert!(!caps.supports_async(AsyncKind::Transform));
    assert!(caps.supports_blocking(BlockingKind::StateStore));
    assert!(!caps.supports_blocking(BlockingKind::EventBus));
    assert_eq!(validate_jsonrpc("source.pull", 3, "2.0", 3), Ok(()));
    assert_eq!(
        validate_jsonrpc("source.pull", 3, "2.0", 4),
        Err("mismatched source.pull response id: expected 3, got 4".to_owned())
    );
    assert_eq!(
        validate_jsonrpc("initialize", 1, "1.0", 1),
        Err("invalid initialize JSON-RPC version: 1.0".to_owned())
    );
    assert_eq!(read_error("state.load", "eof"), "failed to read state.load response from extension: eof");
}

fn async_spec(kind: AsyncKind) -> AsyncSpec {
    AsyncSpec {
        extension_name: "ext".to_owned(),
        extension_version: "0.1.0".to_owned(),
        protocol: default_protocol(),
        command: "python3".to_owned(),
        cwd: None,
        args: Vec::new(),
        kind,
        component_type: "acme.enrich".to_owned(),
    }
}

#[test]
fn extension_io_errors_name_the_method() {
    assert_eq!(write_error("source.pull", "broken pipe"), "failed to write source.pull request to extension: broken pipe");
    assert_eq!(flush_error("sink.send", "eof"), "failed to flush sink.send request to extension: eof");
    assert!(matches!(blocking_error("gone".to_owned()), HostError::Runtime(m) if m == "gone"));
}

#[test]
fn jsonrpc_results_report_errors_and_missing_results() {
    assert_eq!(take_result(Some(3), None, "initialize", "ext"), Ok(3));
    assert_eq!(
        take_result::<i32>(None, Some(JsonRpcError { code: -32601, message: "no such method".to_owned() }), "transform", "ext"),
        Err("extension 'ext' transform failed: no such method (-32601)".to_owned())
    );
    assert_eq!(take_result::<i32>(None, None, "sink.flush", "ext"), Err("extension 'ext' returned no result for sink.flush".to_owned()));
}

#[test]
fn protocols_must_match_exactly() {
    assert_eq!(check_protocol("ext", "sohara-stdio/1", "sohara-stdio/1"), Ok(()));
    assert_eq!(
        check_protocol("ext", "sohara-stdio/1", "sohara-stdio/2"),
        Err("extension 'ext' protocol mismatch: host=sohara-stdio/1 extension=sohara-stdio/2".to_owned())
    );
}

#[test]
fn capabilities_gate_async_components() {
    let caps = ExtensionCapabilities { source: true, transform: false, sink: false, trigger: false, state_store: false, event_bus: false };
    assert!(ensure_capability(&caps, &async_spec(AsyncKind::Source)).is_ok());
    match ensure_capability(&caps, &async_spec(AsyncKind::Transform)) {
        Err(HostError::Transform(m)) => assert_eq!(m, "extension 'ext' does not advertise transform capability"),
        other => panic!("unexpected {other:?}"),
    }
}

#[test]
fn step_builds_name_the_extension_and_refuse_triggers() {
    match plan_step_build(&async_spec(AsyncKind::Transform), true) {
        Ok((kind, name)) => {
            assert_eq!(kind, BuiltKind::Transform);
            assert_eq!(name, "ext::acme.enrich");
        }
        other => panic!("unexpected {other:?}"),
    }
    assert!(matches!(
        plan_step_build(&async_spec(AsyncKind::Trigger), true),
        Err(HostError::Config(m)) if m == "trigger 'acme.enrich' must be declared under flow.triggers, not steps"
    ));
    assert!(matches!(
        plan_step_build(&async_spec(AsyncKind::Sink), false),
        Err(HostError::Config(m)) if m == "stdio extension 'acme.enrich' requires step metadata during build"
    ));
}

#[test]
fn pulled_records_are_handed_out_in_order_until_done() {
    let mut buffer = PullBuffer::new();
    assert!(matches!(buffer.next_step(), PullStep::Pull));
    assert_eq!(
        buffer.accept(Vec::new(), false, false, "ext"),
        Err("extension 'ext' returned no records and done=false for source.pull".to_owned())
    );
    assert_eq!(buffer.accept(Vec::new(), false, true, "ext"), Ok(false));
    let records = vec![Record::new(Json::Number("1".to_owned())), Record::new(Json::Number("2".to_owned()))];
    assert_eq!(buffer.accept(records, true, false, "ext"), Ok(true));
    assert!(matches!(buffer.next_step(), PullStep::Emit(r) if r.payload == Json::Number("1".to_owned())));
    assert!(matches!(buffer.next_step(), PullStep::Emit(r) if r.payload == Json::Number("2".to_owned())));
    assert!(matches!(buffer.next_step(), PullStep::End));
}

#[test]
fn request_ids_count_up_from_one() {
    let mut ids = RequestIds::new();
    assert_eq!(ids.take_id(), 1);
    assert_eq!(ids.take_id(), 2);
    assert_eq!(ids.take_id(), 3);
}

#[test]
fn manifest_paths_are_checked_filtered_and_sorted() {
    let listed = vec![
        ListedPath::File { path: "ext/z.yaml".to_owned() },
        ListedPath::Dir {
            path: "ext/more".to_owned(),
            entries: vec![
                ("ext/more/b.json".to_owned(), true),
                ("ext/more/readme.md".to_owned(), true),
                ("ext/more/a.yml".to_owned(), true),
                ("ext/more/sub.json".to_owned(), false),
            ],
        },
    ];
    assert_eq!(
        select_manifests(&listed),
        Ok(vec!["ext/more/a.yml".to_owned(), "ext/more/b.json".to_owned(), "ext/z.yaml".to_owned()])
    );
    let missing = vec![ListedPath::File { path: "a.json".to_owned() }, ListedPath::Missing { path: "gone".to_owned() }];
    let error = select_manifests(&missing).unwrap_err();
    assert_eq!(error, ManifestPathError::NotFound { path: "gone".to_owned() });
    assert_eq!(error.message(), "extension path 'gone' does not exist");
    let unsupported = vec![ListedPath::File { path: "ext.toml".to_owned() }, ListedPath::Missing { path: "gone".to_owned() }];
    let error = select_manifests(&unsupported).unwrap_err();
    assert_eq!(error.message(), "unsupported extension manifest 'ext.toml'; use .json/.yaml/.yml");
}

#[test]
fn manifest_paths_sort_component_by_component() {
    let listed = vec![
        ListedPath::File { path: "x/a-1.yaml".to_owned() },
        ListedPath::File { path: "x/a/1.yaml".to_owned() },
        ListedPath::File { path: "x/a.json".to_owned() },
    ];
    assert_eq!(
        select_manifests(&listed),
        Ok(vec!["x/a/1.yaml".to_owned(), "x/a-1.yaml".to_owned(), "x/a.json".to_owned()])
    );
    // paths with the same components keep their listing order
    let same = vec![ListedPath::File { path: "x//a.yaml".to_owned() }, ListedPath::File { path: "x/a.yaml".to_owned() }];
    assert_eq!(select_manifests(&same), Ok(vec!["x//a.yaml".to_owned(), "x/a.yaml".to_owned()]));
    let same = vec![ListedPath::File { path: "x/a.yaml".to_owned() }, ListedPath::File { path: "x//a.yaml".to_owned() }];
    assert_eq!(select_manifests(&same), Ok(vec!["x/a.yaml".to_owned(), "x//a.yaml".to_owned()]));
}
