//! Policies and the registry of loaded extensions.

use sqlite_wasm::host::{
    compile_extension, from_wit_cap, policy_from_load_options, Host, LoadOptions, WitCapability,
    WitHttpPolicy,
};
use sqlite_wasm::policy::{Capability, HttpPolicy, Policy};

/// A component without contents.
const EMPTY_COMPONENT: &[u8] = b"\0asm\x0d\0\x01\0";

#[test]
fn loads_and_unloads_an_extension() {
    let mut host = Host::new().expect("engine");
    assert!(host.list().is_empty(), "registry starts empty");
    let policy = Policy::deny_all().with_grants(vec![Capability::Text]);
    let name = host
        .load_extension("build/wasm-demo.wasm", Some("wasm-demo"), EMPTY_COMPONENT, policy)
        .expect("load");
    assert_eq!(name, "wasm-demo");
    assert!(host.is_loaded(&name));
    assert_eq!(host.list(), vec!["wasm-demo".to_string()]);
    host.unload(&name).expect("unload");
    assert!(!host.is_loaded(&name));
    assert!(host.list().is_empty());
}

#[test]
fn double_unload_errors() {
    let mut host = Host::new().expect("engine");
    let err = host.unload("never-loaded").err().expect("must error");
    assert!(err.to_string().contains("never-loaded"));
    assert_eq!(err, "extension never-loaded not loaded");
}

#[test]
fn bytes_that_do_not_compile_are_refused() {
    let mut host = Host::new().expect("engine");
    let err = host.load_extension("x.wasm", Some("x"), b"junk", Policy::deny_all()).unwrap_err();
    assert!(err.starts_with("compile x.wasm: "));
    assert!(!host.is_loaded("x"));
    let err = host.register("y.wasm", Some("y"), Err("bad".to_string()), Policy::deny_all());
    assert_eq!(err.unwrap_err(), "compile y.wasm: bad");
}

#[test]
fn an_extension_can_be_compiled_beforehand() {
    let mut host = Host::new().expect("engine");
    assert!(compile_extension(host.engine(), b"junk").is_err());
    let compiled = compile_extension(host.engine(), EMPTY_COMPONENT);
    let name = host.register("z.wasm", Some("z"), compiled, Policy::deny_all()).unwrap();
    assert!(host.is_loaded(&name));
}

#[test]
fn the_loader_interface_answers() {
    let mut host = Host::new().expect("engine");
    let loaded = host.load_extension("..", None, EMPTY_COMPONENT, Policy::deny_all());
    let m = host.load_reply(loaded).unwrap();
    assert_eq!(m.name, "extension");
    assert_eq!(m.version, "0.0.0");
    assert!(m.scalar_functions.is_empty());
    assert!(!m.has_authorizer);
    let e = host.load_reply(Ok("ghost".to_string())).err().unwrap();
    assert_eq!((e.code, e.message.as_str()), (1, "internal: extension ghost vanished after load"));
    let e = host.load_reply(Err("read x: gone".to_string())).err().unwrap();
    assert_eq!((e.code, e.message.as_str()), (1, "read x: gone"));
    let list = host.list_extensions();
    assert_eq!(list.len(), 1);
    assert_eq!(list[0].name, "extension");
    assert!(host.unload_extension("extension").is_ok());
    let e = host.unload_extension("extension").unwrap_err();
    assert_eq!((e.code, e.message.as_str()), (1, "extension extension not loaded"));
    assert!(host.list_extensions().is_empty());
}

#[test]
fn wildcards_match_longer_hosts_only() {
    let p = HttpPolicy {
        allowed_hosts: vec!["*.example.com".to_string(), "exact.org".to_string()],
        ..HttpPolicy::default()
    };
    assert!(p.allows("api.example.com"));
    assert!(!p.allows("example.com"));
    assert!(!p.allows("notexample.com"));
    assert!(!p.allows(".example.com"));
    assert!(p.allows("a.b.example.com"));
    assert!(p.allows("exact.org"));
    assert!(!p.allows("sub.exact.org"));
    assert!(!HttpPolicy::default().allows("anything"));
}

#[test]
fn grants_and_missing_capabilities() {
    let p = Policy::deny_all()
        .with_grants(vec![Capability::Http, Capability::Text, Capability::Http])
        .with_fuel_per_call(1)
        .with_memory_limit_bytes(2)
        .with_epoch_deadline_ms(3)
        .with_http(HttpPolicy::default());
    assert!(p.is_granted(Capability::Http));
    assert!(!p.is_granted(Capability::Spi));
    let declared = [Capability::Spi, Capability::Text, Capability::Cache];
    assert_eq!(p.missing(&declared), vec![&Capability::Spi, &Capability::Cache]);
    assert!(p.missing(&[Capability::Text]).is_empty());
    assert_eq!(p.fuel_per_call, Some(1));
    assert_eq!(p.memory_limit_bytes, Some(2));
    assert_eq!(p.epoch_deadline_ms, Some(3));
    assert!(p.http.is_some());
}

#[test]
fn load_options_become_a_policy() {
    let p = policy_from_load_options(&LoadOptions {
        grant: vec![WitCapability::Random, WitCapability::Schema],
        http_policy: Some(WitHttpPolicy {
            allowed_hosts: vec!["a".to_string()],
            allowed_methods: Some(vec!["Get".to_string(), "Post".to_string()]),
            max_body_bytes: Some(10),
            timeout_ms: None,
        }),
        fuel_per_call: None,
        memory_limit_bytes: Some(5),
        epoch_deadline_ms: None,
    });
    assert!(p.is_granted(Capability::Random) && p.is_granted(Capability::Schema));
    assert!(!p.is_granted(Capability::Http));
    let http = p.http.unwrap();
    assert_eq!(http.allowed_hosts, vec!["a"]);
    assert_eq!(http.allowed_methods.unwrap(), vec!["GET", "POST"]);
    assert_eq!(http.max_body_bytes, Some(10));
    assert_eq!(p.memory_limit_bytes, Some(5));
    assert_eq!(p.fuel_per_call, None);
    assert_eq!(from_wit_cap(WitCapability::Encoding), Capability::Encoding);
}
