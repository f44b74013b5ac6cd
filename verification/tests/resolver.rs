use paramp::identity::AmpModule;
use paramp::resolver::{evaluate_version_response, resolve_module, versions_url, ResolveError};

fn module(version: &str) -> AmpModule {
    AmpModule::new(&format!("acme:foo:{}", version), "repo")
}

fn strings(items: &[&str]) -> Vec<String> {
    items.iter().map(|s| s.to_string()).collect()
}

#[test]
fn upgrade_picks_the_maximum_ordinal() {
    let r = resolve_module(&module("1.0"), &strings(&["1.1", "2.0", "1.5"])).unwrap();
    assert_eq!(r.version, "2.0");
    assert_eq!(r.vendor, "acme");
    assert_eq!(r.name, "foo");
    assert_eq!(r.module_type, "repo");
}

#[test]
fn upgrade_keeps_the_verbatim_candidate_text() {
    let r = resolve_module(&module("1.0"), &strings(&["1.2.3.4"])).unwrap();
    assert_eq!(r.version, "1.2.3.4");
}

#[test]
fn equal_ordinals_keep_the_earliest_candidate() {
    // 1.2 and 1.2.0 share the ordinal; the earlier listing wins
    let r = resolve_module(&module("1.0"), &strings(&["1.2", "1.2.0"])).unwrap();
    assert_eq!(r.version, "1.2");
}

#[test]
fn pinned_maximum_is_kept_unchanged() {
    let r = resolve_module(&module("2.0"), &strings(&["1.0", "2.0", "1.9"])).unwrap();
    assert_eq!(r.version, "2.0");
    assert_eq!(r.module_type, "repo");
}

#[test]
fn empty_candidate_list_drops_the_module() {
    assert!(resolve_module(&module("1.0"), &Vec::new()).is_none());
}

#[test]
fn response_decodes_json_and_resolves() {
    let body = br#"["1.1","2.0"]"#.to_vec();
    let r = evaluate_version_response(&module("1.0"), 200, &body).unwrap().unwrap();
    assert_eq!(r.version, "2.0");
}

#[test]
fn response_with_bad_json_fails_the_run() {
    let body = b"not json".to_vec();
    let r = evaluate_version_response(&module("1.0"), 200, &body);
    assert_eq!(r, Err(ResolveError::DecodeFailed));
}

#[test]
fn response_with_error_status_fails_the_run() {
    let r = evaluate_version_response(&module("1.0"), 500, &Vec::new());
    assert_eq!(r, Err(ResolveError::RegistryStatus(500)));
}

#[test]
fn versions_url_forms() {
    let base = String::from("https://repo.example");
    let m = module("1.0");
    assert_eq!(versions_url(&base, &m, false), "https://repo.example/module/acme/foo");
    assert_eq!(versions_url(&base, &m, true), "https://repo.example/module/acme/foo?dev=true");
}
