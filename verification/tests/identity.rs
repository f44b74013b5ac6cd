use paramp::identity::{identity_less, insert_module_sorted, module_list_lines, AmpModule};

#[test]
fn new_reads_three_colon_fields() {
    let m = AmpModule::new("acme:foo:1.2", "repo");
    assert_eq!(m.vendor, "acme");
    assert_eq!(m.name, "foo");
    assert_eq!(m.version, "1.2");
    assert_eq!(m.module_type, "repo");
}

#[test]
fn new_ignores_a_fourth_field() {
    let m = AmpModule::new("acme:foo:1.2:extra", "share");
    assert_eq!(m.vendor, "acme");
    assert_eq!(m.name, "foo");
    assert_eq!(m.version, "1.2");
    assert_eq!(m.module_type, "share");
}

#[test]
fn display_includes_kind_only_when_set() {
    let with_kind = AmpModule::new("acme:foo:1.2", "repo");
    assert_eq!(with_kind.display_string(), "acme:foo:1.2:repo");
    let without = AmpModule::new("acme:foo:1.2", "");
    assert_eq!(without.display_string(), "acme:foo:1.2");
}

#[test]
fn identity_order_is_lexicographic_over_fields() {
    let a = AmpModule::new("acme:foo:1.2", "repo");
    let b = AmpModule::new("acme:foo:1.2", "share");
    let c = AmpModule::new("acme:zzz:0.1", "repo");
    let d = AmpModule::new("beta:aaa:9.9", "repo");
    assert!(identity_less(&a, &b));
    assert!(identity_less(&b, &c));
    assert!(identity_less(&c, &d));
    assert!(!identity_less(&a, &a));
    assert!(!identity_less(&d, &a));
}

#[test]
fn ordered_insert_sorts_and_deduplicates() {
    let mut list = Vec::new();
    for text in ["beta:x:1.0", "acme:foo:1.2", "beta:x:1.0", "acme:bar:2.0", "acme:foo:1.2"] {
        insert_module_sorted(&mut list, AmpModule::new(text, ""));
    }
    let shown: Vec<String> = list.iter().map(|m| m.display_string()).collect();
    assert_eq!(shown, vec!["acme:bar:2.0", "acme:foo:1.2", "beta:x:1.0"]);
}

#[test]
fn list_lines_are_paste_ready() {
    let modules = vec![
        AmpModule::new("acme:foo:1.2", "repo"),
        AmpModule::new("other:bar:3.0.1", "repo"),
    ];
    let lines = module_list_lines(&modules);
    assert_eq!(lines, vec!["  - acme:foo:1.2", "  - other:bar:3.0.1"]);
}
