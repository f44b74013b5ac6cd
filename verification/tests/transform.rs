use std::io::Write;

use paramp::transform::{
    module_descriptor, transform_archive, transform_entries, ArchiveEntry, ArchiveError,
};

fn entry(name: &str, data: &[u8]) -> ArchiveEntry {
    ArchiveEntry { name: name.to_string(), data: data.to_vec() }
}

fn paths(plan: &[paramp::transform::FileWrite]) -> Vec<String> {
    plan.iter().map(|w| w.path.clone()).collect()
}

#[test]
fn default_mapping_places_config_under_classes() {
    let plan = transform_entries(&vec![entry("config/a.txt", b"hello")], &None);
    assert_eq!(plan.len(), 1);
    assert_eq!(plan[0].path, "/WEB-INF/classes/a.txt");
    assert_eq!(plan[0].data, b"hello");
}

#[test]
fn default_mapping_covers_the_builtin_prefixes() {
    let plan = transform_entries(
        &vec![
            entry("lib/x.jar", b"j"),
            entry("licenses/l.txt", b"l"),
            entry("web/jsp/p.jsp", b"p"),
            entry("web/css/s.css", b"s"),
            entry("web/images/i.png", b"i"),
            entry("web/scripts/s.js", b"s"),
            entry("web/php/i.php", b"i"),
        ],
        &None,
    );
    assert_eq!(
        paths(&plan),
        vec![
            "/WEB-INF/lib/x.jar",
            "/WEB-INF/licenses/l.txt",
            "/jsp/p.jsp",
            "/css/s.css",
            "/images/i.png",
            "/scripts/s.js",
            "//i.php",
        ]
    );
}

#[test]
fn unmapped_paths_are_used_unchanged() {
    let plan = transform_entries(&vec![entry("docs/readme.txt", b"r")], &None);
    assert_eq!(plan[0].path, "/docs/readme.txt");
}

#[test]
fn longest_prefix_wins() {
    let plan = transform_entries(
        &vec![
            entry("file-mapping.properties", b"/web=/site\n/web/css=/styles\n"),
            entry("web/css/m.css", b"c"),
            entry("web/other.txt", b"o"),
        ],
        &None,
    );
    assert_eq!(paths(&plan), vec!["/styles/m.css", "/site/other.txt"]);
}

#[test]
fn mapping_file_overrides_and_extends() {
    let plan = transform_entries(
        &vec![
            entry("file-mapping.properties", b"/config=/conf\n/extra=/added\nbad line\n"),
            entry("config/a.txt", b"a"),
            entry("extra/b.txt", b"b"),
            entry("lib/c.jar", b"c"),
        ],
        &None,
    );
    assert_eq!(paths(&plan), vec!["/conf/a.txt", "/added/b.txt", "/WEB-INF/lib/c.jar"]);
}

#[test]
fn descriptor_entries_are_not_copied_verbatim() {
    let plan = transform_entries(
        &vec![
            entry("file-mapping.properties", b""),
            entry("module.properties", b"module.version=1.0\n"),
        ],
        &None,
    );
    // no module.id, so the descriptor yields nothing at all
    assert!(plan.is_empty());
}

#[test]
fn module_descriptor_is_normalized_and_registered() {
    let plan = transform_entries(
        &vec![entry(
            "module.properties",
            b"module.id = acme:foo:1.0\nmodule.version=1.0\nnot a property\n",
        )],
        &None,
    );
    assert_eq!(plan.len(), 1);
    assert_eq!(
        plan[0].path,
        "/WEB-INF/classes/alfresco/module/acme:foo:1.0/module.properties"
    );
    let content = String::from_utf8(plan[0].data.clone()).unwrap();
    assert_eq!(
        content,
        "module.id=acme:foo:1.0\nmodule.version=1.0\nmodule.installState=INSTALLED\n"
    );
    assert!(content.ends_with("module.installState=INSTALLED\n"));
}

#[test]
fn last_module_id_line_wins() {
    let r = module_descriptor(&b"module.id=first\nmodule.id=second\n".to_vec()).unwrap();
    assert_eq!(r.0, "/WEB-INF/classes/alfresco/module/second/module.properties");
}

#[test]
fn descriptor_without_module_id_yields_nothing() {
    assert!(module_descriptor(&b"module.version=1.0\n".to_vec()).is_none());
}

#[test]
fn manifest_is_copied_when_destination_has_no_marker() {
    let plan = transform_entries(
        &vec![entry("META-INF/MANIFEST.MF", b"Name: fresh\n")],
        &Some(b"Name: stale\n".to_vec()),
    );
    assert_eq!(paths(&plan), vec!["/META-INF/MANIFEST.MF"]);
    assert_eq!(plan[0].data, b"Name: fresh\n");
}

#[test]
fn manifest_is_copied_when_destination_is_absent() {
    let plan = transform_entries(&vec![entry("META-INF/MANIFEST.MF", b"Name: fresh\n")], &None);
    assert_eq!(paths(&plan), vec!["/META-INF/MANIFEST.MF"]);
}

#[test]
fn authoritative_manifest_is_left_untouched() {
    let existing = b"Name: app\nSpecification-Version: 5.2\n".to_vec();
    let plan = transform_entries(
        &vec![entry("META-INF/MANIFEST.MF", b"Name: different\n")],
        &Some(existing),
    );
    assert!(plan.is_empty());
}

#[test]
fn manifest_marker_is_found_under_crlf_lines() {
    let existing = b"Name: app\r\nSpecification-Version: 5.2\r\n".to_vec();
    let plan = transform_entries(
        &vec![entry("META-INF/MANIFEST.MF", b"Name: different\n")],
        &Some(existing),
    );
    assert!(plan.is_empty());
}

#[test]
fn writes_come_in_archive_order_after_the_descriptors() {
    let plan = transform_entries(
        &vec![
            entry("config/z.txt", b"z"),
            entry("module.properties", b"module.id=m\n"),
            entry("META-INF/MANIFEST.MF", b"Name: n\n"),
            entry("config/a.txt", b"a"),
        ],
        &None,
    );
    assert_eq!(
        paths(&plan),
        vec![
            "/WEB-INF/classes/alfresco/module/m/module.properties",
            "/META-INF/MANIFEST.MF",
            "/WEB-INF/classes/z.txt",
            "/WEB-INF/classes/a.txt",
        ]
    );
}

fn build_zip(files: &[(&str, &[u8])]) -> Vec<u8> {
    let mut w = zip::ZipWriter::new(std::io::Cursor::new(Vec::new()));
    for (name, data) in files {
        w.start_file(*name, zip::write::SimpleFileOptions::default()).unwrap();
        w.write_all(data).unwrap();
    }
    w.finish().unwrap().into_inner()
}

#[test]
fn archives_are_read_and_transformed() {
    let bytes = build_zip(&[
        ("config/a.txt", b"hello"),
        ("module.properties", b"module.id=acme:foo:1.0\n"),
    ]);
    let plan = transform_archive(&bytes, &None).unwrap();
    assert_eq!(
        paths(&plan),
        vec![
            "/WEB-INF/classes/alfresco/module/acme:foo:1.0/module.properties",
            "/WEB-INF/classes/a.txt",
        ]
    );
    assert_eq!(plan[1].data, b"hello");
}

#[test]
fn unreadable_archives_fail_the_run() {
    let r = transform_archive(&b"not a zip archive".to_vec(), &None);
    assert_eq!(r.unwrap_err(), ArchiveError::Unreadable);
}
