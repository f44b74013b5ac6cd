use paramp::fetch::{
    archive_url, cache_path, checksum_matches, checksum_url, download_ok, plan_acquire,
    AcquireStep,
};
use paramp::identity::AmpModule;

fn module() -> AmpModule {
    AmpModule::new("acme:foo:1.2", "repo")
}

#[test]
fn cache_path_is_deterministic() {
    assert_eq!(cache_path(&module()), ".cache/acme-foo-1.2-repo.amp");
}

#[test]
fn registry_urls_form() {
    let base = String::from("https://repo.example");
    assert_eq!(
        checksum_url(&base, &module()),
        "https://repo.example/module/acme/foo/1.2/repo"
    );
    assert_eq!(
        archive_url(&base, &module()),
        "https://repo.example/module/acme/foo/1.2/repo.amp"
    );
}

#[test]
fn missing_kind_skips_the_module() {
    assert_eq!(plan_acquire(303, &String::from("abc123"), &None), AcquireStep::Skip);
}

#[test]
fn error_status_is_fatal() {
    assert_eq!(plan_acquire(500, &String::from("abc123"), &None), AcquireStep::Fail);
    assert_eq!(plan_acquire(404, &String::new(), &None), AcquireStep::Fail);
}

#[test]
fn empty_checksum_is_fatal() {
    assert_eq!(plan_acquire(200, &String::new(), &Some(b"hello".to_vec())), AcquireStep::Fail);
}

#[test]
fn first_acquire_downloads_second_reuses_cache() {
    // the registry's checksum for the archive bytes "hello"
    let checksum = String::from("5d41402abc4b2a76b9719d911017c592");
    // no cache entry yet: the archive is downloaded to its cache path
    assert_eq!(plan_acquire(200, &checksum, &None), AcquireStep::Download);
    assert_eq!(cache_path(&module()), ".cache/acme-foo-1.2-repo.amp");
    // the same inputs with the cached bytes present: no download
    assert_eq!(plan_acquire(200, &checksum, &Some(b"hello".to_vec())), AcquireStep::UseCached);
}

#[test]
fn stale_cache_entry_is_downloaded_again() {
    let checksum = String::from("5d41402abc4b2a76b9719d911017c592");
    assert_eq!(plan_acquire(200, &checksum, &Some(b"other".to_vec())), AcquireStep::Download);
}

#[test]
fn checksum_compares_the_hash_not_the_bytes() {
    // bytes equal to the checksum text itself must not match
    assert_eq!(
        plan_acquire(200, &String::from("abc"), &Some(b"abc".to_vec())),
        AcquireStep::Download
    );
    assert!(checksum_matches(
        &b"abc".to_vec(),
        &String::from("900150983cd24fb0d6963f7d28e17f72")
    ));
    assert!(checksum_matches(
        &Vec::new(),
        &String::from("d41d8cd98f00b204e9800998ecf8427e")
    ));
    assert!(!checksum_matches(&b"abc".to_vec(), &String::from("abc")));
}

#[test]
fn only_success_downloads_are_saved() {
    assert!(download_ok(200));
    assert!(!download_ok(303));
    assert!(!download_ok(500));
}
