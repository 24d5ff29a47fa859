use wints::module::WintsModule;
use wints::ops::{find_new_urls, search_outcome, template_module, ScanOptions, SearchOptions, SearchOutcome};
use wints::storage::{Scope, WintsStorage};

fn strings(v: &[&str]) -> Vec<String> {
    v.iter().map(|s| s.to_string()).collect()
}

fn storage() -> WintsStorage {
    WintsStorage::new("local".to_string(), "global".to_string())
}

fn scan_options(module_name: &str) -> ScanOptions {
    ScanOptions {
        local_basedir: "local".to_string(),
        global_basedir: "global".to_string(),
        module_name: module_name.to_string(),
        scope: Scope::Local,
        scan_path: ".".to_string(),
        dry_run: false,
    }
}

fn search_options(module_name: &str, terms: Option<&[&str]>) -> SearchOptions {
    SearchOptions {
        local_basedir: "local".to_string(),
        global_basedir: "global".to_string(),
        module_name: module_name.to_string(),
        matching_terms: terms.map(strings),
        dry_run: true,
    }
}

#[test]
fn templates() {
    assert_eq!(0, template_module(&"empty".to_string()).unwrap().list_of_all_contexts().len());
    assert_eq!(4, template_module(&"default".to_string()).unwrap().list_of_all_urls().len());
    assert!(template_module(&"other".to_string()).is_none());
}

#[test]
fn new_urls_skip_known_and_ignored() {
    let mut s = storage();
    s.contextualise_urls("main".to_string(), Scope::Local, "c", strings(&["https://known"]));
    s.ignore_url("https://ignored".to_string(), Scope::Global);
    let scanned = strings(&["https://a", "https://ignored", "https://known", "https://b"]);
    assert_eq!(
        strings(&["https://a", "https://b"]),
        find_new_urls(&scan_options("main"), &s, scanned)
    );
}

#[test]
fn scanning_twice_finds_nothing_new() {
    let mut s = storage();
    let options = scan_options("main");
    let scanned = strings(&["https://a", "https://b"]);
    let first = find_new_urls(&options, &s, scanned.clone());
    assert_eq!(2, first.len());
    s.contextualise_urls("main".to_string(), Scope::Local, "need to be contextualised", first);
    assert!(find_new_urls(&options, &s, scanned).is_empty());
}

#[test]
fn search_unknown_module() {
    let s = storage();
    assert!(matches!(
        search_outcome(&s, &search_options("another", Some(&["x"]))),
        SearchOutcome::UnknownModule
    ));
}

#[test]
fn search_main_defaults_to_starter_module() {
    let s = storage();
    match search_outcome(&s, &search_options("main", Some(&["repo"]))) {
        SearchOutcome::Found(urls) => assert_eq!(4, urls.len()),
        _ => panic!("expected urls"),
    }
}

#[test]
fn search_without_terms_suggests_first_context() {
    let s = storage();
    match search_outcome(&s, &search_options("main", None)) {
        SearchOutcome::NoTerms(t) => assert_eq!(Some("repository code".to_string()), t),
        _ => panic!("expected a suggestion"),
    }
}

#[test]
fn search_missed_suggests_nearest() {
    let s = storage();
    match search_outcome(&s, &search_options("main", Some(&["repo", "source"]))) {
        SearchOutcome::Missed(n) => assert_eq!(Some("repository code".to_string()), n),
        _ => panic!("expected a miss"),
    }
    match search_outcome(&s, &search_options("main", Some(&["git", "source"]))) {
        SearchOutcome::Missed(n) => assert_eq!(None, n),
        _ => panic!("expected a miss"),
    }
}

#[test]
fn search_in_stored_module() {
    let mut s = storage();
    s.add_module("some".to_string(), WintsModule::empty_module(), Scope::Global);
    s.contextualise_urls("some".to_string(), Scope::Global, "context", strings(&["https://site.tld"]));
    match search_outcome(&s, &search_options("some", Some(&["context"]))) {
        SearchOutcome::Found(urls) => assert_eq!(strings(&["https://site.tld"]), urls),
        _ => panic!("expected urls"),
    }
}
