use wints::module::WintsModule;
use wints::storage::{join_path, Document, Scope, WintsStorage};

fn strings(v: &[&str]) -> Vec<String> {
    v.iter().map(|s| s.to_string()).collect()
}

fn storage() -> WintsStorage {
    WintsStorage::new("/home/u/project/.wints".to_string(), "/home/u/.wints".to_string())
}

fn module_with(context: &str, urls: &[&str]) -> WintsModule {
    let mut m = WintsModule::empty_module();
    WintsModule::contextualise_urls(&mut m, context.to_string(), strings(urls));
    m
}

#[test]
fn join_path_cases() {
    assert_eq!("a/b", join_path("a", "b"));
    assert_eq!("a/b", join_path("a/", "b"));
    assert_eq!("b", join_path("", "b"));
}

#[test]
fn find_module_falls_back_to_global() {
    let mut s = storage();
    s.add_module("g".to_string(), module_with("global ctx", &["https://g"]), Scope::Global);
    let found = s.find_module("g".to_string()).unwrap();
    assert_eq!(strings(&["https://g"]), found.list_of_all_urls());
    assert!(s.find_module("missing".to_string()).is_none());
}

#[test]
fn find_module_prefers_local() {
    let mut s = storage();
    s.add_module("m".to_string(), module_with("c", &["https://global"]), Scope::Global);
    s.add_module("m".to_string(), module_with("c", &["https://local"]), Scope::Local);
    assert_eq!(strings(&["https://local"]), s.list_of_all_urls("m".to_string()));
}

#[test]
fn add_module_replaces_same_name() {
    let mut s = storage();
    s.add_module("m".to_string(), module_with("c", &["https://one"]), Scope::Local);
    s.add_module("m".to_string(), module_with("c", &["https://two"]), Scope::Local);
    assert_eq!(strings(&["https://two"]), s.list_of_all_urls("m".to_string()));
    assert_eq!(1, s.store().len());
}

#[test]
fn local_write_falls_back_to_global_module() {
    let mut s = storage();
    s.add_module("m".to_string(), module_with("c", &["https://a"]), Scope::Global);
    s.contextualise_urls("m".to_string(), Scope::Local, "c", strings(&["https://b"]));
    let plan = s.store();
    assert_eq!(1, plan.len());
    assert_eq!("/home/u/.wints/modules/m.yaml", plan[0].path);
    assert_eq!(strings(&["https://a", "https://b"]), s.list_of_all_urls("m".to_string()));
}

#[test]
fn local_write_creates_local_module() {
    let mut s = storage();
    s.contextualise_urls("new".to_string(), Scope::Local, "ctx", strings(&["https://n"]));
    let plan = s.store();
    assert_eq!(1, plan.len());
    assert_eq!("/home/u/project/.wints/modules/new.yaml", plan[0].path);
    match &plan[0].document {
        Document::Module(m) => assert_eq!(strings(&["https://n"]), m.list_of_all_urls()),
        Document::Config(_) => panic!("expected a module"),
    }
}

#[test]
fn global_write_creates_global_module_beside_local_one() {
    let mut s = storage();
    s.add_module("m".to_string(), module_with("c", &["https://local"]), Scope::Local);
    s.contextualise_urls("m".to_string(), Scope::Global, "c", strings(&["https://g"]));
    let plan = s.store();
    assert_eq!(2, plan.len());
    assert_eq!("/home/u/project/.wints/modules/m.yaml", plan[0].path);
    assert_eq!("/home/u/.wints/modules/m.yaml", plan[1].path);
    assert_eq!(strings(&["https://local"]), s.list_of_all_urls("m".to_string()));
}

#[test]
fn list_of_all_urls_of_missing_module_is_empty() {
    let s = storage();
    assert!(s.list_of_all_urls("main".to_string()).is_empty());
}

#[test]
fn ignore_url_twice_appends() {
    let mut s = storage();
    s.ignore_url("https://x".to_string(), Scope::Local);
    let plan = s.store();
    assert_eq!(1, plan.len());
    assert_eq!("/home/u/project/.wints/options.yaml", plan[0].path);
    match &plan[0].document {
        Document::Config(c) => {
            assert_eq!(1, c.version);
            assert_eq!(Some(strings(&["https://x"])), c.ignored_urls.clone());
        }
        Document::Module(_) => panic!("expected options"),
    }
    s.ignore_url("https://y".to_string(), Scope::Local);
    assert_eq!(strings(&["https://x", "https://y"]), s.ignored_urls());
}

#[test]
fn ignored_urls_lists_local_then_global() {
    let mut s = storage();
    s.ignore_url("https://g".to_string(), Scope::Global);
    s.ignore_url("https://l".to_string(), Scope::Local);
    s.ignore_url("https://g".to_string(), Scope::Global);
    assert_eq!(
        strings(&["https://l", "https://g", "https://g"]),
        s.ignored_urls()
    );
    let plan = s.store();
    assert_eq!(2, plan.len());
    assert_eq!("/home/u/project/.wints/options.yaml", plan[0].path);
    assert_eq!("/home/u/.wints/options.yaml", plan[1].path);
}

#[test]
fn list_of_ignore_files_of_both_scopes() {
    let s = storage();
    assert_eq!(
        strings(&["/home/u/project/.wints/ignore", "/home/u/.wints/ignore"]),
        s.list_of_ignore_files()
    );
}

#[test]
fn ignore_glob_targets_scope_file() {
    let s = storage();
    assert_eq!(
        ("/home/u/.wints/ignore".to_string(), "FILE\n".to_string()),
        s.ignore_glob("FILE".to_string(), Scope::Global)
    );
    assert_eq!(
        ("/home/u/project/.wints/ignore".to_string(), "FILE2\n".to_string()),
        s.ignore_glob("FILE2".to_string(), Scope::Local)
    );
}

#[test]
fn store_of_empty_storage_writes_nothing() {
    assert!(storage().store().is_empty());
}

#[test]
fn store_orders_local_global_then_options() {
    let mut s = storage();
    s.set_config(wints::config::WintsConfig::empty_config(), Scope::Global);
    s.add_module("b".to_string(), WintsModule::empty_module(), Scope::Global);
    s.add_module("a".to_string(), WintsModule::empty_module(), Scope::Local);
    let paths: Vec<String> = s.store().into_iter().map(|w| w.path).collect();
    assert_eq!(
        strings(&[
            "/home/u/project/.wints/modules/a.yaml",
            "/home/u/.wints/modules/b.yaml",
            "/home/u/.wints/options.yaml",
        ]),
        paths
    );
}
