use wints::module::WintsModule;

fn strings(v: &[&str]) -> Vec<String> {
    v.iter().map(|s| s.to_string()).collect()
}

fn some_testing_module() -> WintsModule {
    let mut module = WintsModule { version: 0, elements: vec![] };
    WintsModule::contextualise_urls(
        &mut module,
        "some terms".to_string(),
        strings(&["https://test1.tld", "https://test2.tld"]),
    );
    WintsModule::contextualise_urls(
        &mut module,
        "another terms".to_string(),
        strings(&["https://test3.tld", "https://test4.tld"]),
    );
    module
}

fn empty_testing_module() -> WintsModule {
    WintsModule::empty_module()
}

#[test]
fn list_of_all_urls() {
    let module = some_testing_module();
    assert_eq!(
        vec![
            "https://test1.tld",
            "https://test2.tld",
            "https://test3.tld",
            "https://test4.tld",
        ],
        module.list_of_all_urls()
    );
}

#[test]
fn list_of_all_urls_on_empty_module() {
    let module = empty_testing_module();
    assert!(module.list_of_all_urls().is_empty());
}

#[test]
fn list_of_all_contexts() {
    let module = some_testing_module();
    assert_eq!(
        vec!["some terms", "another terms"],
        module.list_of_all_contexts()
    );
}

#[test]
fn list_of_all_contexts_on_empty_module() {
    let module = empty_testing_module();
    assert!(module.list_of_all_contexts().is_empty());
}

#[test]
fn nearest_matching_context() {
    let module = some_testing_module();
    let nearest_matching_context = module.nearest_matching_context(strings(&["some", "words"]));
    assert!(nearest_matching_context.is_some());
    assert_eq!("some terms", nearest_matching_context.unwrap())
}

#[test]
fn nearest_matching_context_on_empty_module() {
    let module = some_testing_module();
    let no_nearest_matching_context =
        module.nearest_matching_context(strings(&["lot", "of", "words"]));
    assert!(no_nearest_matching_context.is_none());
}

#[test]
fn list_of_urls_from_matching_context() {
    let module = some_testing_module();
    assert_eq!(
        vec![
            "https://test1.tld",
            "https://test2.tld",
            "https://test3.tld",
            "https://test4.tld",
        ],
        module.list_of_urls_from_matching_context(strings(&["terms"]))
    );
}

#[test]
fn list_of_urls_from_matching_context_partial() {
    let module = some_testing_module();
    assert_eq!(
        vec!["https://test1.tld", "https://test2.tld"],
        module.list_of_urls_from_matching_context(strings(&["some"]))
    );
}

#[test]
fn list_of_urls_from_matching_context_unordered() {
    let module = some_testing_module();
    assert_eq!(
        vec!["https://test1.tld", "https://test2.tld"],
        module.list_of_urls_from_matching_context(strings(&["terms", "some"]))
    );
}

#[test]
fn no_context_matches_gives_no_urls() {
    let module = some_testing_module();
    assert!(module
        .list_of_urls_from_matching_context(strings(&["zzz"]))
        .is_empty());
}

#[test]
fn no_terms_match_every_context() {
    let module = some_testing_module();
    assert_eq!(4, module.list_of_urls_from_matching_context(vec![]).len());
}

#[test]
fn new_context_is_found_by_its_label() {
    let mut module = some_testing_module();
    WintsModule::contextualise_urls(
        &mut module,
        "music".to_string(),
        strings(&["https://m1.tld", "https://m2.tld"]),
    );
    assert_eq!(
        strings(&["https://m1.tld", "https://m2.tld"]),
        module.list_of_urls_from_matching_context(strings(&["music"]))
    );
}

#[test]
fn appending_to_a_context_concatenates() {
    let mut module = WintsModule::empty_module();
    WintsModule::contextualise_urls(&mut module, "c".to_string(), strings(&["a"]));
    WintsModule::contextualise_urls(&mut module, "c".to_string(), strings(&["b"]));
    assert_eq!(strings(&["c"]), module.list_of_all_contexts());
    assert_eq!(strings(&["a", "b"]), module.list_of_all_urls());
}

#[test]
fn nearest_prefers_fewest_matching_terms() {
    let mut module = WintsModule::empty_module();
    WintsModule::contextualise_urls(&mut module, "alpha beta".to_string(), strings(&["u1"]));
    WintsModule::contextualise_urls(&mut module, "alpha".to_string(), strings(&["u2"]));
    // "alpha beta" matches two of the three terms, "alpha" only one.
    assert_eq!(
        Some("alpha".to_string()),
        module.nearest_matching_context(strings(&["alpha", "beta", "zzz"]))
    );
}

#[test]
fn nearest_is_none_when_all_terms_match() {
    let module = some_testing_module();
    assert!(module.nearest_matching_context(strings(&["terms"])).is_none());
}

#[test]
fn matching_accuracies_count_terms() {
    let module = some_testing_module();
    assert_eq!(
        vec![2, 1],
        module.matching_accuracies(&strings(&["some", "terms"]))
    );
}

#[test]
fn urls_with_accuracy_picks_counts() {
    let module = some_testing_module();
    assert_eq!(
        strings(&["https://test3.tld", "https://test4.tld"]),
        module.urls_with_accuracy(&vec![0, 2], 2)
    );
}

#[test]
fn nearest_with_accuracy_takes_first_lowest() {
    let module = some_testing_module();
    assert_eq!(
        Some("some terms".to_string()),
        module.nearest_with_accuracy(&vec![1, 1], 3)
    );
    assert_eq!(
        Some("another terms".to_string()),
        module.nearest_with_accuracy(&vec![2, 1], 3)
    );
    assert_eq!(None, module.nearest_with_accuracy(&vec![0, 3], 3));
}

#[test]
fn default_module_has_four_contexts() {
    let module = WintsModule::default_module();
    assert_eq!(1, module.version);
    assert_eq!(4, module.list_of_all_contexts().len());
    assert_eq!(4, module.list_of_all_urls().len());
    assert_eq!(
        strings(&["https://github.com/rlespinasse/wints"]),
        module.list_of_urls_from_matching_context(strings(&["repo", "code"]))
    );
}
