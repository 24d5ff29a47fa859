use wints::url_scanner::{clean_urls, collect_urls, extract_urls, sorted_unique, url_cleaner};

fn strings(v: &[&str]) -> Vec<String> {
    v.iter().map(|s| s.to_string()).collect()
}

fn assert_extracted_urls(line: &str, expected: Vec<String>) {
    assert_eq!(expected, extract_urls(line.to_string()))
}

#[test]
fn should_clean_url_in_asciidoc() {
    assert_eq!(
        "https://site.tld",
        url_cleaner("https://site.tld[Text]".to_string())
    );
    assert_eq!(
        "https://site.tld",
        url_cleaner("https://site.tld[Some".to_string())
    );
}

#[test]
fn clean_url_without_bracket_is_unchanged() {
    assert_eq!("https://site.tld/a", url_cleaner("https://site.tld/a".to_string()));
    assert_eq!("", url_cleaner("".to_string()));
    assert_eq!("", url_cleaner("[x]".to_string()));
    assert_eq!("https://a", url_cleaner("https://a[b[c".to_string()));
}

#[test]
fn clean_urls_cleans_each() {
    assert_eq!(
        strings(&["https://a", "https://b"]),
        clean_urls(strings(&["https://a[A]", "https://b"]))
    );
}

#[test]
fn extract_no_url() {
    assert_extracted_urls("Got to www.site.tld", strings(&[]));
}

#[test]
fn extract_one_url() {
    assert_extracted_urls("Got to https://site.tld", strings(&["https://site.tld"]));
}

#[test]
fn extract_two_urls() {
    assert_extracted_urls(
        "Got to https://site.tld and https://site2.tld",
        strings(&["https://site.tld", "https://site2.tld"]),
    );
}

#[test]
fn extract_urls_from_markdown() {
    assert_extracted_urls(
        "Got to this [Site](https://site.tld) and [this other site](https://site2.tld)",
        strings(&["https://site.tld", "https://site2.tld"]),
    );
}

#[test]
fn extract_urls_from_asciidoctor() {
    assert_extracted_urls(
        "Got to this https://site.tld[Site] and https://site2.tld[this other site]",
        strings(&["https://site.tld", "https://site2.tld"]),
    );
    assert_extracted_urls(
        "Got to this link::https://site.tld[Site] and link:https://site2.tld[this other site]",
        strings(&["https://site.tld", "https://site2.tld"]),
    );
}

#[test]
fn sorted_unique_sorts_and_drops_repeats() {
    assert_eq!(
        strings(&["a", "b", "c"]),
        sorted_unique(strings(&["c", "a", "b", "a", "c"]))
    );
    assert!(sorted_unique(strings(&[])).is_empty());
}

#[test]
fn collect_urls_from_lines() {
    let lines = strings(&[
        "Got to https://site3.tld",
        "Got to https://site1.tld and https://site2.tld[Two]",
        "Again https://site1.tld",
        "nothing here",
    ]);
    assert_eq!(
        strings(&["https://site1.tld", "https://site2.tld", "https://site3.tld"]),
        collect_urls(lines)
    );
}
