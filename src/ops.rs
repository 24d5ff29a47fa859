//! The decisions behind each command: which module, which URLs, what to say.
use crate::module::{
    contextualised, default_module_view, empty_module_view, lemma_contextualised_keeps,
    matching_urls, nearest_context, texts, urls_of, ModuleView, WintsModule,
};
use crate::storage::{
    all_ignored, found_module, known_urls, lemma_lookup_put, lookup, put, scope_of,
    storage_contextualised, storage_wf, write_scope, Scope, StorageView, WintsStorage,
};
use vstd::prelude::*;

verus! {

/// What `add` works on.
pub struct AddOptions {
    pub local_basedir: String,
    pub global_basedir: String,
    pub module_name: String,
    pub scope: Scope,
    pub url: String,
    pub context: String,
    pub dry_run: bool,
}

/// What `init` works on.
pub struct InitOptions {
    pub local_basedir: String,
    pub global_basedir: String,
    pub module_name: String,
    pub scope: Scope,
    pub template: String,
    pub dry_run: bool,
}

/// What `scan` works on.
pub struct ScanOptions {
    pub local_basedir: String,
    pub global_basedir: String,
    pub module_name: String,
    pub scope: Scope,
    pub scan_path: String,
    pub dry_run: bool,
}

/// What a search works on.
pub struct SearchOptions {
    pub local_basedir: String,
    pub global_basedir: String,
    pub module_name: String,
    pub matching_terms: Option<Vec<String>>,
    pub dry_run: bool,
}

/// What `url ignore` works on.
pub struct IgnoreUrlOptions {
    pub local_basedir: String,
    pub global_basedir: String,
    pub scope: Scope,
    pub url: String,
    pub dry_run: bool,
}

/// What `url ignore-glob` works on.
pub struct IgnoreGlobOptions {
    pub local_basedir: String,
    pub global_basedir: String,
    pub scope: Scope,
    pub glob: String,
    pub dry_run: bool,
}

/// The module that the template `name` starts from, if it is a template.
pub open spec fn template_view(name: Seq<char>) -> Option<ModuleView> {
    if name == "empty"@ {
        Some(empty_module_view())
    } else if name == "default"@ {
        Some(default_module_view())
    } else {
        None
    }
}

/// The module that the template `template` starts from: `empty` or
/// `default`; none for another name.
pub fn template_module(template: &String) -> (r: Option<WintsModule>)
    ensures
        match r {
            Some(m) => template_view(template@) == Some(m@),
            None => template_view(template@) is None,
        },
{
    if *template == "empty".to_string() {
        Some(WintsModule::empty_module())
    } else if *template == "default".to_string() {
        Some(WintsModule::default_module())
    } else {
        None
    }
}

/// Scanned URLs that are neither known nor ignored, in order.
pub open spec fn new_urls(
    known: Seq<Seq<char>>,
    ignored: Seq<Seq<char>>,
    scanned: Seq<Seq<char>>,
) -> Seq<Seq<char>>
    decreases scanned.len(),
{
    if scanned.len() == 0 {
        Seq::empty()
    } else {
        let rest = new_urls(known, ignored, scanned.drop_last());
        let u = scanned.last();
        if !known.contains(u) && !ignored.contains(u) {
            rest.push(u)
        } else {
            rest
        }
    }
}

/// Every scanned URL that is neither known nor ignored is new.
pub proof fn lemma_new_urls_member(
    known: Seq<Seq<char>>,
    ignored: Seq<Seq<char>>,
    scanned: Seq<Seq<char>>,
    u: Seq<char>,
)
    requires
        scanned.contains(u),
        !known.contains(u),
        !ignored.contains(u),
    ensures
        new_urls(known, ignored, scanned).contains(u),
    decreases scanned.len(),
{
    let rest = scanned.drop_last();
    let found = new_urls(known, ignored, rest);
    if scanned.last() == u {
        assert(new_urls(known, ignored, scanned) == found.push(u));
        assert(found.push(u)[found.len() as int] == u);
    } else {
        let k = choose|k: int| 0 <= k < scanned.len() && scanned[k] == u;
        assert(rest[k] == u);
        lemma_new_urls_member(known, ignored, rest, u);
        let j = choose|j: int| 0 <= j < found.len() && found[j] == u;
        if !known.contains(scanned.last()) && !ignored.contains(scanned.last()) {
            assert(found.push(scanned.last())[j] == u);
        }
    }
}

/// Where every scanned URL is known or ignored, none is new.
pub proof fn lemma_new_urls_none(
    known: Seq<Seq<char>>,
    ignored: Seq<Seq<char>>,
    scanned: Seq<Seq<char>>,
)
    requires
        forall|k: int|
            0 <= k < scanned.len() ==> known.contains(#[trigger] scanned[k]) || ignored.contains(
                scanned[k],
            ),
    ensures
        new_urls(known, ignored, scanned) == Seq::<Seq<char>>::empty(),
    decreases scanned.len(),
{
    if scanned.len() > 0 {
        let rest = scanned.drop_last();
        assert forall|k: int| 0 <= k < rest.len() implies known.contains(#[trigger] rest[k])
            || ignored.contains(rest[k]) by {
            assert(rest[k] == scanned[k]);
        }
        lemma_new_urls_none(known, ignored, rest);
        assert(scanned.last() == scanned[scanned.len() - 1]);
    }
}

/// Scanning the same URLs again, after the new ones were filed under a
/// context of the module, finds nothing new; provided the write lands where
/// lookups read: a local write, or a global one for a name that the local
/// scope lacks.
pub proof fn lemma_scan_twice(
    st: StorageView,
    name: Seq<char>,
    s: Scope,
    c: Seq<char>,
    scanned: Seq<Seq<char>>,
)
    requires
        storage_wf(st),
        s == Scope::Local || lookup(st.local.modules, name) is None,
    ensures
        ({
            let first = new_urls(known_urls(st, name), all_ignored(st), scanned);
            let st2 = storage_contextualised(st, name, s, c, first);
            new_urls(known_urls(st2, name), all_ignored(st2), scanned) == Seq::<Seq<char>>::empty()
        }),
{
    let first = new_urls(known_urls(st, name), all_ignored(st), scanned);
    let st2 = storage_contextualised(st, name, s, c, first);
    let t = write_scope(st, name, s);
    let v = scope_of(st, t);
    let base = match lookup(v.modules, name) {
        Some(m) => m,
        None => empty_module_view(),
    };
    let m2 = contextualised(base, c, first);
    lemma_lookup_put(v.modules, name, m2);
    assert(found_module(st2, name) == Some(m2));
    assert(urls_of(empty_module_view().elements) =~= Seq::<Seq<char>>::empty());
    assert(urls_of(base.elements) == known_urls(st, name));
    assert(all_ignored(st2) == all_ignored(st));
    assert forall|k: int| 0 <= k < scanned.len() implies known_urls(st2, name).contains(
        #[trigger] scanned[k],
    ) || all_ignored(st2).contains(scanned[k]) by {
        let u = scanned[k];
        if !all_ignored(st).contains(u) {
            if !known_urls(st, name).contains(u) {
                lemma_new_urls_member(known_urls(st, name), all_ignored(st), scanned, u);
            }
            lemma_contextualised_keeps(base, c, first, u);
        }
    }
    lemma_new_urls_none(known_urls(st2, name), all_ignored(st2), scanned);
}

/// Whether `v` holds the text of `s`.
fn contains_text(v: &Vec<String>, s: &String) -> (r: bool)
    ensures
        r == texts(v@).contains(s@),
{
    let mut i: usize = 0;
    while i < v.len()
        invariant
            i <= v@.len(),
            forall|j: int| 0 <= j < i ==> texts(v@)[j] != s@,
        decreases v@.len() - i,
    {
        if v[i] == *s {
            assert(texts(v@)[i as int] == s@);
            return true;
        }
        i += 1;
    }
    false
}

/// The scanned URLs that the scanned module does not hold and that no scope
/// ignores, in order.
pub fn find_new_urls(options: &ScanOptions, storage: &WintsStorage, scanned_urls: Vec<String>) -> (r:
    Vec<String>)
    requires
        storage.wf(),
    ensures
        texts(r@) == new_urls(
            known_urls(storage@, options.module_name@),
            all_ignored(storage@),
            texts(scanned_urls@),
        ),
{
    let known = storage.list_of_all_urls(options.module_name.clone());
    let ignored = storage.ignored_urls();
    let ghost k = texts(known@);
    let ghost g = texts(ignored@);
    let ghost sc = texts(scanned_urls@);
    let mut r: Vec<String> = Vec::new();
    let mut i: usize = 0;
    while i < scanned_urls.len()
        invariant
            i <= scanned_urls@.len(),
            k == texts(known@),
            g == texts(ignored@),
            sc == texts(scanned_urls@),
            texts(r@) == new_urls(k, g, sc.take(i as int)),
        decreases scanned_urls@.len() - i,
    {
        let u = &scanned_urls[i];
        proof {
            assert(sc.take(i + 1).drop_last() =~= sc.take(i as int));
        }
        if !contains_text(&known, u) && !contains_text(&ignored, u) {
            let ghost before = r@;
            r.push(u.clone());
            assert(texts(r@) =~= texts(before).push(u@));
        }
        i += 1;
    }
    assert(sc.take(i as int) =~= sc);
    r
}

/// What a search comes to.
pub enum SearchOutcome {
    /// The module is unknown.
    UnknownModule,
    /// No term was given; the first context of the module, if any, is an
    /// example of terms to try.
    NoTerms(Option<String>),
    /// The URLs of the contexts that match every term.
    Found(Vec<String>),
    /// No context matches every term; the nearest one, if any, is suggested.
    Missed(Option<String>),
}

/// The text of an optional string.
pub open spec fn opt_text(o: Option<String>) -> Option<Seq<char>> {
    match o {
        Some(s) => Some(s@),
        None => None,
    }
}

/// The module a search reads: the one found by name, else the starter
/// module when the name is `main`.
pub open spec fn searched_module(st: StorageView, name: Seq<char>) -> Option<
    ModuleView,
> {
    match found_module(st, name) {
        Some(m) => Some(m),
        None => if name == "main"@ {
            Some(default_module_view())
        } else {
            None
        },
    }
}

/// The first context label of a module, if any.
pub open spec fn first_context(m: ModuleView) -> Option<Seq<char>> {
    if m.elements.len() > 0 {
        Some(m.elements[0].context)
    } else {
        None
    }
}

/// What a search with `terms` comes to on the module `m`.
pub open spec fn outcome_holds(m: ModuleView, terms: Option<Seq<Seq<char>>>, r: SearchOutcome) -> bool {
    match terms {
        None => r matches SearchOutcome::NoTerms(t) && opt_text(t) == first_context(m),
        Some(ts) => if matching_urls(m, ts).len() > 0 {
            r matches SearchOutcome::Found(u) && texts(u@) == matching_urls(m, ts)
        } else {
            r matches SearchOutcome::Missed(n) && opt_text(n) == nearest_context(m, ts)
        },
    }
}

/// The terms of a search, as texts.
pub open spec fn terms_view(terms: Option<Vec<String>>) -> Option<Seq<Seq<char>>> {
    match terms {
        Some(v) => Some(texts(v@)),
        None => None,
    }
}

fn search_module(m: &WintsModule, terms: &Option<Vec<String>>) -> (r: SearchOutcome)
    ensures
        outcome_holds(m@, terms_view(*terms), r),
{
    match terms {
        None => {
            let contexts = m.list_of_all_contexts();
            assert(texts(contexts@).len() == m@.elements.len());
            if contexts.len() > 0 {
                assert(texts(contexts@)[0] == m@.elements[0].context);
                SearchOutcome::NoTerms(Some(contexts[0].clone()))
            } else {
                SearchOutcome::NoTerms(None)
            }
        },
        Some(ts) => {
            let t1 = ts.clone();
            assert(t1@ =~= ts@);
            let urls = m.list_of_urls_from_matching_context(t1);
            if urls.len() > 0 {
                SearchOutcome::Found(urls)
            } else {
                let t2 = ts.clone();
                assert(t2@ =~= ts@);
                let n = m.nearest_matching_context(t2);
                SearchOutcome::Missed(n)
            }
        },
    }
}

/// What the search of `options` comes to: the module is found by name (the
/// starter module standing in for a missing `main`); without terms the first
/// context is suggested; with terms, the URLs of the contexts that match them
/// all, else the nearest context.
pub fn search_outcome(storage: &WintsStorage, options: &SearchOptions) -> (r: SearchOutcome)
    requires
        storage.wf(),
    ensures
        match searched_module(storage@, options.module_name@) {
            None => r is UnknownModule,
            Some(m) => outcome_holds(m, terms_view(options.matching_terms), r),
        },
{
    match storage.find_module(options.module_name.clone()) {
        Some(m) => search_module(m, &options.matching_terms),
        None => {
            if options.module_name == "main".to_string() {
                let m = WintsModule::default_module();
                search_module(&m, &options.matching_terms)
            } else {
                SearchOutcome::UnknownModule
            }
        },
    }
}

} // verus!
