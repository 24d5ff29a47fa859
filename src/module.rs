//! A module: an ordered list of contexts, each with its URLs.
use crate::fuzzy::{fuzzy_matches, term_matches};
use vstd::prelude::*;

verus! {

/// One context label with the URLs filed under it.
pub struct Element {
    pub context: String,
    pub urls: Vec<String>,
}

/// A named collection of contexts.
pub struct WintsModule {
    pub version: u8,
    pub elements: Vec<Element>,
}

/// The mathematical value of an [`Element`].
pub struct ElementView {
    pub context: Seq<char>,
    pub urls: Seq<Seq<char>>,
}

/// The mathematical value of a [`WintsModule`].
pub struct ModuleView {
    pub version: u8,
    pub elements: Seq<ElementView>,
}

/// The texts of a sequence of strings.
pub open spec fn texts(v: Seq<String>) -> Seq<Seq<char>> {
    v.map_values(|s: String| s@)
}

impl View for Element {
    type V = ElementView;

    open spec fn view(&self) -> ElementView {
        ElementView { context: self.context@, urls: texts(self.urls@) }
    }
}

impl View for WintsModule {
    type V = ModuleView;

    open spec fn view(&self) -> ModuleView {
        ModuleView { version: self.version, elements: self.elements@.map_values(|e: Element| e@) }
    }
}

fn copy_strings(v: &Vec<String>) -> (r: Vec<String>)
    ensures
        texts(r@) == texts(v@),
{
    let r = v.clone();
    assert(r@ =~= v@);
    r
}

impl Clone for Element {
    fn clone(&self) -> (r: Element)
        ensures
            r@ == self@,
    {
        Element { context: self.context.clone(), urls: copy_strings(&self.urls) }
    }
}

impl Clone for WintsModule {
    fn clone(&self) -> (r: WintsModule)
        ensures
            r@ == self@,
    {
        let elements = self.elements.clone();
        assert(elements@.map_values(|e: Element| e@) =~= self.elements@.map_values(
            |e: Element| e@,
        ));
        WintsModule { version: self.version, elements }
    }
}

// ---------------------------------------------------------------------------
// The model
// ---------------------------------------------------------------------------

/// A module without contexts.
pub open spec fn empty_module_view() -> ModuleView {
    ModuleView { version: 1, elements: Seq::empty() }
}

/// Context labels in order.
pub open spec fn contexts_of(elems: Seq<ElementView>) -> Seq<Seq<char>> {
    elems.map_values(|e: ElementView| e.context)
}

/// URL lists in order of their elements.
pub open spec fn url_lists(elems: Seq<ElementView>) -> Seq<Seq<Seq<char>>> {
    elems.map_values(|e: ElementView| e.urls)
}

/// All URLs, element after element, in the order of insertion.
pub open spec fn urls_of(elems: Seq<ElementView>) -> Seq<Seq<char>> {
    url_lists(elems).flatten()
}

/// No two elements share a context label.
pub open spec fn contexts_unique(m: ModuleView) -> bool {
    forall|i: int, j: int|
        0 <= i < j < m.elements.len() ==> #[trigger] m.elements[i].context
            != #[trigger] m.elements[j].context
}

/// `p` is the first element labelled `c`.
pub open spec fn is_first_with(elems: Seq<ElementView>, c: Seq<char>, p: int) -> bool {
    &&& 0 <= p < elems.len()
    &&& elems[p].context == c
    &&& forall|j: int| 0 <= j < p ==> #[trigger] elems[j].context != c
}

/// The index of the first element labelled `c`, or -1.
pub open spec fn position_of(elems: Seq<ElementView>, c: Seq<char>) -> int {
    if exists|p: int| is_first_with(elems, c, p) {
        choose|p: int| is_first_with(elems, c, p)
    } else {
        -1
    }
}

/// The URLs filed under `c` (empty where no element has that label).
pub open spec fn urls_under(m: ModuleView, c: Seq<char>) -> Seq<Seq<char>> {
    let p = position_of(m.elements, c);
    if p >= 0 {
        m.elements[p].urls
    } else {
        Seq::empty()
    }
}

/// `urls` appended under the context `c`: to its element where there is one,
/// else as a new element at the end.
pub open spec fn contextualised(m: ModuleView, c: Seq<char>, urls: Seq<Seq<char>>) -> ModuleView {
    let p = position_of(m.elements, c);
    if p >= 0 {
        ModuleView {
            version: m.version,
            elements: m.elements.update(
                p,
                ElementView { context: c, urls: m.elements[p].urls + urls },
            ),
        }
    } else {
        ModuleView {
            version: m.version,
            elements: m.elements.push(ElementView { context: c, urls: urls }),
        }
    }
}

/// How many of `terms` fuzzy-match `context`.
pub open spec fn term_count(context: Seq<char>, terms: Seq<Seq<char>>) -> nat
    decreases terms.len(),
{
    if terms.len() == 0 {
        0
    } else {
        term_count(context, terms.drop_last()) + if fuzzy_matches(context, terms.last()) {
            1nat
        } else {
            0nat
        }
    }
}

/// The term count of every element.
pub open spec fn accuracies(elems: Seq<ElementView>, terms: Seq<Seq<char>>) -> Seq<nat> {
    Seq::new(elems.len(), |i: int| term_count(elems[i].context, terms))
}

/// A sequence of counters as natural numbers.
pub open spec fn nats(v: Seq<usize>) -> Seq<nat> {
    v.map_values(|c: usize| c as nat)
}

/// The URL lists of the elements whose count is `n`, the others emptied.
pub open spec fn kept_url_lists(elems: Seq<ElementView>, counts: Seq<nat>, n: nat) -> Seq<
    Seq<Seq<char>>,
> {
    Seq::new(
        elems.len(),
        |i: int|
            if counts[i] == n {
                elems[i].urls
            } else {
                Seq::empty()
            },
    )
}

/// The URLs of the elements whose count is `n`, in order.
pub open spec fn urls_where(elems: Seq<ElementView>, counts: Seq<nat>, n: nat) -> Seq<Seq<char>> {
    kept_url_lists(elems, counts, n).flatten()
}

/// The URLs of every element that all of `terms` match.
pub open spec fn matching_urls(m: ModuleView, terms: Seq<Seq<char>>) -> Seq<Seq<char>> {
    urls_where(m.elements, accuracies(m.elements, terms), terms.len())
}

/// Some but not all of the `n` terms match.
pub open spec fn is_partial(c: nat, n: nat) -> bool {
    0 < c && c < n
}

/// `k` is the first partial match with the fewest matching terms.
pub open spec fn is_nearest(counts: Seq<nat>, n: nat, k: int) -> bool {
    &&& 0 <= k < counts.len()
    &&& is_partial(counts[k], n)
    &&& forall|j: int|
        0 <= j < counts.len() && is_partial(#[trigger] counts[j], n) ==> counts[k] <= counts[j]
    &&& forall|j: int| 0 <= j < k && is_partial(#[trigger] counts[j], n) ==> counts[k] < counts[j]
}

/// The label of the nearest partial match, if any.
pub open spec fn nearest_where(elems: Seq<ElementView>, counts: Seq<nat>, n: nat) -> Option<
    Seq<char>,
> {
    if exists|k: int| is_nearest(counts, n, k) {
        Some(elems[choose|k: int| is_nearest(counts, n, k)].context)
    } else {
        None
    }
}

/// The label suggested for `terms` when no element matches them all.
pub open spec fn nearest_context(m: ModuleView, terms: Seq<Seq<char>>) -> Option<Seq<char>> {
    nearest_where(m.elements, accuracies(m.elements, terms), terms.len())
}

/// Pushing a string pushes its text.
pub proof fn lemma_texts_push(v: Seq<String>, s: String)
    ensures
        texts(v.push(s)) == texts(v).push(s@),
{
    assert(texts(v.push(s)) =~= texts(v).push(s@));
}

/// Flattening one more list of a prefix appends that list.
pub proof fn lemma_flatten_prefix<A>(s: Seq<Seq<A>>, i: int)
    requires
        0 <= i < s.len(),
    ensures
        s.take(i + 1).flatten() == s.take(i).flatten() + s[i],
{
    assert(s.take(i + 1) =~= s.take(i).push(s[i]));
    s.take(i).lemma_flatten_push(s[i]);
}


/// The element of the starter module with label `c` and the one URL `u`.
pub open spec fn single_view(c: &str, u: &str) -> ElementView {
    ElementView { context: c@, urls: seq![u@] }
}

/// The starter module.
pub open spec fn default_module_view() -> ModuleView {
    ModuleView {
        version: 1,
        elements: seq![
            single_view("repository code", "https://github.com/rlespinasse/wints"),
            single_view("repository issues", "https://github.com/rlespinasse/wints/issues"),
            single_view("repository crate", "https://crates.io/crates/wints"),
            single_view(
                "repository usage",
                "https://github.com/rlespinasse/wints/blob/v0.x/USAGE.adoc",
            ),
        ],
    }
}

fn single(c: &str, u: &str) -> (r: Element)
    ensures
        r@ == single_view(c, u),
{
    let mut urls: Vec<String> = Vec::new();
    urls.push(u.to_string());
    let r = Element { context: c.to_string(), urls };
    assert(texts(r.urls@) =~= seq![u@]);
    r
}

/// The index of the first element labelled `c`, if any.
fn position(elements: &Vec<Element>, c: &String) -> (r: Option<usize>)
    ensures
        match r {
            Some(p) => is_first_with(elements@.map_values(|e: Element| e@), c@, p as int),
            None => forall|j: int|
                0 <= j < elements@.len() ==> #[trigger] elements@[j].context@ != c@,
        },
{
    let ghost elems = elements@.map_values(|e: Element| e@);
    let mut i: usize = 0;
    while i < elements.len()
        invariant
            i <= elements@.len(),
            elems == elements@.map_values(|e: Element| e@),
            forall|j: int| 0 <= j < i ==> #[trigger] elements@[j].context@ != c@,
        decreases elements@.len() - i,
    {
        if elements[i].context == *c {
            assert forall|j: int| 0 <= j < i implies #[trigger] elems[j].context != c@ by {
                assert(elements@[j].context@ != c@);
            }
            return Some(i);
        }
        i += 1;
    }
    None
}

impl WintsModule {
    /// A module with no context.
    pub fn empty_module() -> (r: WintsModule)
        ensures
            r@ == empty_module_view(),
            r.wf(),
    {
        let r = WintsModule { version: 1, elements: Vec::new() };
        assert(r@.elements =~= Seq::<ElementView>::empty());
        r
    }

    /// The starter module: four contexts about this project, one URL each.
    pub fn default_module() -> (r: WintsModule)
        ensures
            r@ == default_module_view(),
            r.wf(),
    {
        let mut elements: Vec<Element> = Vec::new();
        elements.push(single("repository code", "https://github.com/rlespinasse/wints"));
        elements.push(single("repository issues", "https://github.com/rlespinasse/wints/issues"));
        elements.push(single("repository crate", "https://crates.io/crates/wints"));
        elements.push(
            single(
                "repository usage",
                "https://github.com/rlespinasse/wints/blob/v0.x/USAGE.adoc",
            ),
        );
        let r = WintsModule { version: 1, elements };
        proof {
            reveal_strlit("repository code");
            reveal_strlit("repository issues");
            reveal_strlit("repository crate");
            reveal_strlit("repository usage");
            assert(r@.elements =~= default_module_view().elements);
            let e = r@.elements;
            assert(e[0].context.len() == 15 && e[1].context.len() == 17);
            assert(e[2].context.len() == 16 && e[3].context.len() == 16);
            assert(e[2].context[11] != e[3].context[11]);
            assert forall|i: int, j: int| 0 <= i < j < 4 implies e[i].context != e[j].context by {
                if i == 2 && j == 3 {
                    assert(e[2].context[11] != e[3].context[11]);
                }
            }
        }
        r
    }

    /// Whether no two elements share a context label.
    pub open spec fn wf(&self) -> bool {
        contexts_unique(self@)
    }

    /// Files `urls` under `context`: appended to the URLs of the element with
    /// that label, or as a new element at the end when there is none.
    pub fn contextualise_urls(module: &mut WintsModule, context: String, urls: Vec<String>)
        ensures
            final(module)@ == contextualised(old(module)@, context@, texts(urls@)),
            old(module).wf() ==> final(module).wf(),
    {
        let ghost old_elems = module@.elements;
        let pos = position(&module.elements, &context);
        match pos {
            Some(p) => {
                let mut joined = copy_strings(&module.elements[p].urls);
                let mut extra = urls;
                joined.append(&mut extra);
                let e = Element { context, urls: joined };
                module.elements.set(p, e);
                proof {
                    assert(texts(e.urls@) =~= old_elems[p as int].urls + texts(urls@));
                    assert(module@.elements =~= contextualised(
                        old(module)@,
                        context@,
                        texts(urls@),
                    ).elements);
                }
            },
            None => {
                let e = Element { context, urls };
                module.elements.push(e);
                proof {
                    assert(!exists|p: int| is_first_with(old_elems, context@, p));
                    assert(module@.elements =~= contextualised(
                        old(module)@,
                        context@,
                        texts(urls@),
                    ).elements);
                }
            },
        }
    }

    /// The context labels, in order.
    pub fn list_of_all_contexts(&self) -> (r: Vec<String>)
        ensures
            texts(r@) == contexts_of(self@.elements),
    {
        let mut r: Vec<String> = Vec::new();
        let mut i: usize = 0;
        while i < self.elements.len()
            invariant
                i <= self.elements@.len(),
                texts(r@) == contexts_of(self@.elements).take(i as int),
            decreases self.elements@.len() - i,
        {
            let ghost r0 = r@;
            r.push(self.elements[i].context.clone());
            proof {
                lemma_texts_push(r0, r@.last());
            }
            i += 1;
            assert(texts(r@) =~= contexts_of(self@.elements).take(i as int));
        }
        assert(contexts_of(self@.elements).take(i as int) =~= contexts_of(self@.elements));
        r
    }

    /// All URLs, element after element, repeats kept.
    pub fn list_of_all_urls(&self) -> (r: Vec<String>)
        ensures
            texts(r@) == urls_of(self@.elements),
    {
        let ghost lists = url_lists(self@.elements);
        let mut r: Vec<String> = Vec::new();
        let mut i: usize = 0;
        while i < self.elements.len()
            invariant
                i <= self.elements@.len(),
                lists == url_lists(self@.elements),
                texts(r@) == lists.take(i as int).flatten(),
            decreases self.elements@.len() - i,
        {
            let urls = &self.elements[i].urls;
            let ghost before = texts(r@);
            let mut j: usize = 0;
            while j < urls.len()
                invariant
                    j <= urls@.len(),
                    texts(r@) == before + texts(urls@).take(j as int),
                decreases urls@.len() - j,
            {
                let ghost r0 = r@;
                r.push(urls[j].clone());
                proof {
                    lemma_texts_push(r0, r@.last());
                }
                j += 1;
                assert(texts(r@) =~= before + texts(urls@).take(j as int));
            }
            proof {
                assert(texts(urls@).take(j as int) =~= lists[i as int]);
                lemma_flatten_prefix(lists, i as int);
            }
            i += 1;
        }
        assert(lists.take(i as int) =~= lists);
        r
    }

    /// How many of `terms` fuzzy-match the label of `element`.
    fn accuracy_of_matching_context(terms: &Vec<String>, element: &Element) -> (r: usize)
        ensures
            r as nat == term_count(element@.context, texts(terms@)),
    {
        let ghost ts = texts(terms@);
        let mut count: usize = 0;
        let mut j: usize = 0;
        while j < terms.len()
            invariant
                j <= terms@.len(),
                ts == texts(terms@),
                count <= j,
                count as nat == term_count(element@.context, ts.take(j as int)),
            decreases terms@.len() - j,
        {
            let m = term_matches(element.context.as_str(), terms[j].as_str());
            proof {
                assert(ts.take(j + 1).drop_last() =~= ts.take(j as int));
            }
            if m {
                count += 1;
            }
            j += 1;
        }
        assert(ts.take(j as int) =~= ts);
        count
    }

    /// The number of terms matching each element, in order.
    pub fn matching_accuracies(&self, terms: &Vec<String>) -> (r: Vec<usize>)
        ensures
            r@.len() == self.elements@.len(),
            nats(r@) == accuracies(self@.elements, texts(terms@)),
    {
        let mut r: Vec<usize> = Vec::new();
        let mut i: usize = 0;
        while i < self.elements.len()
            invariant
                i <= self.elements@.len(),
                r@.len() == i,
                nats(r@) == accuracies(self@.elements, texts(terms@)).take(i as int),
            decreases self.elements@.len() - i,
        {
            let c = WintsModule::accuracy_of_matching_context(terms, &self.elements[i]);
            let ghost r0 = r@;
            r.push(c);
            assert(nats(r@) =~= nats(r0).push(c as nat));
            i += 1;
            assert(nats(r@) =~= accuracies(self@.elements, texts(terms@)).take(i as int));
        }
        assert(accuracies(self@.elements, texts(terms@)).take(i as int) =~= accuracies(
            self@.elements,
            texts(terms@),
        ));
        r
    }

    /// The URLs of the elements whose count in `counts` is `n`, in order.
    pub fn urls_with_accuracy(&self, counts: &Vec<usize>, n: usize) -> (r: Vec<String>)
        requires
            counts@.len() == self.elements@.len(),
        ensures
            texts(r@) == urls_where(self@.elements, nats(counts@), n as nat),
    {
        let ghost lists = kept_url_lists(self@.elements, nats(counts@), n as nat);
        let mut r: Vec<String> = Vec::new();
        let mut i: usize = 0;
        while i < self.elements.len()
            invariant
                i <= self.elements@.len(),
                counts@.len() == self.elements@.len(),
                lists == kept_url_lists(self@.elements, nats(counts@), n as nat),
                texts(r@) == lists.take(i as int).flatten(),
            decreases self.elements@.len() - i,
        {
            let ghost before = texts(r@);
            if counts[i] == n {
                let urls = &self.elements[i].urls;
                let mut j: usize = 0;
                while j < urls.len()
                    invariant
                        j <= urls@.len(),
                        texts(r@) == before + texts(urls@).take(j as int),
                    decreases urls@.len() - j,
                {
                    let ghost r0 = r@;
                    r.push(urls[j].clone());
                    proof {
                        lemma_texts_push(r0, r@.last());
                    }
                    j += 1;
                    assert(texts(r@) =~= before + texts(urls@).take(j as int));
                }
                assert(texts(urls@).take(j as int) =~= lists[i as int]);
            } else {
                assert(texts(r@) =~= before + lists[i as int]);
            }
            proof {
                lemma_flatten_prefix(lists, i as int);
            }
            i += 1;
        }
        assert(lists.take(i as int) =~= lists);
        r
    }

    /// The URLs of every element that each of `terms` fuzzy-matches.
    pub fn list_of_urls_from_matching_context(&self, terms: Vec<String>) -> (r: Vec<String>)
        ensures
            texts(r@) == matching_urls(self@, texts(terms@)),
    {
        let counts = self.matching_accuracies(&terms);
        self.urls_with_accuracy(&counts, terms.len())
    }

    /// The label of the first element with the fewest counted terms among
    /// those whose count is neither 0 nor `n`.
    pub fn nearest_with_accuracy(&self, counts: &Vec<usize>, n: usize) -> (r: Option<String>)
        requires
            counts@.len() == self.elements@.len(),
        ensures
            r matches Some(s) ==> nearest_where(self@.elements, nats(counts@), n as nat) == Some(
                s@,
            ),
            r is None ==> nearest_where(self@.elements, nats(counts@), n as nat) is None,
            r is None <==> forall|j: int|
                0 <= j < counts@.len() ==> !is_partial(#[trigger] nats(counts@)[j], n as nat),
    {
        let ghost cs = nats(counts@);
        let mut best: Option<usize> = None;
        let mut i: usize = 0;
        while i < counts.len()
            invariant
                i <= counts@.len(),
                counts@.len() == self.elements@.len(),
                cs == nats(counts@),
                match best {
                    None => forall|j: int| 0 <= j < i ==> !is_partial(#[trigger] cs[j], n as nat),
                    Some(b) => {
                        &&& b < i
                        &&& is_partial(cs[b as int], n as nat)
                        &&& forall|j: int|
                            0 <= j < i && is_partial(#[trigger] cs[j], n as nat) ==> cs[b as int]
                                <= cs[j]
                        &&& forall|j: int|
                            0 <= j < b && is_partial(#[trigger] cs[j], n as nat) ==> cs[b as int]
                                < cs[j]
                    },
                },
            decreases counts@.len() - i,
        {
            let c = counts[i];
            if 0 < c && c < n {
                match best {
                    None => {
                        best = Some(i);
                    },
                    Some(b) => {
                        if c < counts[b] {
                            best = Some(i);
                        }
                    },
                }
            }
            i += 1;
        }
        match best {
            None => {
                assert(!exists|k: int| is_nearest(cs, n as nat, k));
                None
            },
            Some(b) => {
                proof {
                    assert(is_nearest(cs, n as nat, b as int));
                    let k = choose|k: int| is_nearest(cs, n as nat, k);
                    assert(k == b);
                }
                Some(self.elements[b].context.clone())
            },
        }
    }

    /// The context to suggest when no element matches all of `terms`: the
    /// first one with the fewest matching terms among those that some but not
    /// all of the terms match.
    pub fn nearest_matching_context(&self, terms: Vec<String>) -> (r: Option<String>)
        ensures
            r matches Some(s) ==> nearest_context(self@, texts(terms@)) == Some(s@),
            r is None ==> nearest_context(self@, texts(terms@)) is None,
            r is None <==> forall|j: int|
                0 <= j < self@.elements.len() ==> !is_partial(
                    #[trigger] accuracies(self@.elements, texts(terms@))[j],
                    terms@.len(),
                ),
    {
        let counts = self.matching_accuracies(&terms);
        self.nearest_with_accuracy(&counts, terms.len())
    }
}

// ---------------------------------------------------------------------------
// Laws
// ---------------------------------------------------------------------------

/// A flattened sequence of empty lists is empty.
pub proof fn lemma_flatten_empties<A>(s: Seq<Seq<A>>)
    requires
        forall|i: int| 0 <= i < s.len() ==> (#[trigger] s[i]).len() == 0,
    ensures
        s.flatten() == Seq::<A>::empty(),
    decreases s.len(),
{
    if s.len() > 0 {
        lemma_flatten_empties(s.drop_first());
        assert(s.flatten() =~= s.first() + s.drop_first().flatten());
    }
}

/// The first element labelled `c` is unique.
proof fn lemma_first_unique(elems: Seq<ElementView>, c: Seq<char>, p: int)
    requires
        is_first_with(elems, c, p),
    ensures
        position_of(elems, c) == p,
{
    let q = choose|q: int| is_first_with(elems, c, q);
    assert(is_first_with(elems, c, q));
    if q < p {
        assert(elems[q].context != c);
    } else if p < q {
        assert(elems[p].context != c);
    }
}

/// Filing URLs under a context that the module does not hold, then searching
/// with that label as the only term, gives back exactly those URLs in order,
/// provided the matcher finds the label in itself and in no other label.
pub proof fn lemma_new_context_found(m: ModuleView, c: Seq<char>, urls: Seq<Seq<char>>)
    requires
        forall|i: int| 0 <= i < m.elements.len() ==> (#[trigger] m.elements[i]).context != c,
        fuzzy_matches(c, c),
        forall|i: int|
            0 <= i < m.elements.len() ==> !fuzzy_matches((#[trigger] m.elements[i]).context, c),
    ensures
        matching_urls(contextualised(m, c, urls), seq![c]) == urls,
{
    let n = m.elements.len();
    assert(!exists|p: int| is_first_with(m.elements, c, p));
    let m2 = contextualised(m, c, urls);
    assert(m2.elements == m.elements.push(ElementView { context: c, urls: urls }));
    let terms = seq![c];
    assert(terms.drop_last() =~= Seq::<Seq<char>>::empty());
    let counts = accuracies(m2.elements, terms);
    let lists = kept_url_lists(m2.elements, counts, 1);
    assert forall|i: int| 0 <= i < n implies (#[trigger] lists[i]).len() == 0 by {
        assert(m2.elements[i] == m.elements[i]);
        assert(term_count(m2.elements[i].context, terms.drop_last()) == 0);
        assert(counts[i] == 0);
    }
    assert(term_count(c, terms.drop_last()) == 0);
    assert(counts[n as int] == 1);
    assert(lists == lists.take(n as int).push(urls));
    lemma_flatten_empties(lists.take(n as int));
    lists.take(n as int).lemma_flatten_push(urls);
    assert(lists.flatten() =~= urls);
}

/// Filing `a` and then `b` under one context leaves, under that context, the
/// URLs it had, then `a`, then `b`.
pub proof fn lemma_append_twice(
    m: ModuleView,
    c: Seq<char>,
    a: Seq<Seq<char>>,
    b: Seq<Seq<char>>,
)
    ensures
        urls_under(contextualised(contextualised(m, c, a), c, b), c) == urls_under(m, c) + a + b,
{
    let m1 = contextualised(m, c, a);
    let p = position_of(m.elements, c);
    if p >= 0 {
        assert(is_first_with(m.elements, c, p));
        assert(is_first_with(m1.elements, c, p));
        lemma_first_unique(m1.elements, c, p);
        let m2 = contextualised(m1, c, b);
        assert(is_first_with(m2.elements, c, p));
        lemma_first_unique(m2.elements, c, p);
        assert(urls_under(m2, c) == m.elements[p].urls + a + b);
    } else {
        let n = m.elements.len() as int;
        assert(!exists|q: int| is_first_with(m.elements, c, q));
        assert forall|j: int| 0 <= j < n implies #[trigger] m.elements[j].context != c by {
            if m.elements[j].context == c {
                lemma_some_first(m.elements, c, j);
            }
        }
        assert(is_first_with(m1.elements, c, n));
        lemma_first_unique(m1.elements, c, n);
        let m2 = contextualised(m1, c, b);
        assert(is_first_with(m2.elements, c, n));
        lemma_first_unique(m2.elements, c, n);
        assert(urls_under(m, c) + a + b =~= a + b);
    }
}

/// Where some element is labelled `c`, a first such element exists.
proof fn lemma_some_first(elems: Seq<ElementView>, c: Seq<char>, j: int)
    requires
        0 <= j < elems.len(),
        elems[j].context == c,
    ensures
        exists|p: int| is_first_with(elems, c, p),
    decreases j,
{
    if exists|k: int| 0 <= k < j && #[trigger] elems[k].context == c {
        let k = choose|k: int| 0 <= k < j && #[trigger] elems[k].context == c;
        lemma_some_first(elems, c, k);
    } else {
        assert(is_first_with(elems, c, j));
    }
}

/// A value of one of the lists is in their flattening.
pub proof fn lemma_flatten_contains<A>(s: Seq<Seq<A>>, i: int, x: A)
    requires
        0 <= i < s.len(),
        s[i].contains(x),
    ensures
        s.flatten().contains(x),
    decreases s.len(),
{
    assert(s.flatten() == s[0] + s.drop_first().flatten());
    if i == 0 {
        let k = choose|k: int| 0 <= k < s[0].len() && s[0][k] == x;
        assert(s.flatten()[k] == x);
    } else {
        lemma_flatten_contains(s.drop_first(), i - 1, x);
        let rest = s.drop_first().flatten();
        let k = choose|k: int| 0 <= k < rest.len() && rest[k] == x;
        assert(s.flatten()[s[0].len() + k] == x);
    }
}

/// A value of a flattening is in one of the lists.
pub proof fn lemma_flatten_member<A>(s: Seq<Seq<A>>, x: A)
    requires
        s.flatten().contains(x),
    ensures
        exists|i: int| 0 <= i < s.len() && (#[trigger] s[i]).contains(x),
    decreases s.len(),
{
    if s.len() == 0 {
        assert(s.flatten() =~= Seq::<A>::empty());
    } else {
        assert(s.flatten() == s[0] + s.drop_first().flatten());
        let k = choose|k: int| 0 <= k < s.flatten().len() && s.flatten()[k] == x;
        if k < s[0].len() {
            assert(s[0][k] == x);
            assert(s[0].contains(x));
        } else {
            let rest = s.drop_first().flatten();
            assert(rest[k - s[0].len()] == x);
            lemma_flatten_member(s.drop_first(), x);
            let i = choose|i: int| 0 <= i < s.drop_first().len() && (#[trigger] s.drop_first()[i]).contains(x);
            assert(s[i + 1] == s.drop_first()[i]);
        }
    }
}

/// Filing URLs under a context keeps every URL that the module held and
/// adds the filed ones.
pub proof fn lemma_contextualised_keeps(
    m: ModuleView,
    c: Seq<char>,
    urls: Seq<Seq<char>>,
    x: Seq<char>,
)
    requires
        urls_of(m.elements).contains(x) || urls.contains(x),
    ensures
        urls_of(contextualised(m, c, urls).elements).contains(x),
{
    let p = position_of(m.elements, c);
    let old_lists = url_lists(m.elements);
    let new_lists = url_lists(contextualised(m, c, urls).elements);
    if p >= 0 {
        assert(is_first_with(m.elements, c, p));
        assert(new_lists =~= old_lists.update(p, old_lists[p] + urls));
        if urls.contains(x) {
            let k = choose|k: int| 0 <= k < urls.len() && urls[k] == x;
            assert(new_lists[p][old_lists[p].len() + k] == x);
            lemma_flatten_contains(new_lists, p, x);
        } else {
            lemma_flatten_member(old_lists, x);
            let i = choose|i: int| 0 <= i < old_lists.len() && (#[trigger] old_lists[i]).contains(x);
            let k = choose|k: int| 0 <= k < old_lists[i].len() && old_lists[i][k] == x;
            assert(new_lists[i][k] == x);
            lemma_flatten_contains(new_lists, i, x);
        }
    } else {
        assert(new_lists =~= old_lists.push(urls));
        old_lists.lemma_flatten_push(urls);
        let f = new_lists.flatten();
        if urls.contains(x) {
            let k = choose|k: int| 0 <= k < urls.len() && urls[k] == x;
            assert(f[old_lists.flatten().len() + k] == x);
        } else {
            let k = choose|k: int| 0 <= k < old_lists.flatten().len() && old_lists.flatten()[k] == x;
            assert(f[k] == x);
        }
    }
}

/// Where no element matches every term, the search gives no URL.
pub proof fn lemma_no_full_match_no_urls(m: ModuleView, terms: Seq<Seq<char>>)
    requires
        forall|i: int|
            0 <= i < m.elements.len() ==> #[trigger] accuracies(m.elements, terms)[i]
                != terms.len(),
    ensures
        matching_urls(m, terms) == Seq::<Seq<char>>::empty(),
{
    let lists = kept_url_lists(m.elements, accuracies(m.elements, terms), terms.len());
    assert forall|i: int| 0 <= i < lists.len() implies (#[trigger] lists[i]).len() == 0 by {
        assert(accuracies(m.elements, terms)[i] != terms.len());
    }
    lemma_flatten_empties(lists);
}

/// A URL is found by a search exactly when some element that every term
/// matches holds it: the result is the union of their URLs.
pub proof fn lemma_matching_urls_union(m: ModuleView, terms: Seq<Seq<char>>, x: Seq<char>)
    ensures
        matching_urls(m, terms).contains(x) <==> exists|i: int|
            0 <= i < m.elements.len() && #[trigger] accuracies(m.elements, terms)[i]
                == terms.len() && m.elements[i].urls.contains(x),
{
    let counts = accuracies(m.elements, terms);
    let lists = kept_url_lists(m.elements, counts, terms.len());
    if matching_urls(m, terms).contains(x) {
        lemma_flatten_member(lists, x);
        let i = choose|i: int| 0 <= i < lists.len() && (#[trigger] lists[i]).contains(x);
        if counts[i] != terms.len() {
            assert(lists[i] =~= Seq::<Seq<char>>::empty());
        }
    }
    if exists|i: int|
        0 <= i < m.elements.len() && #[trigger] counts[i] == terms.len()
            && m.elements[i].urls.contains(x) {
        let i = choose|i: int|
            0 <= i < m.elements.len() && #[trigger] counts[i] == terms.len()
                && m.elements[i].urls.contains(x);
        lemma_flatten_contains(lists, i, x);
    }
}

/// Where some count is a partial match, a nearest one exists.
pub proof fn lemma_nearest_exists(counts: Seq<nat>, n: nat, j: int)
    requires
        0 <= j < counts.len(),
        is_partial(counts[j], n),
    ensures
        exists|k: int| is_nearest(counts, n, k),
    decreases counts.len(),
{
    let last = counts.len() - 1;
    let init = counts.drop_last();
    if forall|i: int| 0 <= i < last ==> !is_partial(#[trigger] counts[i], n) {
        assert(j == last);
        assert(is_nearest(counts, n, last));
    } else {
        let j2 = choose|i: int| 0 <= i < last && is_partial(#[trigger] counts[i], n);
        assert(init[j2] == counts[j2]);
        lemma_nearest_exists(init, n, j2);
        let k = choose|k: int| is_nearest(init, n, k);
        assert(init[k] == counts[k]);
        if is_partial(counts[last], n) && counts[last] < counts[k] {
            assert forall|i: int| 0 <= i < counts.len() && is_partial(#[trigger] counts[i], n) implies counts[last] <= counts[i] by {
                if i < last {
                    assert(init[i] == counts[i]);
                }
            }
            assert forall|i: int| 0 <= i < last && is_partial(#[trigger] counts[i], n) implies counts[last] < counts[i] by {
                assert(init[i] == counts[i]);
            }
            assert(is_nearest(counts, n, last));
        } else {
            assert forall|i: int| 0 <= i < counts.len() && is_partial(#[trigger] counts[i], n) implies counts[k] <= counts[i] by {
                if i < last {
                    assert(init[i] == counts[i]);
                }
            }
            assert forall|i: int| 0 <= i < k && is_partial(#[trigger] counts[i], n) implies counts[k] < counts[i] by {
                assert(init[i] == counts[i]);
            }
            assert(is_nearest(counts, n, k));
        }
    }
}

/// No context is suggested exactly when no element is a partial match (in
/// particular when no term matches any label); otherwise the suggestion is
/// the label of the first element with the fewest, but some, matching terms.
pub proof fn lemma_nearest_context(m: ModuleView, terms: Seq<Seq<char>>)
    ensures
        nearest_context(m, terms) is None <==> forall|i: int|
            0 <= i < m.elements.len() ==> !is_partial(
                #[trigger] accuracies(m.elements, terms)[i],
                terms.len(),
            ),
        nearest_context(m, terms) matches Some(c) ==> exists|k: int|
            is_nearest(accuracies(m.elements, terms), terms.len(), k) && m.elements[k].context
                == c,
{
    let counts = accuracies(m.elements, terms);
    if exists|i: int| 0 <= i < m.elements.len() && is_partial(#[trigger] counts[i], terms.len()) {
        let i = choose|i: int| 0 <= i < m.elements.len() && is_partial(#[trigger] counts[i], terms.len());
        lemma_nearest_exists(counts, terms.len(), i);
    }
}

} // verus!
