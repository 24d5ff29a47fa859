//! From lines of text to the URLs they hold, cleaned, sorted and deduplicated.
use crate::module::{lemma_flatten_prefix, texts};
use linkify::{LinkFinder, LinkKind};
use vstd::prelude::*;

verus! {

/// The links that linkify finds in `line`, URLs only, in order.
pub uninterp spec fn links_of(line: Seq<char>) -> Seq<Seq<char>>;

/// Relies on linkify's `LinkFinder` restricted to `LinkKind::Url`: the text
/// of each URL link it finds in `line`, in order; this depends on the line
/// alone.
#[verifier::external_body]
fn find_links(line: &str) -> (r: Vec<String>)
    ensures
        texts(r@) == links_of(line@),
{
    let mut finder = LinkFinder::new();
    finder.kinds(&[LinkKind::Url]);
    finder.links(line).map(|link| link.as_str().to_string()).collect()
}

/// `p` is the first `[` of `s`.
pub open spec fn is_first_bracket(s: Seq<char>, p: int) -> bool {
    &&& 0 <= p < s.len()
    &&& s[p] == '['
    &&& forall|j: int| 0 <= j < p ==> s[j] != '['
}

/// A URL without what markup left after it: everything from the first `[`
/// on is dropped.
pub open spec fn cleaned(s: Seq<char>) -> Seq<char> {
    if exists|p: int| is_first_bracket(s, p) {
        s.take(choose|p: int| is_first_bracket(s, p))
    } else {
        s
    }
}

/// Drops everything from the first `[` of `url` on.
pub fn url_cleaner(url: String) -> (r: String)
    ensures
        r@ == cleaned(url@),
{
    let n = url.as_str().unicode_len();
    let mut i: usize = 0;
    while i < n
        invariant
            n == url@.len(),
            i <= n,
            forall|j: int| 0 <= j < i ==> url@[j] != '[',
        decreases n - i,
    {
        if url.as_str().get_char(i) == '[' {
            proof {
                assert(is_first_bracket(url@, i as int));
                let p = choose|p: int| is_first_bracket(url@, p);
                assert(p == i);
            }
            return url.as_str().substring_char(0, i).to_string();
        }
        i += 1;
    }
    url
}

/// The cleaned text of each link.
pub open spec fn cleaned_all(links: Seq<Seq<char>>) -> Seq<Seq<char>> {
    links.map_values(|u: Seq<char>| cleaned(u))
}

/// Cleans each of `links` (see [`url_cleaner`]), in order.
pub fn clean_urls(links: Vec<String>) -> (r: Vec<String>)
    ensures
        texts(r@) == cleaned_all(texts(links@)),
{
    let mut r: Vec<String> = Vec::new();
    let mut i: usize = 0;
    while i < links.len()
        invariant
            i <= links@.len(),
            texts(r@) == cleaned_all(texts(links@)).take(i as int),
        decreases links@.len() - i,
    {
        let ghost before = r@;
        r.push(url_cleaner(links[i].clone()));
        i += 1;
        assert(texts(r@) =~= cleaned_all(texts(links@)).take(i as int)) by {
            assert(texts(r@) =~= texts(before).push(r@.last()@));
        }
    }
    assert(cleaned_all(texts(links@)).take(i as int) =~= cleaned_all(texts(links@)));
    r
}

/// The URLs of one line, each cleaned of trailing markup.
pub fn extract_urls(line: String) -> (r: Vec<String>)
    ensures
        texts(r@) == cleaned_all(links_of(line@)),
{
    clean_urls(find_links(line.as_str()))
}

/// `a` comes strictly before `b` in the lexicographic order of code points,
/// the order of `str`.
pub open spec fn text_lt(a: Seq<char>, b: Seq<char>) -> bool
    decreases a.len(),
{
    if b.len() == 0 {
        false
    } else if a.len() == 0 {
        true
    } else if a[0] != b[0] {
        a[0] < b[0]
    } else {
        text_lt(a.drop_first(), b.drop_first())
    }
}

/// Of two different texts, one comes before the other.
pub proof fn lemma_text_lt_total(a: Seq<char>, b: Seq<char>)
    requires
        a != b,
    ensures
        text_lt(a, b) || text_lt(b, a),
    decreases a.len(),
{
    if a.len() > 0 && b.len() > 0 {
        if a[0] == b[0] {
            if a.drop_first() == b.drop_first() {
                assert(a =~= seq![a[0]] + a.drop_first());
                assert(b =~= seq![b[0]] + b.drop_first());
            }
            lemma_text_lt_total(a.drop_first(), b.drop_first());
        }
    } else if a.len() == 0 && b.len() == 0 {
        assert(a =~= b);
    }
}

/// The texts of `v` never go down.
pub open spec fn texts_sorted(v: Seq<String>) -> bool {
    forall|i: int, j: int| 0 <= i < j < v.len() ==> !text_lt(#[trigger] v[j]@, #[trigger] v[i]@)
}

/// Relies on `<[String]>::sort`: the same strings, in the order of `str`
/// (lexicographic by code point).
#[verifier::external_body]
fn sort_strings(v: Vec<String>) -> (r: Vec<String>)
    ensures
        r@.to_multiset() == v@.to_multiset(),
        texts_sorted(r@),
{
    let mut v = v;
    v.sort();
    v
}

/// Each text comes strictly before the next ones: sorted, without repeats.
pub open spec fn strictly_sorted(t: Seq<Seq<char>>) -> bool {
    forall|i: int, j: int| 0 <= i < j < t.len() ==> text_lt(#[trigger] t[i], #[trigger] t[j])
}

/// The texts of `v`, sorted and each once.
pub fn sorted_unique(v: Vec<String>) -> (r: Vec<String>)
    ensures
        strictly_sorted(texts(r@)),
        forall|x: Seq<char>| texts(r@).contains(x) <==> texts(v@).contains(x),
{
    let s = sort_strings(v);
    let ghost st = texts(s@);
    // Where each kept text comes from in `s`.
    let ghost mut from: Seq<int> = Seq::empty();
    let mut r: Vec<String> = Vec::new();
    let mut i: usize = 0;
    while i < s.len()
        invariant
            i <= s@.len(),
            st == texts(s@),
            texts_sorted(s@),
            strictly_sorted(texts(r@)),
            from.len() == r@.len(),
            i > 0 <==> r@.len() > 0,
            i > 0 ==> texts(r@).last() == st[i - 1],
            forall|k: int| 0 <= k < i ==> texts(r@).contains(#[trigger] st[k]),
            forall|a: int|
                0 <= a < r@.len() ==> 0 <= #[trigger] from[a] < i && texts(r@)[a] == st[from[a]],
        decreases s@.len() - i,
    {
        let ghost rt = texts(r@);
        let x = &s[i];
        let keep = r.len() == 0 || !(r[r.len() - 1] == *x);
        if keep {
            proof {
                assert forall|a: int| 0 <= a < rt.len() implies text_lt(rt[a], x@) by {
                    let k = from[a];
                    assert(!text_lt(s@[i as int]@, s@[k]@));
                    if rt[a] == x@ {
                        let last = rt.len() - 1;
                        if a < last {
                            assert(text_lt(rt[a], rt[last]));
                            assert(!text_lt(s@[i as int]@, s@[i - 1]@));
                        }
                    } else {
                        lemma_text_lt_total(rt[a], x@);
                    }
                }
            }
            r.push(x.clone());
            proof {
                from = from.push(i as int);
                assert(texts(r@) =~= rt.push(x@));
                assert forall|k: int| 0 <= k < i + 1 implies texts(r@).contains(#[trigger] st[k]) by {
                    if k < i {
                        let a = choose|a: int| 0 <= a < rt.len() && rt[a] == st[k];
                        assert(texts(r@)[a] == st[k]);
                    } else {
                        assert(texts(r@)[rt.len() as int] == st[k]);
                    }
                }
            }
        } else {
            proof {
                assert(rt.last() == x@);
                assert(rt[rt.len() - 1] == st[i as int]);
            }
        }
        i += 1;
    }
    proof {
        s@.to_multiset_ensures();
        v@.to_multiset_ensures();
        assert forall|x: Seq<char>| texts(r@).contains(x) <==> texts(v@).contains(x) by {
            if texts(r@).contains(x) {
                let a = choose|a: int| 0 <= a < r@.len() && texts(r@)[a] == x;
                let k = from[a];
                assert(s@.contains(s@[k]));
                assert(s@.to_multiset().count(s@[k]) > 0);
                assert(v@.contains(s@[k]));
                let b = choose|b: int| 0 <= b < v@.len() && v@[b] == s@[k];
                assert(texts(v@)[b] == x);
            }
            if texts(v@).contains(x) {
                let b = choose|b: int| 0 <= b < v@.len() && texts(v@)[b] == x;
                assert(v@.contains(v@[b]));
                assert(v@.to_multiset().count(v@[b]) > 0);
                assert(s@.contains(v@[b]));
                let k = choose|k: int| 0 <= k < s@.len() && s@[k] == v@[b];
                assert(st[k] == x);
            }
        }
    }
    r
}

/// The cleaned URLs of each line, line after line.
pub open spec fn raw_urls(lines: Seq<Seq<char>>) -> Seq<Seq<char>> {
    lines.map_values(|l: Seq<char>| cleaned_all(links_of(l))).flatten()
}

/// The URLs found in `lines`, cleaned of trailing markup, sorted in the order
/// of `str`, each once.
pub fn collect_urls(lines: Vec<String>) -> (r: Vec<String>)
    ensures
        strictly_sorted(texts(r@)),
        forall|x: Seq<char>| texts(r@).contains(x) <==> raw_urls(texts(lines@)).contains(x),
{
    let ghost lists = texts(lines@).map_values(|l: Seq<char>| cleaned_all(links_of(l)));
    let mut raw: Vec<String> = Vec::new();
    let mut i: usize = 0;
    while i < lines.len()
        invariant
            i <= lines@.len(),
            lists == texts(lines@).map_values(|l: Seq<char>| cleaned_all(links_of(l))),
            texts(raw@) == lists.take(i as int).flatten(),
        decreases lines@.len() - i,
    {
        let mut found = extract_urls(lines[i].clone());
        let ghost before = raw@;
        let ghost add = found@;
        raw.append(&mut found);
        proof {
            assert(texts(raw@) =~= texts(before) + texts(add));
            lemma_flatten_prefix(lists, i as int);
        }
        i += 1;
    }
    assert(lists.take(i as int) =~= lists);
    sorted_unique(raw)
}

} // verus!
