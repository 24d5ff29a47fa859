//! Per-scope options: for now, the URLs that a scan ignores.
use crate::module::texts;
use vstd::prelude::*;

verus! {

/// The options of one scope.
pub struct WintsConfig {
    pub version: u8,
    pub ignored_urls: Option<Vec<String>>,
}

/// The mathematical value of a [`WintsConfig`].
pub struct ConfigView {
    pub version: u8,
    pub ignored_urls: Option<Seq<Seq<char>>>,
}

impl View for WintsConfig {
    type V = ConfigView;

    open spec fn view(&self) -> ConfigView {
        ConfigView {
            version: self.version,
            ignored_urls: match self.ignored_urls {
                Some(v) => Some(texts(v@)),
                None => None,
            },
        }
    }
}

impl Clone for WintsConfig {
    fn clone(&self) -> (r: WintsConfig)
        ensures
            r@ == self@,
    {
        let ignored_urls = match &self.ignored_urls {
            Some(v) => {
                let c = v.clone();
                assert(c@ =~= v@);
                Some(c)
            },
            None => None,
        };
        WintsConfig { version: self.version, ignored_urls }
    }
}

/// The ignored URLs of a configuration, none where the list is absent.
pub open spec fn ignored_of(c: ConfigView) -> Seq<Seq<char>> {
    match c.ignored_urls {
        Some(u) => u,
        None => Seq::empty(),
    }
}

/// A configuration with `url` added at the end of its ignore list; a new one
/// holding only `url` where there was none.
pub open spec fn with_ignored(c: Option<ConfigView>, url: Seq<char>) -> ConfigView {
    match c {
        Some(c) => ConfigView { version: c.version, ignored_urls: Some(ignored_of(c).push(url)) },
        None => ConfigView { version: 1, ignored_urls: Some(seq![url]) },
    }
}

impl WintsConfig {
    /// A configuration without an ignore list.
    pub fn empty_config() -> (r: WintsConfig)
        ensures
            r@ == (ConfigView { version: 1, ignored_urls: None }),
    {
        WintsConfig { version: 1, ignored_urls: None }
    }

    /// The ignored URLs, none where the list is absent.
    pub fn ignored_list(&self) -> (r: Vec<String>)
        ensures
            texts(r@) == ignored_of(self@),
    {
        match &self.ignored_urls {
            Some(v) => {
                let r = v.clone();
                assert(r@ =~= v@);
                r
            },
            None => Vec::new(),
        }
    }
}

/// `c` with `url` ignored too (see [`with_ignored`]).
pub fn add_ignored(c: &Option<WintsConfig>, url: String) -> (r: WintsConfig)
    ensures
        r@ == with_ignored(
            match c {
                Some(c) => Some(c@),
                None => None,
            },
            url@,
        ),
{
    match c {
        Some(cfg) => {
            let mut list = cfg.ignored_list();
            let ghost before = list@;
            list.push(url);
            assert(texts(list@) =~= texts(before).push(url@));
            WintsConfig { version: cfg.version, ignored_urls: Some(list) }
        },
        None => {
            let mut list: Vec<String> = Vec::new();
            list.push(url);
            assert(texts(list@) =~= seq![url@]);
            WintsConfig { version: 1, ignored_urls: Some(list) }
        },
    }
}

} // verus!
