//! The two scopes, local and global, each with its modules and options.
use crate::config::{add_ignored, ignored_of, with_ignored, ConfigView, WintsConfig};
use crate::module::{contextualised, empty_module_view, texts, urls_of, ModuleView, WintsModule};
use vstd::prelude::*;

verus! {

/// Which of the two stores an operation targets.
#[derive(Clone, Copy, Debug, PartialEq, Eq, Structural)]
pub enum Scope {
    Local,
    Global,
}

/// A path as text: `part` under the directory `base`.
pub open spec fn path_join(base: Seq<char>, part: Seq<char>) -> Seq<char> {
    if base.len() == 0 {
        part
    } else if base.last() == '/' {
        base + part
    } else {
        base + seq!['/'] + part
    }
}

/// `part` under the directory `base`, as text.
pub fn join_path(base: &str, part: &str) -> (r: String)
    ensures
        r@ == path_join(base@, part@),
{
    let n = base.unicode_len();
    if n == 0 {
        part.to_string()
    } else if base.get_char(n - 1) == '/' {
        base.to_string().concat(part)
    } else {
        proof {
            reveal_strlit("/");
        }
        let r = base.to_string().concat("/").concat(part);
        assert(r@ =~= base@ + seq!['/'] + part@);
        r
    }
}

/// The file of the module `name` in the scope rooted at `base`.
pub open spec fn module_file(base: Seq<char>, name: Seq<char>) -> Seq<char> {
    path_join(path_join(base, "modules"@), name + ".yaml"@)
}

/// The options file of the scope rooted at `base`.
pub open spec fn config_path(base: Seq<char>) -> Seq<char> {
    path_join(base, "options.yaml"@)
}

/// The ignore file of the scope rooted at `base`.
pub open spec fn ignore_path(base: Seq<char>) -> Seq<char> {
    path_join(base, "ignore"@)
}

/// Modules by name, in the order they were added.
pub type NamedModules = Seq<(Seq<char>, ModuleView)>;

/// `i` holds the module called `name`.
pub open spec fn has_name(mods: NamedModules, name: Seq<char>, i: int) -> bool {
    0 <= i < mods.len() && mods[i].0 == name
}

/// No two modules share a name.
pub open spec fn names_unique(mods: NamedModules) -> bool {
    forall|i: int, j: int| 0 <= i < j < mods.len() ==> #[trigger] mods[i].0 != #[trigger] mods[j].0
}

/// The module called `name`, if any.
pub open spec fn lookup(mods: NamedModules, name: Seq<char>) -> Option<ModuleView> {
    if exists|i: int| has_name(mods, name, i) {
        Some(mods[choose|i: int| has_name(mods, name, i)].1)
    } else {
        None
    }
}

/// `mods` with `m` under `name`: in place of the module of that name, or
/// added at the end.
pub open spec fn put(mods: NamedModules, name: Seq<char>, m: ModuleView) -> NamedModules {
    if exists|i: int| has_name(mods, name, i) {
        mods.update(choose|i: int| has_name(mods, name, i), (name, m))
    } else {
        mods.push((name, m))
    }
}

/// With unique names, the module at `i` is the one found by its name.
pub proof fn lemma_lookup_at(mods: NamedModules, name: Seq<char>, i: int)
    requires
        names_unique(mods),
        has_name(mods, name, i),
    ensures
        lookup(mods, name) == Some(mods[i].1),
        (choose|j: int| has_name(mods, name, j)) == i,
{
    let j = choose|j: int| has_name(mods, name, j);
    assert(has_name(mods, name, j));
    if j < i {
        assert(mods[j].0 != mods[i].0);
    } else if i < j {
        assert(mods[i].0 != mods[j].0);
    }
}

/// After `put`, the name finds the module put, and names stay unique.
pub proof fn lemma_lookup_put(mods: NamedModules, name: Seq<char>, m: ModuleView)
    requires
        names_unique(mods),
    ensures
        lookup(put(mods, name, m), name) == Some(m),
        names_unique(put(mods, name, m)),
{
    let after = put(mods, name, m);
    if exists|i: int| has_name(mods, name, i) {
        let i = choose|i: int| has_name(mods, name, i);
        assert(has_name(after, name, i));
        assert(names_unique(after));
        lemma_lookup_at(after, name, i);
    } else {
        let n = mods.len() as int;
        assert forall|j: int| 0 <= j < n implies #[trigger] mods[j].0 != name by {
            assert(!has_name(mods, name, j));
        }
        assert(has_name(after, name, n));
        assert(names_unique(after));
        lemma_lookup_at(after, name, n);
    }
}

/// The mathematical value of one scope.
pub struct ScopeView {
    pub basedir: Seq<char>,
    pub modules: NamedModules,
    pub config: Option<ConfigView>,
}

/// The mathematical value of a [`WintsStorage`].
pub struct StorageView {
    pub local: ScopeView,
    pub global: ScopeView,
}

/// The scope `s` of a storage.
pub open spec fn scope_of(st: StorageView, s: Scope) -> ScopeView {
    match s {
        Scope::Local => st.local,
        Scope::Global => st.global,
    }
}

/// A storage with scope `s` replaced by `v`.
pub open spec fn with_scope(st: StorageView, s: Scope, v: ScopeView) -> StorageView {
    match s {
        Scope::Local => StorageView { local: v, global: st.global },
        Scope::Global => StorageView { local: st.local, global: v },
    }
}

/// Both scopes hold uniquely named modules.
pub open spec fn storage_wf(st: StorageView) -> bool {
    names_unique(st.local.modules) && names_unique(st.global.modules)
}

/// The module called `name`: the local one, else the global one.
pub open spec fn found_module(st: StorageView, name: Seq<char>) -> Option<ModuleView> {
    match lookup(st.local.modules, name) {
        Some(m) => Some(m),
        None => lookup(st.global.modules, name),
    }
}

/// The scope that a write to the module `name` requested in `s` lands in: a
/// local request goes to the global module where only that one exists.
pub open spec fn write_scope(st: StorageView, name: Seq<char>, s: Scope) -> Scope {
    if s == Scope::Local && lookup(st.local.modules, name) is None && lookup(
        st.global.modules,
        name,
    ) is Some {
        Scope::Global
    } else {
        s
    }
}

/// The storage after filing `urls` under the context `c` of the module
/// `name`, created empty in the requested scope where it exists nowhere.
pub open spec fn storage_contextualised(
    st: StorageView,
    name: Seq<char>,
    s: Scope,
    c: Seq<char>,
    urls: Seq<Seq<char>>,
) -> StorageView {
    let t = write_scope(st, name, s);
    let v = scope_of(st, t);
    let base = match lookup(v.modules, name) {
        Some(m) => m,
        None => empty_module_view(),
    };
    with_scope(
        st,
        t,
        ScopeView {
            basedir: v.basedir,
            modules: put(v.modules, name, contextualised(base, c, urls)),
            config: v.config,
        },
    )
}

/// The URLs of the module `name` as found by lookup, none where it is absent.
pub open spec fn known_urls(st: StorageView, name: Seq<char>) -> Seq<Seq<char>> {
    match found_module(st, name) {
        Some(m) => urls_of(m.elements),
        None => Seq::empty(),
    }
}

/// The storage after `url` is ignored in scope `s`.
pub open spec fn storage_ignored(st: StorageView, s: Scope, url: Seq<char>) -> StorageView {
    let v = scope_of(st, s);
    with_scope(
        st,
        s,
        ScopeView {
            basedir: v.basedir,
            modules: v.modules,
            config: Some(with_ignored(v.config, url)),
        },
    )
}

/// Every ignored URL: the local list, then the global one.
pub open spec fn all_ignored(st: StorageView) -> Seq<Seq<char>> {
    let l = match st.local.config {
        Some(c) => ignored_of(c),
        None => Seq::empty(),
    };
    let g = match st.global.config {
        Some(c) => ignored_of(c),
        None => Seq::empty(),
    };
    l + g
}

/// What a file of a scope holds.
pub enum Document {
    Module(WintsModule),
    Config(WintsConfig),
}

/// The mathematical value of a [`Document`].
pub enum DocumentView {
    Module(ModuleView),
    Config(ConfigView),
}

impl View for Document {
    type V = DocumentView;

    open spec fn view(&self) -> DocumentView {
        match self {
            Document::Module(m) => DocumentView::Module(m@),
            Document::Config(c) => DocumentView::Config(c@),
        }
    }
}

/// A file to write: its path and what it holds.
pub struct PendingWrite {
    pub path: String,
    pub document: Document,
}

impl View for PendingWrite {
    type V = (Seq<char>, DocumentView);

    open spec fn view(&self) -> (Seq<char>, DocumentView) {
        (self.path@, self.document@)
    }
}

/// The values of a sequence of pending writes.
pub open spec fn writes_view(v: Seq<PendingWrite>) -> Seq<(Seq<char>, DocumentView)> {
    v.map_values(|w: PendingWrite| w@)
}

/// One file per module of the scope, in order.
pub open spec fn module_writes(v: ScopeView) -> Seq<(Seq<char>, DocumentView)> {
    v.modules.map_values(
        |p: (Seq<char>, ModuleView)| (module_file(v.basedir, p.0), DocumentView::Module(p.1)),
    )
}

/// The options file of the scope, where it has options.
pub open spec fn config_writes(v: ScopeView) -> Seq<(Seq<char>, DocumentView)> {
    match v.config {
        Some(c) => seq![(config_path(v.basedir), DocumentView::Config(c))],
        None => Seq::empty(),
    }
}

/// Everything that persisting the storage writes: the local modules, the
/// global modules, then the local and the global options.
pub open spec fn store_plan(st: StorageView) -> Seq<(Seq<char>, DocumentView)> {
    module_writes(st.local) + module_writes(st.global) + config_writes(st.local) + config_writes(
        st.global,
    )
}

/// The modules and options of one scope.
pub struct ScopeStore {
    basedir: String,
    modules: Vec<(String, WintsModule)>,
    config: Option<WintsConfig>,
}

/// The value of a named module.
pub open spec fn named_view(p: (String, WintsModule)) -> (Seq<char>, ModuleView) {
    (p.0@, p.1@)
}

impl View for ScopeStore {
    type V = ScopeView;

    closed spec fn view(&self) -> ScopeView {
        ScopeView {
            basedir: self.basedir@,
            modules: self.modules@.map_values(|p: (String, WintsModule)| named_view(p)),
            config: match self.config {
                Some(c) => Some(c@),
                None => None,
            },
        }
    }
}

impl ScopeStore {
    fn new(basedir: String) -> (r: ScopeStore)
        ensures
            r@ == (ScopeView { basedir: basedir@, modules: Seq::empty(), config: None }),
    {
        let r = ScopeStore { basedir, modules: Vec::new(), config: None };
        assert(r@.modules =~= Seq::<(Seq<char>, ModuleView)>::empty());
        r
    }

    fn index_of(&self, name: &String) -> (r: Option<usize>)
        ensures
            match r {
                Some(i) => has_name(self@.modules, name@, i as int),
                None => forall|j: int| !has_name(self@.modules, name@, j),
            },
    {
        let ghost mods = self@.modules;
        let mut i: usize = 0;
        while i < self.modules.len()
            invariant
                i <= self.modules@.len(),
                mods == self@.modules,
                forall|j: int| 0 <= j < i ==> !has_name(mods, name@, j),
            decreases self.modules@.len() - i,
        {
            assert(mods[i as int] == named_view(self.modules@[i as int]));
            if self.modules[i].0 == *name {
                return Some(i);
            }
            i += 1;
        }
        None
    }

    fn get(&self, name: &String) -> (r: Option<&WintsModule>)
        requires
            names_unique(self@.modules),
        ensures
            match r {
                Some(m) => lookup(self@.modules, name@) == Some(m@),
                None => lookup(self@.modules, name@) is None,
            },
    {
        match self.index_of(name) {
            Some(i) => {
                proof {
                    lemma_lookup_at(self@.modules, name@, i as int);
                    assert(self@.modules[i as int] == named_view(self.modules@[i as int]));
                }
                Some(&self.modules[i].1)
            },
            None => None,
        }
    }

    fn put(&mut self, name: String, m: WintsModule)
        requires
            names_unique(old(self)@.modules),
        ensures
            final(self)@ == (ScopeView {
                basedir: old(self)@.basedir,
                modules: put(old(self)@.modules, name@, m@),
                config: old(self)@.config,
            }),
            names_unique(final(self)@.modules),
    {
        let ghost old_mods = self@.modules;
        match self.index_of(&name) {
            Some(i) => {
                proof {
                    lemma_lookup_at(old_mods, name@, i as int);
                }
                self.modules.set(i, (name, m));
                assert(self@.modules =~= old_mods.update(i as int, (name@, m@)));
            },
            None => {
                self.modules.push((name, m));
                assert(self@.modules =~= old_mods.push((name@, m@)));
                assert forall|j: int| 0 <= j < old_mods.len() implies old_mods[j].0 != name@ by {
                    assert(!has_name(old_mods, name@, j));
                }
            },
        }
    }

    fn contextualise(&mut self, name: String, context: String, urls: Vec<String>)
        requires
            names_unique(old(self)@.modules),
        ensures
            final(self)@ == (ScopeView {
                basedir: old(self)@.basedir,
                modules: put(
                    old(self)@.modules,
                    name@,
                    contextualised(
                        match lookup(old(self)@.modules, name@) {
                            Some(m) => m,
                            None => empty_module_view(),
                        },
                        context@,
                        texts(urls@),
                    ),
                ),
                config: old(self)@.config,
            }),
            names_unique(final(self)@.modules),
    {
        let mut m = match self.get(&name) {
            Some(found) => found.clone(),
            None => WintsModule::empty_module(),
        };
        WintsModule::contextualise_urls(&mut m, context, urls);
        self.put(name, m);
    }

    fn ignore(&mut self, url: String)
        ensures
            final(self)@ == (ScopeView {
                basedir: old(self)@.basedir,
                modules: old(self)@.modules,
                config: Some(with_ignored(old(self)@.config, url@)),
            }),
    {
        let c = add_ignored(&self.config, url);
        self.config = Some(c);
    }

    fn set_config(&mut self, config: WintsConfig)
        ensures
            final(self)@ == (ScopeView {
                basedir: old(self)@.basedir,
                modules: old(self)@.modules,
                config: Some(config@),
            }),
    {
        self.config = Some(config);
    }

    fn push_module_writes(&self, out: &mut Vec<PendingWrite>)
        ensures
            writes_view(final(out)@) == writes_view(old(out)@) + module_writes(self@),
    {
        let ghost start = writes_view(out@);
        let dir = join_path(self.basedir.as_str(), "modules");
        let mut i: usize = 0;
        while i < self.modules.len()
            invariant
                i <= self.modules@.len(),
                dir@ == path_join(self@.basedir, "modules"@),
                writes_view(out@) == start + module_writes(self@).take(i as int),
            decreases self.modules@.len() - i,
        {
            let file = self.modules[i].0.clone().concat(".yaml");
            let path = join_path(dir.as_str(), file.as_str());
            let ghost before = out@;
            out.push(PendingWrite { path, document: Document::Module(self.modules[i].1.clone()) });
            proof {
                assert(self@.modules[i as int] == named_view(self.modules@[i as int]));
                assert(writes_view(out@) =~= writes_view(before).push(out@.last()@));
            }
            i += 1;
            assert(writes_view(out@) =~= start + module_writes(self@).take(i as int));
        }
        assert(module_writes(self@).take(i as int) =~= module_writes(self@));
    }

    fn push_config_write(&self, out: &mut Vec<PendingWrite>)
        ensures
            writes_view(final(out)@) == writes_view(old(out)@) + config_writes(self@),
    {
        let ghost before = out@;
        match &self.config {
            Some(c) => {
                let path = join_path(self.basedir.as_str(), "options.yaml");
                out.push(PendingWrite { path, document: Document::Config(c.clone()) });
                assert(writes_view(out@) =~= writes_view(before) + config_writes(self@));
            },
            None => {
                assert(writes_view(out@) =~= writes_view(before) + config_writes(self@));
            },
        }
    }

    fn ignored(&self) -> (r: Vec<String>)
        ensures
            texts(r@) == match self@.config {
                Some(c) => ignored_of(c),
                None => Seq::empty(),
            },
    {
        match &self.config {
            Some(c) => c.ignored_list(),
            None => {
                let r: Vec<String> = Vec::new();
                assert(texts(r@) =~= Seq::<Seq<char>>::empty());
                r
            },
        }
    }
}

/// The local and the global scope, loaded in memory.
pub struct WintsStorage {
    local: ScopeStore,
    global: ScopeStore,
}

impl View for WintsStorage {
    type V = StorageView;

    closed spec fn view(&self) -> StorageView {
        StorageView { local: self.local@, global: self.global@ }
    }
}

impl WintsStorage {
    /// Both scopes hold uniquely named modules.
    pub open spec fn wf(&self) -> bool {
        storage_wf(self@)
    }

    /// A storage with nothing loaded, rooted at the two directories.
    pub fn new(local_basedir: String, global_basedir: String) -> (r: WintsStorage)
        ensures
            r@ == (StorageView {
                local: ScopeView { basedir: local_basedir@, modules: Seq::empty(), config: None },
                global: ScopeView { basedir: global_basedir@, modules: Seq::empty(), config: None },
            }),
            r.wf(),
    {
        WintsStorage { local: ScopeStore::new(local_basedir), global: ScopeStore::new(global_basedir) }
    }

    /// Sets `module` under `module_name` in `scope`, replacing a module of
    /// that name.
    pub fn add_module(&mut self, module_name: String, module: WintsModule, scope: Scope)
        requires
            old(self).wf(),
        ensures
            final(self).wf(),
            final(self)@ == with_scope(
                old(self)@,
                scope,
                ScopeView {
                    basedir: scope_of(old(self)@, scope).basedir,
                    modules: put(scope_of(old(self)@, scope).modules, module_name@, module@),
                    config: scope_of(old(self)@, scope).config,
                },
            ),
    {
        match scope {
            Scope::Local => self.local.put(module_name, module),
            Scope::Global => self.global.put(module_name, module),
        }
    }

    /// Sets the options of `scope`.
    pub fn set_config(&mut self, config: WintsConfig, scope: Scope)
        requires
            old(self).wf(),
        ensures
            final(self).wf(),
            final(self)@ == with_scope(
                old(self)@,
                scope,
                ScopeView {
                    basedir: scope_of(old(self)@, scope).basedir,
                    modules: scope_of(old(self)@, scope).modules,
                    config: Some(config@),
                },
            ),
    {
        match scope {
            Scope::Local => self.local.set_config(config),
            Scope::Global => self.global.set_config(config),
        }
    }

    /// The module called `module_name`: the local one, else the global one.
    pub fn find_module(&self, module_name: String) -> (r: Option<&WintsModule>)
        requires
            self.wf(),
        ensures
            match r {
                Some(m) => found_module(self@, module_name@) == Some(m@),
                None => found_module(self@, module_name@) is None,
            },
    {
        match self.local.get(&module_name) {
            Some(m) => Some(m),
            None => self.global.get(&module_name),
        }
    }

    /// Files `urls` under `context` in the module `module_name`. A global
    /// request writes the global module; a local one writes the local module,
    /// else the global one, else a new local module.
    pub fn contextualise_urls(
        &mut self,
        module_name: String,
        scope: Scope,
        context: &str,
        urls: Vec<String>,
    )
        requires
            old(self).wf(),
        ensures
            final(self).wf(),
            final(self)@ == storage_contextualised(
                old(self)@,
                module_name@,
                scope,
                context@,
                texts(urls@),
            ),
    {
        let target = match scope {
            Scope::Global => Scope::Global,
            Scope::Local => {
                if self.local.get(&module_name).is_none() && self.global.get(
                    &module_name,
                ).is_some() {
                    Scope::Global
                } else {
                    Scope::Local
                }
            },
        };
        match target {
            Scope::Local => self.local.contextualise(module_name, context.to_string(), urls),
            Scope::Global => self.global.contextualise(module_name, context.to_string(), urls),
        }
    }

    /// All URLs of the module `module_name` (found as by `find_module`), none
    /// where there is no such module.
    pub fn list_of_all_urls(&self, module_name: String) -> (r: Vec<String>)
        requires
            self.wf(),
        ensures
            texts(r@) == known_urls(self@, module_name@),
    {
        match self.find_module(module_name) {
            Some(m) => m.list_of_all_urls(),
            None => {
                let r: Vec<String> = Vec::new();
                assert(texts(r@) =~= Seq::<Seq<char>>::empty());
                r
            },
        }
    }

    /// Adds `url` at the end of the ignore list of `scope`, creating its
    /// options where there are none.
    pub fn ignore_url(&mut self, url: String, scope: Scope)
        requires
            old(self).wf(),
        ensures
            final(self).wf(),
            final(self)@ == storage_ignored(old(self)@, scope, url@),
    {
        match scope {
            Scope::Local => self.local.ignore(url),
            Scope::Global => self.global.ignore(url),
        }
    }

    /// The ignored URLs of both scopes: the local ones, then the global ones.
    pub fn ignored_urls(&self) -> (r: Vec<String>)
        ensures
            texts(r@) == all_ignored(self@),
    {
        let mut r = self.local.ignored();
        let mut g = self.global.ignored();
        let ghost l0 = r@;
        let ghost g0 = g@;
        r.append(&mut g);
        assert(texts(r@) =~= texts(l0) + texts(g0));
        r
    }

    /// The ignore files of the local and of the global scope.
    pub fn list_of_ignore_files(&self) -> (r: Vec<String>)
        ensures
            texts(r@) == seq![ignore_path(self@.local.basedir), ignore_path(self@.global.basedir)],
    {
        let mut r: Vec<String> = Vec::new();
        r.push(join_path(self.local.basedir.as_str(), "ignore"));
        r.push(join_path(self.global.basedir.as_str(), "ignore"));
        assert(texts(r@) =~= seq![
            ignore_path(self@.local.basedir),
            ignore_path(self@.global.basedir),
        ]);
        r
    }

    /// Where a glob pattern goes to be ignored in `scope`: the ignore file of
    /// that scope, and the line to append to it.
    pub fn ignore_glob(&self, glob: String, scope: Scope) -> (r: (String, String))
        ensures
            r.0@ == ignore_path(scope_of(self@, scope).basedir),
            r.1@ == glob@ + "\n"@,
    {
        let base = match scope {
            Scope::Local => self.local.basedir.as_str(),
            Scope::Global => self.global.basedir.as_str(),
        };
        (join_path(base, "ignore"), glob.concat("\n"))
    }

    /// Every file that persisting the storage writes, with what it holds: each
    /// local module, each global module, then the options of each scope that
    /// has some.
    pub fn store(&self) -> (r: Vec<PendingWrite>)
        ensures
            writes_view(r@) == store_plan(self@),
    {
        let mut r: Vec<PendingWrite> = Vec::new();
        assert(writes_view(r@) =~= Seq::<(Seq<char>, DocumentView)>::empty());
        self.local.push_module_writes(&mut r);
        self.global.push_module_writes(&mut r);
        self.local.push_config_write(&mut r);
        self.global.push_config_write(&mut r);
        assert(writes_view(r@) =~= store_plan(self@));
        r
    }
}

/// A module that only the global scope holds is found there, whatever the
/// local scope holds.
pub proof fn lemma_global_fallback(st: StorageView, name: Seq<char>, i: int)
    requires
        storage_wf(st),
        has_name(st.global.modules, name, i),
        forall|j: int| !has_name(st.local.modules, name, j),
    ensures
        found_module(st, name) == Some(st.global.modules[i].1),
{
    lemma_lookup_at(st.global.modules, name, i);
}

/// Ignoring a URL in a scope without options, then persisting, writes that
/// scope's options file listing exactly that URL; ignoring a second URL
/// appends it after the first.
pub proof fn lemma_ignore_url_stored(st: StorageView, s: Scope, x: Seq<char>, y: Seq<char>)
    requires
        scope_of(st, s).config is None,
    ensures
        store_plan(storage_ignored(st, s, x)).contains(
            (
                config_path(scope_of(st, s).basedir),
                DocumentView::Config(ConfigView { version: 1, ignored_urls: Some(seq![x]) }),
            ),
        ),
        scope_of(storage_ignored(storage_ignored(st, s, x), s, y), s).config == Some(
            ConfigView { version: 1, ignored_urls: Some(seq![x, y]) },
        ),
{
    let st1 = storage_ignored(st, s, x);
    let plan = store_plan(st1);
    let entry = (
        config_path(scope_of(st, s).basedir),
        DocumentView::Config(ConfigView { version: 1, ignored_urls: Some(seq![x]) }),
    );
    let ml = module_writes(st1.local).len() as int;
    let mg = module_writes(st1.global).len() as int;
    match s {
        Scope::Local => {
            assert(plan[ml + mg] == entry);
        },
        Scope::Global => {
            let cl = config_writes(st1.local).len() as int;
            assert(plan[ml + mg + cl] == entry);
        },
    }
    assert(seq![x].push(y) =~= seq![x, y]);
}

} // verus!
