//! The plugin manager: the registry of repositories, the installed plugins,
//! and the configuration fragment that points the node at them.
//!
//! Fetching, scanning checkouts, running install commands and writing files
//! happen around these operations; each operation takes what was found and
//! decides, and leaves the state it promises.
use crate::error::{CoffeeError, ErrorKind};
use crate::host_conf::{conf_fields, conf_includes, conf_path};
use crate::plugin::{join, join_path, plan_for, resolved_executable, InstallPlan, Plugin};
use crate::repository::{checkout_path, RepoView, RepositoryInfo};
use clightningrpc_conf::CLNConf;
use vstd::prelude::*;
use vstd::string::StringExecFns;

verus! {

/// A plugin that the manager installed.
#[derive(Clone, Debug)]
pub struct InstalledPlugin {
    pub name: String,
    /// the local name of the repository it came from
    pub repo: String,
    /// the executable the node's configuration points at
    pub exec_path: String,
}

/// An installed plugin as values.
pub struct InstalledView {
    pub name: Seq<char>,
    pub repo: Seq<char>,
    pub exec_path: Seq<char>,
}

impl View for InstalledPlugin {
    type V = InstalledView;

    open spec fn view(&self) -> InstalledView {
        InstalledView { name: self.name@, repo: self.repo@, exec_path: self.exec_path@ }
    }
}

impl InstalledPlugin {
    /// A copy of the record.
    pub fn duplicate(&self) -> (r: Self)
        ensures
            r@ == self@,
    {
        InstalledPlugin { name: self.name.clone(), repo: self.repo.clone(), exec_path: self.exec_path.clone() }
    }
}

/// The records of a list of repositories, as values.
pub open spec fn repo_views(s: Seq<RepositoryInfo>) -> Seq<RepoView> {
    s.map_values(|r: RepositoryInfo| r@)
}

/// The records of a list of installed plugins, as values.
pub open spec fn installed_views(s: Seq<InstalledPlugin>) -> Seq<InstalledView> {
    s.map_values(|p: InstalledPlugin| p@)
}

/// The texts of a list of strings.
pub open spec fn string_views(s: Seq<String>) -> Seq<Seq<char>> {
    s.map_values(|n: String| n@)
}

/// The executables of a list of installed plugins, in order.
pub open spec fn exec_paths(s: Seq<InstalledView>) -> Seq<Seq<char>> {
    s.map_values(|p: InstalledView| p.exec_path)
}

/// The key under which the node's configuration names a plugin to load.
pub open spec fn plugin_key() -> Seq<char> {
    "plugin"@
}

/// The plugin directives of a configuration, in order.
pub open spec fn plugin_directives(c: CLNConf) -> Seq<Seq<char>> {
    if conf_fields(c).contains_key(plugin_key()) {
        conf_fields(c)[plugin_key()]
    } else {
        Seq::empty()
    }
}

/// No two repositories share a local name.
pub open spec fn names_distinct(s: Seq<RepoView>) -> bool {
    forall|i: int, j: int| 0 <= i < s.len() && 0 <= j < s.len() && i != j ==> s[i].name != s[j].name
}

/// No two installed plugins share an executable.
pub open spec fn execs_distinct(s: Seq<InstalledView>) -> bool {
    forall|i: int, j: int| 0 <= i < s.len() && 0 <= j < s.len() && i != j ==> s[i].exec_path != s[j].exec_path
}

/// No two installed plugins share a name.
pub open spec fn plugin_names_distinct(s: Seq<InstalledView>) -> bool {
    forall|i: int, j: int| 0 <= i < s.len() && 0 <= j < s.len() && i != j ==> s[i].name != s[j].name
}

/// Whether a repository of that local name is registered.
pub open spec fn remote_registered(s: Seq<RepoView>, name: Seq<char>) -> bool {
    exists|i: int| 0 <= i < s.len() && s[i].name == name
}

/// The number of repositories of that local name.
pub open spec fn count_named(s: Seq<RepoView>, name: Seq<char>) -> nat
    decreases s.len(),
{
    if s.len() == 0 {
        0
    } else {
        count_named(s.drop_last(), name) + if s.last().name == name { 1nat } else { 0nat }
    }
}

/// The plugins of the list that did not come from `repo`, in order.
pub open spec fn plugins_not_from(s: Seq<InstalledView>, repo: Seq<char>) -> Seq<InstalledView>
    decreases s.len(),
{
    if s.len() == 0 {
        s
    } else if s.last().repo == repo {
        plugins_not_from(s.drop_last(), repo)
    } else {
        plugins_not_from(s.drop_last(), repo).push(s.last())
    }
}

/// The plugins of the list that came from none of the repositories `repos`,
/// in order.
pub open spec fn plugins_not_in(s: Seq<InstalledView>, repos: Seq<Seq<char>>) -> Seq<InstalledView>
    decreases s.len(),
{
    if s.len() == 0 {
        s
    } else if repos.contains(s.last().repo) {
        plugins_not_in(s.drop_last(), repos)
    } else {
        plugins_not_in(s.drop_last(), repos).push(s.last())
    }
}

/// The repositories of the list whose names are not among `names`, in order.
pub open spec fn remotes_kept(s: Seq<RepoView>, names: Seq<Seq<char>>) -> Seq<RepoView>
    decreases s.len(),
{
    if s.len() == 0 {
        s
    } else if names.contains(s.last().name) {
        remotes_kept(s.drop_last(), names)
    } else {
        remotes_kept(s.drop_last(), names).push(s.last())
    }
}

/// The names of the repositories of the list that are among `names`, in order.
pub open spec fn dropped_names(s: Seq<RepoView>, names: Seq<Seq<char>>) -> Seq<Seq<char>>
    decreases s.len(),
{
    if s.len() == 0 {
        Seq::empty()
    } else if names.contains(s.last().name) {
        dropped_names(s.drop_last(), names).push(s.last().name)
    } else {
        dropped_names(s.drop_last(), names)
    }
}

/// The index of the first installed plugin named `name`, if any.
pub open spec fn installed_index(s: Seq<InstalledView>, name: Seq<char>) -> Option<int>
    decreases s.len(),
{
    if s.len() == 0 {
        None
    } else {
        match installed_index(s.drop_last(), name) {
            Some(i) => Some(i),
            None => if s.last().name == name { Some(s.len() - 1) } else { None },
        }
    }
}

/// The index of the repository of that local name, if any.
pub open spec fn remote_index(s: Seq<RepoView>, name: Seq<char>) -> Option<int>
    decreases s.len(),
{
    if s.len() == 0 {
        None
    } else {
        match remote_index(s.drop_last(), name) {
            Some(i) => Some(i),
            None => if s.last().name == name { Some(s.len() - 1) } else { None },
        }
    }
}

/// The plugins of the list that came from `repo`, in order.
pub open spec fn plugins_from(s: Seq<InstalledView>, repo: Seq<char>) -> Seq<InstalledView>
    decreases s.len(),
{
    if s.len() == 0 {
        s
    } else if s.last().repo == repo {
        plugins_from(s.drop_last(), repo).push(s.last())
    } else {
        plugins_from(s.drop_last(), repo)
    }
}

/// The first of the first `n` scan results that found the plugin.
pub open spec fn first_found(found: Seq<Option<Plugin>>, n: int) -> Option<int>
    decreases n,
{
    if n <= 0 {
        None
    } else {
        match first_found(found, n - 1) {
            Some(i) => Some(i),
            None => if n - 1 < found.len() && found[n - 1] is Some { Some(n - 1) } else { None },
        }
    }
}

/// The smaller of two lengths.
pub open spec fn min_len(a: int, b: int) -> int {
    if a < b { a } else { b }
}

/// `<path>/README.md`: a plugin's documentation.
pub open spec fn readme_path(p: Plugin) -> Seq<char> {
    join_path(p.path@, "README.md"@)
}

proof fn lemma_first_found_step(found: Seq<Option<Plugin>>, i: int)
    requires
        0 <= i < found.len(),
        first_found(found, i) is None,
    ensures
        found[i] is Some ==> first_found(found, i + 1) == Some(i),
        found[i] is None ==> first_found(found, i + 1) is None,
{
}

proof fn lemma_first_found_stable(found: Seq<Option<Plugin>>, i: int, m: int)
    requires
        0 <= i < m,
        first_found(found, i + 1) == Some(i),
    ensures
        first_found(found, m) == Some(i),
    decreases m - i,
{
    if m > i + 1 {
        lemma_first_found_stable(found, i, m - 1);
    }
}

proof fn lemma_installed_index_step(s: Seq<InstalledView>, name: Seq<char>, i: int)
    requires
        0 <= i < s.len(),
        installed_index(s.take(i), name) is None,
    ensures
        s[i].name == name ==> installed_index(s.take(i + 1), name) == Some(i),
        s[i].name != name ==> installed_index(s.take(i + 1), name) is None,
{
    assert(s.take(i + 1).drop_last() =~= s.take(i));
}

proof fn lemma_installed_index_found(s: Seq<InstalledView>, name: Seq<char>, i: int, m: int)
    requires
        0 <= i < m <= s.len(),
        installed_index(s.take(i + 1), name) == Some(i),
    ensures
        installed_index(s.take(m), name) == Some(i),
    decreases m - i,
{
    if m > i + 1 {
        lemma_installed_index_found(s, name, i, m - 1);
        assert(s.take(m).drop_last() =~= s.take(m - 1));
    }
}

proof fn lemma_remote_index_step(s: Seq<RepoView>, name: Seq<char>, i: int)
    requires
        0 <= i < s.len(),
        remote_index(s.take(i), name) is None,
    ensures
        s[i].name == name ==> remote_index(s.take(i + 1), name) == Some(i),
        s[i].name != name ==> remote_index(s.take(i + 1), name) is None,
{
    assert(s.take(i + 1).drop_last() =~= s.take(i));
}

proof fn lemma_remote_index_found(s: Seq<RepoView>, name: Seq<char>, i: int, m: int)
    requires
        0 <= i < m <= s.len(),
        remote_index(s.take(i + 1), name) == Some(i),
    ensures
        remote_index(s.take(m), name) == Some(i),
    decreases m - i,
{
    if m > i + 1 {
        lemma_remote_index_found(s, name, i, m - 1);
        assert(s.take(m).drop_last() =~= s.take(m - 1));
    }
}

/// A repository is registered exactly where it has an index.
pub(crate) proof fn lemma_remote_index_registered(s: Seq<RepoView>, name: Seq<char>)
    ensures
        remote_index(s, name) is Some <==> remote_registered(s, name),
        remote_index(s, name) matches Some(i) ==> 0 <= i < s.len() && s[i].name == name,
    decreases s.len(),
{
    if s.len() > 0 {
        lemma_remote_index_registered(s.drop_last(), name);
        if remote_registered(s, name) {
            let i = choose|i: int| 0 <= i < s.len() && s[i].name == name;
            if i < s.len() - 1 {
                assert(s.drop_last()[i] == s[i]);
            }
        }
        if remote_registered(s.drop_last(), name) {
            let i = choose|i: int| 0 <= i < s.drop_last().len() && s.drop_last()[i].name == name;
            assert(s[i] == s.drop_last()[i]);
        }
    }
}

pub(crate) proof fn lemma_installed_index_bounds(s: Seq<InstalledView>, name: Seq<char>)
    ensures
        installed_index(s, name) matches Some(i) ==> 0 <= i < s.len() && s[i].name == name,
    decreases s.len(),
{
    if s.len() > 0 {
        lemma_installed_index_bounds(s.drop_last(), name);
    }
}

/// A plugin name has no index exactly where no installed plugin has it.
pub(crate) proof fn lemma_installed_index_none(s: Seq<InstalledView>, name: Seq<char>)
    ensures
        installed_index(s, name) is None <==> (forall|j: int| 0 <= j < s.len() ==> s[j].name != name),
    decreases s.len(),
{
    if s.len() > 0 {
        lemma_installed_index_none(s.drop_last(), name);
        assert forall|j: int| 0 <= j < s.len() - 1 implies s.drop_last()[j] == s[j] by {}
        if installed_index(s, name) is Some {
            lemma_installed_index_bounds(s, name);
        }
    }
}

proof fn lemma_drop_step(s: Seq<InstalledView>, repos: Seq<Seq<char>>, i: int)
    requires
        0 <= i < s.len(),
    ensures
        repos.contains(s[i].repo) ==> plugins_not_in(s.take(i + 1), repos) == plugins_not_in(s.take(i), repos),
        !repos.contains(s[i].repo) ==> plugins_not_in(s.take(i + 1), repos) == plugins_not_in(s.take(i), repos).push(s[i]),
{
    assert(s.take(i + 1).drop_last() =~= s.take(i));
}

fn contains_name(names: &Vec<String>, name: &String) -> (r: bool)
    ensures
        r == string_views(names@).contains(name@),
{
    let mut i: usize = 0;
    while i < names.len()
        invariant
            i <= names@.len(),
            forall|j: int| 0 <= j < i ==> names@[j]@ != name@,
        decreases names@.len() - i,
    {
        if names[i] == *name {
            assert(string_views(names@)[i as int] == name@);
            return true;
        }
        i += 1;
    }
    proof {
        if string_views(names@).contains(name@) {
            let j = choose|j: int| 0 <= j < string_views(names@).len() && string_views(names@)[j] == name@;
            assert(names@[j]@ == name@);
        }
    }
    false
}

proof fn lemma_split_step(s: Seq<InstalledView>, repo: Seq<char>, i: int)
    requires
        0 <= i < s.len(),
    ensures
        s[i].repo == repo ==> plugins_not_from(s.take(i + 1), repo) == plugins_not_from(s.take(i), repo)
            && plugins_from(s.take(i + 1), repo) == plugins_from(s.take(i), repo).push(s[i]),
        s[i].repo != repo ==> plugins_not_from(s.take(i + 1), repo) == plugins_not_from(s.take(i), repo).push(s[i])
            && plugins_from(s.take(i + 1), repo) == plugins_from(s.take(i), repo),
{
    assert(s.take(i + 1).drop_last() =~= s.take(i));
}

/// Where a sequence has no repeated executable, an executable that occurs
/// twice occurs at one index.
proof fn lemma_same_exec_same_index(s: Seq<InstalledView>, i: int, k: int)
    requires
        execs_distinct(s),
        0 <= i < s.len(),
        0 <= k < s.len(),
        exec_paths(s)[i] == exec_paths(s)[k],
    ensures
        i == k,
{
}

/// The state that loading the snapshot `s` for the network `network` rooted
/// at `root` gives.
pub open spec fn restored(network: Seq<char>, root: Seq<char>, s: StorageView) -> ManagerView {
    ManagerView {
        network,
        root_path: root,
        config_path: fragment_path(root),
        cln_config_path: s.cln_config_path,
        remotes: s.remotes,
        plugins: s.plugins,
        directives: exec_paths(s.plugins),
        host_includes: None,
        host_fields: None,
        host_file: None,
        fragment_file: fragment_path(root),
    }
}

/// The manager's state as values.
pub struct ManagerView {
    pub network: Seq<char>,
    pub root_path: Seq<char>,
    /// where the manager's own configuration fragment lives
    pub config_path: Seq<char>,
    /// the node's configuration file, once set up
    pub cln_config_path: Option<Seq<char>>,
    /// the registered repositories, in order of registration
    pub remotes: Seq<RepoView>,
    /// the installed plugins, in order of installation
    pub plugins: Seq<InstalledView>,
    /// the plugin directives of the manager's fragment
    pub directives: Seq<Seq<char>>,
    /// the files that the node's configuration includes, once set up
    pub host_includes: Option<Seq<Seq<char>>>,
    /// the node's own directives, once set up
    pub host_fields: Option<Map<Seq<char>, Seq<Seq<char>>>>,
    /// the file that the node's configuration is written to, once set up
    pub host_file: Option<Seq<char>>,
    /// the file that the fragment is written to
    pub fragment_file: Seq<char>,
}

/// The consistency of a manager's state: local names unique, plugin names
/// and executables unique, one directive for each installed plugin, in the same order, and
/// the fragment bound to the manager's configuration path.
pub open spec fn manager_wf(v: ManagerView) -> bool {
    &&& names_distinct(v.remotes)
    &&& execs_distinct(v.plugins)
    &&& plugin_names_distinct(v.plugins)
    &&& v.directives == exec_paths(v.plugins)
    &&& v.fragment_file == v.config_path
}

/// `<root>/coffee.conf`: the manager's configuration fragment.
pub open spec fn fragment_path(root: Seq<char>) -> Seq<char> {
    root + "/coffee.conf"@
}

/// `<root>/storage`: the manager's snapshot file.
pub open spec fn storage_path(root: Seq<char>) -> Seq<char> {
    root + "/storage"@
}

/// The persisted configuration of the manager.
#[derive(Clone, Debug)]
pub struct CoffeeConf {
    pub network: String,
    pub root_path: String,
    pub config_path: String,
    pub cln_config_path: Option<String>,
    pub plugins: Vec<InstalledPlugin>,
}

/// What the manager persists: its configuration and its registry.
#[derive(Clone, Debug)]
pub struct CoffeStorageInfo {
    pub config: CoffeeConf,
    pub repositories: Vec<RepositoryInfo>,
}

/// A snapshot as values.
pub struct StorageView {
    pub cln_config_path: Option<Seq<char>>,
    pub remotes: Seq<RepoView>,
    pub plugins: Seq<InstalledView>,
}

/// The text of an optional string.
pub open spec fn opt_view(o: Option<String>) -> Option<Seq<char>> {
    match o {
        Some(s) => Some(s@),
        None => None,
    }
}

impl View for CoffeStorageInfo {
    type V = StorageView;

    open spec fn view(&self) -> StorageView {
        StorageView {
            cln_config_path: opt_view(self.config.cln_config_path),
            remotes: repo_views(self.repositories@),
            plugins: installed_views(self.config.plugins@),
        }
    }
}

/// The snapshot of a manager's state.
pub open spec fn snapshot_of(v: ManagerView) -> StorageView {
    StorageView { cln_config_path: v.cln_config_path, remotes: v.remotes, plugins: v.plugins }
}

/// Whether a snapshot is valid: no local name, plugin name or executable
/// occurs twice. Each directive stands for one installed plugin, so a
/// snapshot that repeats an executable names one directive twice, and is
/// not one that the manager writes.
pub open spec fn loadable(s: StorageView) -> bool {
    names_distinct(s.remotes) && execs_distinct(s.plugins) && plugin_names_distinct(s.plugins)
}

/// The list of installed plugins.
#[derive(Clone, Debug)]
pub struct CoffeeList {
    pub plugins: Vec<InstalledPlugin>,
}

/// The list of registered repositories.
#[derive(Clone, Debug)]
pub struct CoffeeRemote {
    pub remotes: Vec<RepositoryInfo>,
}

/// What a removal took away.
#[derive(Clone, Debug)]
pub struct CoffeeRemove {
    pub plugin: InstalledPlugin,
}

/// What removing a repository took away.
#[derive(Clone, Debug)]
pub struct CoffeeRemoteRm {
    pub repository: RepositoryInfo,
    pub plugins: Vec<InstalledPlugin>,
}

/// An install that has been decided: the plugin to record, and what
/// must run before it is recorded.
#[derive(Clone, Debug)]
pub struct InstallStep {
    pub plugin: InstalledPlugin,
    pub plan: InstallPlan,
}

fn copy_repos(v: &Vec<RepositoryInfo>) -> (r: Vec<RepositoryInfo>)
    ensures
        repo_views(r@) == repo_views(v@),
{
    let mut r: Vec<RepositoryInfo> = Vec::new();
    let mut i: usize = 0;
    while i < v.len()
        invariant
            i <= v@.len(),
            repo_views(r@) == repo_views(v@.take(i as int)),
        decreases v@.len() - i,
    {
        let ghost before = r@;
        let x = v[i].duplicate();
        r.push(x);
        assert(r@ =~= before.push(x));
        assert(repo_views(r@) =~= repo_views(before).push(x@));
        assert(v@.take(i as int + 1) =~= v@.take(i as int).push(v@[i as int]));
        assert(repo_views(v@.take(i as int + 1)) =~= repo_views(v@.take(i as int)).push(v@[i as int]@));
        i += 1;
    }
    assert(v@.take(i as int) =~= v@);
    r
}

fn copy_plugins(v: &Vec<InstalledPlugin>) -> (r: Vec<InstalledPlugin>)
    ensures
        installed_views(r@) == installed_views(v@),
{
    let mut r: Vec<InstalledPlugin> = Vec::new();
    let mut i: usize = 0;
    while i < v.len()
        invariant
            i <= v@.len(),
            installed_views(r@) == installed_views(v@.take(i as int)),
        decreases v@.len() - i,
    {
        let ghost before = r@;
        let x = v[i].duplicate();
        r.push(x);
        assert(r@ =~= before.push(x));
        assert(installed_views(r@) =~= installed_views(before).push(x@));
        assert(v@.take(i as int + 1) =~= v@.take(i as int).push(v@[i as int]));
        assert(installed_views(v@.take(i as int + 1)) =~= installed_views(v@.take(i as int)).push(v@[i as int]@));
        i += 1;
    }
    assert(v@.take(i as int) =~= v@);
    r
}

fn copy_opt(o: &Option<String>) -> (r: Option<String>)
    ensures
        opt_view(r) == opt_view(*o),
{
    match o {
        Some(s) => Some(s.clone()),
        None => None,
    }
}

/// The plugin manager.
pub struct CoffeeManager {
    network: String,
    root_path: String,
    config_path: String,
    cln_config_path: Option<String>,
    repos: Vec<RepositoryInfo>,
    plugins: Vec<InstalledPlugin>,
    /// the configuration fragment managed by the manager
    coffe_cln_config: CLNConf,
    /// the node's configuration, which includes the fragment
    cln_config: Option<CLNConf>,
}

impl View for CoffeeManager {
    type V = ManagerView;

    closed spec fn view(&self) -> ManagerView {
        ManagerView {
            network: self.network@,
            root_path: self.root_path@,
            config_path: self.config_path@,
            cln_config_path: opt_view(self.cln_config_path),
            remotes: repo_views(self.repos@),
            plugins: installed_views(self.plugins@),
            directives: plugin_directives(self.coffe_cln_config),
            host_includes: match self.cln_config {
                Some(c) => Some(conf_includes(c)),
                None => None,
            },
            host_fields: match self.cln_config {
                Some(c) => Some(conf_fields(c)),
                None => None,
            },
            host_file: match self.cln_config {
                Some(c) => Some(conf_path(c)),
                None => None,
            },
            fragment_file: conf_path(self.coffe_cln_config),
        }
    }
}

impl CoffeeManager {
    /// The state of a manager with nothing registered.
    pub open spec fn new_view(network: Seq<char>, root: Seq<char>) -> ManagerView {
        ManagerView {
            network,
            root_path: root,
            config_path: fragment_path(root),
            cln_config_path: None,
            remotes: Seq::empty(),
            plugins: Seq::empty(),
            directives: Seq::empty(),
            host_includes: None,
            host_fields: None,
            host_file: None,
            fragment_file: fragment_path(root),
        }
    }

    /// A manager with nothing registered, for the network `network` rooted
    /// at `root_path`.
    pub fn new(network: &str, root_path: &str) -> (r: Self)
        ensures
            manager_wf(r@),
            r@ == Self::new_view(network@, root_path@),
    {
        let mut config_path = root_path.to_owned();
        config_path.append("/coffee.conf");
        let coffe_cln_config = CLNConf::new(config_path.clone(), true);
        let r = CoffeeManager {
            network: network.to_owned(),
            root_path: root_path.to_owned(),
            config_path,
            cln_config_path: None,
            repos: Vec::new(),
            plugins: Vec::new(),
            coffe_cln_config,
            cln_config: None,
        };
        assert(r@.remotes =~= Seq::<RepoView>::empty());
        assert(r@.plugins =~= Seq::<InstalledView>::empty());
        assert(r@.directives =~= exec_paths(r@.plugins));
        assert(r@ =~= Self::new_view(network@, root_path@));
        r
    }

    /// The installed plugins.
    pub fn list(&self) -> (r: CoffeeList)
        ensures
            installed_views(r.plugins@) == self@.plugins,
    {
        CoffeeList { plugins: copy_plugins(&self.plugins) }
    }

    /// The registered repositories, in order of registration.
    pub fn list_remotes(&self) -> (r: CoffeeRemote)
        ensures
            repo_views(r.remotes@) == self@.remotes,
    {
        CoffeeRemote { remotes: copy_repos(&self.repos) }
    }

    /// The snapshot of the manager's state.
    pub fn storage_info(&self) -> (r: CoffeStorageInfo)
        ensures
            r@ == snapshot_of(self@),
            r.config.network@ == self@.network,
            r.config.root_path@ == self@.root_path,
            r.config.config_path@ == self@.config_path,
    {
        CoffeStorageInfo {
            config: CoffeeConf {
                network: self.network.clone(),
                root_path: self.root_path.clone(),
                config_path: self.config_path.clone(),
                cln_config_path: copy_opt(&self.cln_config_path),
                plugins: copy_plugins(&self.plugins),
            },
            repositories: copy_repos(&self.repos),
        }
    }

    /// The manager's configuration fragment, to be written out.
    pub fn coffee_cln_config(&self) -> (r: &CLNConf)
        ensures
            conf_path(*r) == self@.fragment_file,
            plugin_directives(*r) == self@.directives,
    {
        &self.coffe_cln_config
    }

    /// The node's configuration, once set up, to be written out.
    pub fn cln_config(&self) -> (r: Option<&CLNConf>)
        ensures
            r is Some <==> self@.host_includes is Some,
            r is Some ==> conf_includes(*r->Some_0) == self@.host_includes->Some_0,
            r is Some ==> conf_fields(*r->Some_0) == self@.host_fields->Some_0,
            r is Some ==> conf_path(*r->Some_0) == self@.host_file->Some_0,
    {
        match &self.cln_config {
            Some(c) => Some(c),
            None => None,
        }
    }

    /// Whether a repository of that local name is registered.
    pub fn has_remote(&self, name: &str) -> (r: bool)
        ensures
            r == remote_registered(self@.remotes, name@),
    {
        let owned = name.to_owned();
        let mut i: usize = 0;
        while i < self.repos.len()
            invariant
                i <= self.repos@.len(),
                owned@ == name@,
                forall|j: int| 0 <= j < i ==> self@.remotes[j].name != name@,
            decreases self.repos@.len() - i,
        {
            if self.repos[i].name == owned {
                assert(self@.remotes[i as int] == self.repos@[i as int]@);
                assert(self@.remotes[i as int].name == name@);
                assert(remote_registered(self@.remotes, name@));
                return true;
            }
            i += 1;
        }
        false
    }

    /// The record that registering `name` from `url` will make, with the
    /// path its checkout goes to; a local name already registered is refused.
    pub fn remote_for(&self, name: &str, url: &str) -> (r: Result<RepositoryInfo, CoffeeError>)
        ensures
            r is Ok <==> !remote_registered(self@.remotes, name@),
            r is Ok ==> r->Ok_0@ == (RepoView {
                kind: crate::repository::Kind::Git,
                name: name@,
                url: url@,
                root_path: checkout_path(self@.root_path, name@),
            }),
            r is Err ==> r->Err_0.kind == ErrorKind::Repository,
    {
        if self.has_remote(name) {
            let mut cause = "repository with name `".to_owned();
            cause.append(name);
            cause.append("` already exists");
            Err(CoffeeError::new(ErrorKind::Repository, cause))
        } else {
            Ok(RepositoryInfo::new(&self.root_path, name, url))
        }
    }

    /// Registers the repository `name` fetched from `url`, after its first
    /// fetch succeeded; a local name already registered is refused and the
    /// registry is left as it was.
    pub fn add_remote(&mut self, name: &str, url: &str) -> (r: Result<(), CoffeeError>)
        requires
            manager_wf(old(self)@),
        ensures
            manager_wf(final(self)@),
            r is Ok <==> !remote_registered(old(self)@.remotes, name@),
            r is Ok ==> final(self)@ == (ManagerView {
                remotes: old(self)@.remotes.push(RepoView {
                    kind: crate::repository::Kind::Git,
                    name: name@,
                    url: url@,
                    root_path: checkout_path(old(self)@.root_path, name@),
                }),
                ..old(self)@
            }),
            r is Err ==> final(self)@ == old(self)@ && r->Err_0.kind == ErrorKind::Repository,
    {
        let repo = self.remote_for(name, url)?;
        let ghost before = self.repos@;
        self.repos.push(repo);
        assert(self.repos@ =~= before.push(repo));
        assert(repo_views(self.repos@) =~= repo_views(before).push(repo@));
        Ok(())
    }

    /// Decides the install of the plugin `plugin`, given what a scan of each
    /// repository's checkout found, in order of registration. The first
    /// repository that holds the plugin wins; nothing is changed here.
    pub fn install(&self, plugin: &str, found: &Vec<Option<Plugin>>) -> (r: Result<InstallStep, CoffeeError>)
        ensures
            first_found(found@, min_len(found@.len() as int, self@.remotes.len() as int)) is None ==> r is Err
                && r->Err_0.kind == ErrorKind::PluginNotFound,
            first_found(found@, min_len(found@.len() as int, self@.remotes.len() as int)) matches Some(i) ==> {
                &&& (r is Ok <==> resolved_executable(found@[i]->Some_0) is Some)
                &&& (r is Ok ==> plan_for(found@[i]->Some_0, r->Ok_0.plan) && r->Ok_0.plugin@ == (InstalledView {
                    name: plugin@,
                    repo: self@.remotes[i].name,
                    exec_path: resolved_executable(found@[i]->Some_0)->Some_0,
                }))
                &&& (r is Err ==> r->Err_0.kind == ErrorKind::UnsupportedLanguage)
            },
    {
        let n: usize = if found.len() < self.repos.len() { found.len() } else { self.repos.len() };
        let mut i: usize = 0;
        while i < n
            invariant
                i <= n,
                n == min_len(found@.len() as int, self@.remotes.len() as int),
                first_found(found@, i as int) is None,
            decreases n - i,
        {
            proof { lemma_first_found_step(found@, i as int); }
            if let Some(p) = &found[i] {
                proof { lemma_first_found_stable(found@, i as int, n as int); }
                let plan = p.configure()?;
                let exec_path = plan.exec_path.clone();
                assert(self@.remotes[i as int] == self.repos@[i as int]@);
                return Ok(InstallStep {
                    plugin: InstalledPlugin { name: plugin.to_owned(), repo: self.repos[i].name.clone(), exec_path },
                    plan,
                });
            }
            i += 1;
        }
        let mut cause = "plugin `".to_owned();
        cause.append(plugin);
        cause.append("` are not present inside the repositories");
        Err(CoffeeError::new(ErrorKind::PluginNotFound, cause))
    }

    /// Whether a plugin of that name is installed.
    pub fn is_installed(&self, name: &str) -> (r: bool)
        ensures
            r == installed_index(self@.plugins, name@) is Some,
    {
        let owned = name.to_owned();
        let mut i: usize = 0;
        while i < self.plugins.len()
            invariant
                i <= self.plugins@.len(),
                owned@ == name@,
                installed_index(self@.plugins.take(i as int), name@) is None,
            decreases self.plugins@.len() - i,
        {
            proof { lemma_installed_index_step(self@.plugins, name@, i as int); }
            assert(self@.plugins[i as int] == self.plugins@[i as int]@);
            if self.plugins[i].name == owned {
                proof {
                    lemma_installed_index_found(self@.plugins, name@, i as int, self@.plugins.len() as int);
                    assert(self@.plugins.take(self@.plugins.len() as int) =~= self@.plugins);
                }
                return true;
            }
            i += 1;
        }
        assert(self@.plugins.take(i as int) =~= self@.plugins);
        false
    }

    /// Records an install whose commands succeeded: the plugin joins the
    /// list and the fragment gains one directive for its executable. An
    /// executable that is already configured, or a plugin of a name that is
    /// already installed, is refused, and nothing changes.
    pub fn commit_install(&mut self, plugin: &InstalledPlugin) -> (r: Result<(), CoffeeError>)
        requires
            manager_wf(old(self)@),
        ensures
            manager_wf(final(self)@),
            r is Ok <==> !old(self)@.directives.contains(plugin.exec_path@)
                && installed_index(old(self)@.plugins, plugin.name@) is None,
            r is Ok ==> final(self)@ == (ManagerView {
                plugins: old(self)@.plugins.push(plugin@),
                directives: old(self)@.directives.push(plugin.exec_path@),
                ..old(self)@
            }),
            r is Err ==> final(self)@ == old(self)@ && r->Err_0.kind == ErrorKind::Config,
    {
        if self.is_installed(&plugin.name) {
            let mut cause = "plugin `".to_owned();
            cause.append(&plugin.name);
            cause.append("` is already installed");
            return Err(CoffeeError::new(ErrorKind::Config, cause));
        }
        proof { lemma_installed_index_none(self@.plugins, plugin.name@); }
        let ghost old_fields = conf_fields(self.coffe_cln_config);
        let added = self.coffe_cln_config.add_conf("plugin", plugin.exec_path.as_str());
        match added {
            Ok(()) => {
                let ghost before = self.plugins@;
                let p = plugin.duplicate();
                self.plugins.push(p);
                assert(self.plugins@ =~= before.push(p));
                assert(installed_views(self.plugins@) =~= installed_views(before).push(plugin@));
                assert(exec_paths(installed_views(self.plugins@)) =~= exec_paths(installed_views(before)).push(plugin.exec_path@));
                assert(plugin_directives(self.coffe_cln_config) =~= exec_paths(installed_views(before)).push(plugin.exec_path@));
                let ghost olds = installed_views(before);
                assert(!exec_paths(olds).contains(plugin.exec_path@));
                assert forall|a: int, b: int| 0 <= a < self@.plugins.len() && 0 <= b < self@.plugins.len() && a != b
                    implies self@.plugins[a].exec_path != self@.plugins[b].exec_path
                        && self@.plugins[a].name != self@.plugins[b].name by {
                    if a < olds.len() && b < olds.len() {
                    } else if a < olds.len() {
                        assert(exec_paths(olds)[a] == olds[a].exec_path);
                    } else {
                        assert(exec_paths(olds)[b] == olds[b].exec_path);
                    }
                }
                Ok(())
            },
            Err(_) => {
                let mut cause = "plugin `".to_owned();
                cause.append(&plugin.exec_path);
                cause.append("` is already configured");
                Err(CoffeeError::new(ErrorKind::Config, cause))
            },
        }
    }

    /// Where the documentation of the plugin `plugin` lives, given what a
    /// scan of each repository found; nothing is installed or changed.
    pub fn show(&self, plugin: &str, found: &Vec<Option<Plugin>>) -> (r: Result<String, CoffeeError>)
        ensures
            first_found(found@, min_len(found@.len() as int, self@.remotes.len() as int)) is None ==> r is Err
                && r->Err_0.kind == ErrorKind::PluginNotFound,
            first_found(found@, min_len(found@.len() as int, self@.remotes.len() as int)) matches Some(i)
                ==> r is Ok && r->Ok_0@ == readme_path(found@[i]->Some_0),
    {
        let n: usize = if found.len() < self.repos.len() { found.len() } else { self.repos.len() };
        let mut i: usize = 0;
        while i < n
            invariant
                i <= n,
                n == min_len(found@.len() as int, self@.remotes.len() as int),
                first_found(found@, i as int) is None,
            decreases n - i,
        {
            proof { lemma_first_found_step(found@, i as int); }
            if let Some(p) = &found[i] {
                proof { lemma_first_found_stable(found@, i as int, n as int); }
                return Ok(join(&p.path, "README.md"));
            }
            i += 1;
        }
        let mut cause = "plugin `".to_owned();
        cause.append(plugin);
        cause.append("` are not present inside the repositories");
        Err(CoffeeError::new(ErrorKind::PluginNotFound, cause))
    }

    /// Removes the installed plugin `plugin` and its directive; a plugin that
    /// is not installed is refused, and nothing changes.
    pub fn remove(&mut self, plugin: &str) -> (r: Result<CoffeeRemove, CoffeeError>)
        requires
            manager_wf(old(self)@),
        ensures
            manager_wf(final(self)@),
            installed_index(old(self)@.plugins, plugin@) is None ==> r is Err
                && r->Err_0.kind == ErrorKind::PluginNotFound && final(self)@ == old(self)@,
            installed_index(old(self)@.plugins, plugin@) matches Some(k) ==> r is Ok
                && r->Ok_0.plugin@ == old(self)@.plugins[k]
                && final(self)@ == (ManagerView {
                    plugins: old(self)@.plugins.remove(k),
                    directives: old(self)@.directives.remove(k),
                    ..old(self)@
                }),
    {
        let owned = plugin.to_owned();
        let mut i: usize = 0;
        while i < self.plugins.len()
            invariant
                i <= self.plugins@.len(),
                owned@ == plugin@,
                manager_wf(self@),
                self@ == old(self)@,
                installed_index(self@.plugins.take(i as int), plugin@) is None,
            decreases self.plugins@.len() - i,
        {
            proof {
                lemma_installed_index_step(self@.plugins, plugin@, i as int);
            }
            assert(self@.plugins[i as int] == self.plugins@[i as int]@);
            if self.plugins[i].name == owned {
                proof {
                    lemma_installed_index_found(self@.plugins, plugin@, i as int, self@.plugins.len() as int);
                    assert(self@.plugins.take(self@.plugins.len() as int) =~= self@.plugins);
                }
                let ghost olds = self@.plugins;
                let ghost oldd = self@.directives;
                let ghost old_view = self@;
                let k = i;
                let ghost old_fields = conf_fields(self.coffe_cln_config);
                assert(oldd == plugin_directives(self.coffe_cln_config));
                assert(oldd[k as int] == olds[k as int].exec_path);
                let removed = self.coffe_cln_config.rm_conf("plugin", Some(self.plugins[k].exec_path.as_str()));
                assert(removed is Ok);
                proof {
                    let j = choose|j: int| 0 <= j < oldd.len() && oldd[j] == olds[k as int].exec_path
                        && (forall|m: int| 0 <= m < j ==> oldd[m] != olds[k as int].exec_path)
                        && conf_fields(self.coffe_cln_config) == old_fields.insert(
                            plugin_key(), oldd.remove(j));
                    lemma_same_exec_same_index(olds, j, k as int);
                }
                let ghost before = self.plugins@;
                let p = self.plugins.remove(k);
                assert(installed_views(self.plugins@) =~= olds.remove(k as int));
                assert(exec_paths(olds.remove(k as int)) =~= oldd.remove(k as int));
                assert(self@.directives =~= oldd.remove(k as int));
                assert forall|a: int, b: int| 0 <= a < self@.plugins.len() && 0 <= b < self@.plugins.len() && a != b
                    implies self@.plugins[a].exec_path != self@.plugins[b].exec_path by {
                    let a2 = if a < k { a } else { a + 1 };
                    let b2 = if b < k { b } else { b + 1 };
                    assert(self@.plugins[a] == olds[a2]);
                    assert(self@.plugins[b] == olds[b2]);
                }
                return Ok(CoffeeRemove { plugin: p });
            }
            i += 1;
        }
        assert(self@.plugins.take(i as int) =~= self@.plugins);
        let mut cause = "plugin `".to_owned();
        cause.append(plugin);
        cause.append("` is not installed");
        Err(CoffeeError::new(ErrorKind::PluginNotFound, cause))
    }

    /// Removes the repository `name` and, with it, every plugin installed
    /// from it and their directives; an unknown name is refused, and nothing
    /// changes.
    pub fn rm_remote(&mut self, name: &str) -> (r: Result<CoffeeRemoteRm, CoffeeError>)
        requires
            manager_wf(old(self)@),
        ensures
            manager_wf(final(self)@),
            remote_index(old(self)@.remotes, name@) is None ==> r is Err
                && r->Err_0.kind == ErrorKind::Repository && final(self)@ == old(self)@,
            remote_index(old(self)@.remotes, name@) matches Some(k) ==> r is Ok
                && r->Ok_0.repository@ == old(self)@.remotes[k]
                && installed_views(r->Ok_0.plugins@) == plugins_from(old(self)@.plugins, name@)
                && final(self)@ == (ManagerView {
                    remotes: old(self)@.remotes.remove(k),
                    plugins: plugins_not_from(old(self)@.plugins, name@),
                    directives: exec_paths(plugins_not_from(old(self)@.plugins, name@)),
                    ..old(self)@
                }),
    {
        let owned = name.to_owned();
        let ghost v0 = self@;
        let mut idx: usize = 0;
        let mut found = false;
        while !found && idx < self.repos.len()
            invariant
                idx <= self.repos@.len(),
                owned@ == name@,
                self@ == v0,
                !found ==> remote_index(v0.remotes.take(idx as int), name@) is None,
                found ==> idx < self.repos@.len() && remote_index(v0.remotes, name@) == Some(idx as int),
            decreases self.repos@.len() - idx + if found { 0int } else { 1int },
        {
            proof {
                lemma_remote_index_step(v0.remotes, name@, idx as int);
            }
            assert(self@.remotes[idx as int] == self.repos@[idx as int]@);
            if self.repos[idx].name == owned {
                proof {
                    lemma_remote_index_found(v0.remotes, name@, idx as int, v0.remotes.len() as int);
                    assert(v0.remotes.take(v0.remotes.len() as int) =~= v0.remotes);
                }
                found = true;
            } else {
                idx += 1;
            }
        }
        if !found {
            assert(v0.remotes.take(idx as int) =~= v0.remotes);
            let mut cause = "repository with name `".to_owned();
            cause.append(name);
            cause.append("` not found");
            return Err(CoffeeError::new(ErrorKind::Repository, cause));
        }
        let ghost k = idx as int;
        assert(remote_index(v0.remotes, name@) == Some(k));
        let ghost pv = v0.plugins;
        let mut kept: Vec<InstalledPlugin> = Vec::new();
        let mut gone: Vec<InstalledPlugin> = Vec::new();
        let mut i: usize = 0;
        assert(pv.take(0) =~= Seq::<InstalledView>::empty());
        assert(exec_paths(pv.subrange(0, pv.len() as int)) =~= v0.directives);
        assert(installed_views(kept@) =~= Seq::<InstalledView>::empty());
        assert(installed_views(gone@) =~= Seq::<InstalledView>::empty());
        while i < self.plugins.len()
            invariant
                i <= pv.len(),
                owned@ == name@,
                manager_wf(v0),
                idx < self.repos@.len(),
                idx == k,
                installed_views(self.plugins@) == pv,
                self@ == (ManagerView { directives: plugin_directives(self.coffe_cln_config), ..v0 }),
                installed_views(kept@) == plugins_not_from(pv.take(i as int), name@),
                installed_views(gone@) == plugins_from(pv.take(i as int), name@),
                plugin_directives(self.coffe_cln_config) == exec_paths(installed_views(kept@)) + exec_paths(pv.subrange(i as int, pv.len() as int)),
                forall|m: int| 0 <= m < kept@.len() ==> exists|j: int| 0 <= j < i && #[trigger] kept@[m]@ == pv[j],
                execs_distinct(installed_views(kept@)),
            decreases pv.len() - i,
        {
            proof { lemma_split_step(pv, name@, i as int); }
            assert(pv[i as int] == self.plugins@[i as int]@);
            let ghost kv = installed_views(kept@);
            let ghost d = plugin_directives(self.coffe_cln_config);
            if self.plugins[i].repo == owned {
                let ghost old_fields = conf_fields(self.coffe_cln_config);
                let ghost val = pv[i as int].exec_path;
                let ghost kl = kv.len() as int;
                assert(exec_paths(pv.subrange(i as int, pv.len() as int)).len() == pv.len() - i);
                assert(d.len() == kl + pv.len() - i);
                assert(d[kl] == val);
                assert forall|m: int| 0 <= m < kl implies d[m] != val by {
                    assert(d[m] == kv[m].exec_path);
                    assert(kv[m] == kept@[m]@);
                    let j = choose|j: int| 0 <= j < i && kept@[m]@ == pv[j];
                    assert(exec_paths(pv)[j] == pv[j].exec_path);
                    assert(exec_paths(pv)[i as int] == pv[i as int].exec_path);
                }
                assert(conf_fields(self.coffe_cln_config).contains_key(plugin_key()));
                assert(d.contains(val));
                let removed = self.coffe_cln_config.rm_conf("plugin", Some(self.plugins[i].exec_path.as_str()));
                assert(removed is Ok);
                proof {
                    let j = choose|j: int| 0 <= j < d.len() && d[j] == val
                        && (forall|m: int| 0 <= m < j ==> d[m] != val)
                        && conf_fields(self.coffe_cln_config) == old_fields.insert(plugin_key(), d.remove(j));
                    assert(j == kl);
                    assert(d.remove(kl) =~= exec_paths(kv) + exec_paths(pv.subrange(i as int + 1, pv.len() as int)));
                }
                let ghost before = gone@;
                let x = self.plugins[i].duplicate();
                gone.push(x);
                assert(gone@ =~= before.push(x));
                assert(installed_views(gone@) =~= installed_views(before).push(x@));
            } else {
                let ghost before = kept@;
                let x = self.plugins[i].duplicate();
                kept.push(x);
                assert(kept@ =~= before.push(x));
                assert(installed_views(kept@) =~= installed_views(before).push(x@));
                assert(exec_paths(installed_views(kept@)) + exec_paths(pv.subrange(i as int + 1, pv.len() as int))
                    =~= d);
                assert forall|m: int| 0 <= m < kept@.len() implies exists|j: int| 0 <= j < i + 1 && #[trigger] kept@[m]@ == pv[j] by {
                    if m < before.len() {
                        assert(kept@[m] == before[m]);
                    } else {
                        assert(kept@[m]@ == pv[i as int]);
                    }
                }
                assert forall|a: int, b: int| 0 <= a < kept@.len() && 0 <= b < kept@.len() && a != b
                    implies installed_views(kept@)[a].exec_path != installed_views(kept@)[b].exec_path by {
                    if a < before.len() && b < before.len() {
                        assert(kept@[a] == before[a]);
                        assert(kept@[b] == before[b]);
                        assert(installed_views(before)[a] == before[a]@);
                        assert(installed_views(before)[b] == before[b]@);
                    } else if a < before.len() {
                        assert(kept@[a] == before[a]);
                        let j = choose|j: int| 0 <= j < i && #[trigger] before[a]@ == pv[j];
                        assert(kept@[a]@ == pv[j]);
                        assert(exec_paths(pv)[j] == pv[j].exec_path);
                        assert(exec_paths(pv)[i as int] == pv[i as int].exec_path);
                    } else {
                        assert(kept@[b] == before[b]);
                        let j = choose|j: int| 0 <= j < i && #[trigger] before[b]@ == pv[j];
                        assert(kept@[b]@ == pv[j]);
                        assert(exec_paths(pv)[j] == pv[j].exec_path);
                        assert(exec_paths(pv)[i as int] == pv[i as int].exec_path);
                    }
                }
            }
            i += 1;
        }
        assert(pv.take(i as int) =~= pv);
        assert(exec_paths(pv.subrange(i as int, pv.len() as int)) =~= Seq::<Seq<char>>::empty());
        assert(plugin_directives(self.coffe_cln_config) =~= exec_paths(installed_views(kept@)));
        self.plugins = kept;
        let ghost rv = self.repos@;
        let repository = self.repos.remove(idx);
        assert(repo_views(self.repos@) =~= v0.remotes.remove(k));
        assert forall|a: int, b: int| 0 <= a < self@.remotes.len() && 0 <= b < self@.remotes.len() && a != b
            implies self@.remotes[a].name != self@.remotes[b].name by {
            let a2 = if a < k { a } else { a + 1 };
            let b2 = if b < k { b } else { b + 1 };
            assert(self@.remotes[a] == v0.remotes[a2]);
            assert(self@.remotes[b] == v0.remotes[b2]);
        }
        Ok(CoffeeRemoteRm { repository, plugins: gone })
    }

    /// The manager rebuilt from a snapshot, for the network `network` rooted
    /// at `root_path`. A snapshot that is not valid (see `loadable`) is
    /// refused.
    pub fn from_storage(network: &str, root_path: &str, store: &CoffeStorageInfo) -> (r: Result<Self, CoffeeError>)
        ensures
            r is Ok <==> loadable(store@),
            r is Ok ==> manager_wf(r->Ok_0@) && r->Ok_0@ == restored(network@, root_path@, store@),
            r is Err ==> r->Err_0.kind == ErrorKind::Storage,
    {
        let mut m = CoffeeManager::new(network, root_path);
        let ghost sv = store@;
        let mut i: usize = 0;
        assert(sv.remotes.take(0) =~= Seq::<RepoView>::empty());
        while i < store.repositories.len()
            invariant
                i <= sv.remotes.len(),
                sv == store@,
                manager_wf(m@),
                m@ == (ManagerView { remotes: sv.remotes.take(i as int), ..CoffeeManager::new_view(network@, root_path@) }),
            decreases sv.remotes.len() - i,
        {
            let repo = &store.repositories[i];
            assert(sv.remotes[i as int] == repo@);
            if m.has_remote(&repo.name) {
                let mut cause = "the snapshot holds the repository `".to_owned();
                cause.append(&repo.name);
                cause.append("` twice");
                proof {
                    let j = choose|j: int| 0 <= j < m@.remotes.len() && m@.remotes[j].name == repo.name@;
                    assert(sv.remotes[j] == m@.remotes[j]);
                }
                return Err(CoffeeError::new(ErrorKind::Storage, cause));
            }
            let ghost before = m.repos@;
            m.repos.push(repo.duplicate());
            assert(repo_views(m.repos@) =~= repo_views(before).push(repo@));
            assert(sv.remotes.take(i as int + 1) =~= sv.remotes.take(i as int).push(repo@));
            i += 1;
        }
        assert(sv.remotes.take(i as int) =~= sv.remotes);
        let mut i: usize = 0;
        assert(sv.plugins.take(0) =~= Seq::<InstalledView>::empty());
        assert(exec_paths(sv.plugins.take(0)) =~= Seq::<Seq<char>>::empty());
        while i < store.config.plugins.len()
            invariant
                i <= sv.plugins.len(),
                sv == store@,
                names_distinct(sv.remotes),
                manager_wf(m@),
                m@ == (ManagerView {
                    remotes: sv.remotes,
                    plugins: sv.plugins.take(i as int),
                    directives: exec_paths(sv.plugins.take(i as int)),
                    ..CoffeeManager::new_view(network@, root_path@)
                }),
            decreases sv.plugins.len() - i,
        {
            let p = &store.config.plugins[i];
            assert(sv.plugins[i as int] == p@);
            let committed = m.commit_install(p);
            if committed.is_err() {
                let mut cause = "the snapshot holds the plugin `".to_owned();
                cause.append(&p.name);
                cause.append("` or its executable twice");
                proof {
                    if m@.directives.contains(p.exec_path@) {
                        let j = choose|j: int| 0 <= j < m@.directives.len() && m@.directives[j] == p.exec_path@;
                        assert(m@.directives[j] == sv.plugins[j].exec_path);
                    } else {
                        lemma_installed_index_bounds(m@.plugins, p.name@);
                        let j = installed_index(m@.plugins, p.name@)->Some_0;
                        assert(m@.plugins[j] == sv.plugins[j]);
                    }
                }
                return Err(CoffeeError::new(ErrorKind::Storage, cause));
            }
            assert(sv.plugins.take(i as int + 1) =~= sv.plugins.take(i as int).push(p@));
            i += 1;
        }
        assert(sv.plugins.take(i as int) =~= sv.plugins);
        m.cln_config_path = copy_opt(&store.config.cln_config_path);
        Ok(m)
    }

    /// Where the snapshot of this manager is written.
    pub fn storage_path(&self) -> (r: String)
        ensures
            r@ == storage_path(self@.root_path),
    {
        let mut r = self.root_path.clone();
        r.append("/storage");
        r
    }

    /// Binds the manager's fragment into the node's configuration `host`,
    /// read from `cln_conf_path`, by an inclusion. The node's own directives
    /// are kept as they were read, and a configuration that already includes
    /// the fragment keeps its inclusions as they are.
    pub fn setup_with_cln(&mut self, cln_conf_path: &str, host: CLNConf) -> (r: Result<(), CoffeeError>)
        requires
            manager_wf(old(self)@),
            conf_path(host) == cln_conf_path@,
        ensures
            manager_wf(final(self)@),
            r is Ok,
            final(self)@ == (ManagerView {
                cln_config_path: Some(cln_conf_path@),
                host_includes: Some(
                    if conf_includes(host).contains(old(self)@.config_path) {
                        conf_includes(host)
                    } else {
                        conf_includes(host).push(old(self)@.config_path)
                    },
                ),
                host_fields: Some(conf_fields(host)),
                host_file: Some(cln_conf_path@),
                ..old(self)@
            }),
    {
        let mut host = host;
        let _ = host.add_subconf(self.coffe_cln_config.clone());
        self.cln_config_path = Some(cln_conf_path.to_owned());
        self.cln_config = Some(host);
        Ok(())
    }

    /// The repositories that upgrading `repo` fetches again: all of them for
    /// an empty name, else the one of that name; an unknown name is refused.
    pub fn upgrade(&self, repo: &str) -> (r: Result<Vec<RepositoryInfo>, CoffeeError>)
        ensures
            repo@.len() == 0 ==> r is Ok && repo_views(r->Ok_0@) == self@.remotes,
            repo@.len() != 0 ==> (r is Ok <==> remote_registered(self@.remotes, repo@)),
            repo@.len() != 0 && r is Ok ==> repo_views(r->Ok_0@) == seq![self@.remotes[remote_index(self@.remotes, repo@)->Some_0]],
            r is Err ==> r->Err_0.kind == ErrorKind::Repository,
    {
        if repo.is_empty() {
            return Ok(copy_repos(&self.repos));
        }
        let owned = repo.to_owned();
        let mut i: usize = 0;
        while i < self.repos.len()
            invariant
                i <= self.repos@.len(),
                owned@ == repo@,
                repo@.len() != 0,
                remote_index(self@.remotes.take(i as int), repo@) is None,
            decreases self.repos@.len() - i,
        {
            proof { lemma_remote_index_step(self@.remotes, repo@, i as int); }
            assert(self@.remotes[i as int] == self.repos@[i as int]@);
            if self.repos[i].name == owned {
                proof {
                    lemma_remote_index_found(self@.remotes, repo@, i as int, self@.remotes.len() as int);
                    assert(self@.remotes.take(self@.remotes.len() as int) =~= self@.remotes);
                    lemma_remote_index_registered(self@.remotes, repo@);
                }
                let mut r: Vec<RepositoryInfo> = Vec::new();
                r.push(self.repos[i].duplicate());
                assert(repo_views(r@) =~= seq![self@.remotes[i as int]]);
                return Ok(r);
            }
            i += 1;
        }
        proof {
            assert(self@.remotes.take(i as int) =~= self@.remotes);
            lemma_remote_index_registered(self@.remotes, repo@);
        }
        let mut cause = "repository with name `".to_owned();
        cause.append(repo);
        cause.append("` not found");
        Err(CoffeeError::new(ErrorKind::Repository, cause))
    }

    /// Takes away every plugin installed from one of the repositories named
    /// in `repos`, with its directive.
    fn drop_plugins_of(&mut self, repos: &Vec<String>)
        requires
            manager_wf(old(self)@),
        ensures
            manager_wf(final(self)@),
            final(self)@ == (ManagerView {
                plugins: plugins_not_in(old(self)@.plugins, string_views(repos@)),
                directives: exec_paths(plugins_not_in(old(self)@.plugins, string_views(repos@))),
                ..old(self)@
            }),
    {
        let ghost v0 = self@;
        let mut i: usize = 0;
        let ghost pv = v0.plugins;
        let ghost dn = string_views(repos@);
        let mut kept: Vec<InstalledPlugin> = Vec::new();
        assert(pv.take(0) =~= Seq::<InstalledView>::empty());
        assert(exec_paths(pv.subrange(0, pv.len() as int)) =~= v0.directives);
        assert(installed_views(kept@) =~= Seq::<InstalledView>::empty());
        while i < self.plugins.len()
            invariant
                i <= pv.len(),
                dn == string_views(repos@),
                manager_wf(v0),
                installed_views(self.plugins@) == pv,
                self@ == (ManagerView { directives: plugin_directives(self.coffe_cln_config), ..v0 }),
                installed_views(kept@) == plugins_not_in(pv.take(i as int), dn),
                plugin_directives(self.coffe_cln_config) == exec_paths(installed_views(kept@)) + exec_paths(pv.subrange(i as int, pv.len() as int)),
                forall|m: int| 0 <= m < kept@.len() ==> exists|j: int| 0 <= j < i && #[trigger] kept@[m]@ == pv[j],
                execs_distinct(installed_views(kept@)),
            decreases pv.len() - i,
        {
            proof { lemma_drop_step(pv, dn, i as int); }
            assert(pv[i as int] == self.plugins@[i as int]@);
            let ghost kv = installed_views(kept@);
            let ghost d = plugin_directives(self.coffe_cln_config);
            if contains_name(repos, &self.plugins[i].repo) {
                let ghost old_fields = conf_fields(self.coffe_cln_config);
                let ghost val = pv[i as int].exec_path;
                let ghost kl = kv.len() as int;
                assert(exec_paths(pv.subrange(i as int, pv.len() as int)).len() == pv.len() - i);
                assert(d.len() == kl + pv.len() - i);
                assert(d[kl] == val);
                assert forall|m: int| 0 <= m < kl implies d[m] != val by {
                    assert(d[m] == kv[m].exec_path);
                    assert(kv[m] == kept@[m]@);
                    let j = choose|j: int| 0 <= j < i && kept@[m]@ == pv[j];
                    assert(exec_paths(pv)[j] == pv[j].exec_path);
                    assert(exec_paths(pv)[i as int] == pv[i as int].exec_path);
                }
                assert(conf_fields(self.coffe_cln_config).contains_key(plugin_key()));
                assert(d.contains(val));
                let removed = self.coffe_cln_config.rm_conf("plugin", Some(self.plugins[i].exec_path.as_str()));
                assert(removed is Ok);
                proof {
                    let j = choose|j: int| 0 <= j < d.len() && d[j] == val
                        && (forall|m: int| 0 <= m < j ==> d[m] != val)
                        && conf_fields(self.coffe_cln_config) == old_fields.insert(plugin_key(), d.remove(j));
                    assert(j == kl);
                    assert(d.remove(kl) =~= exec_paths(kv) + exec_paths(pv.subrange(i as int + 1, pv.len() as int)));
                }
            } else {
                let ghost before = kept@;
                let x = self.plugins[i].duplicate();
                kept.push(x);
                assert(kept@ =~= before.push(x));
                assert(installed_views(kept@) =~= installed_views(before).push(x@));
                assert(exec_paths(installed_views(kept@)) + exec_paths(pv.subrange(i as int + 1, pv.len() as int))
                    =~= d);
                assert forall|m: int| 0 <= m < kept@.len() implies exists|j: int| 0 <= j < i + 1 && #[trigger] kept@[m]@ == pv[j] by {
                    if m < before.len() {
                        assert(kept@[m] == before[m]);
                    } else {
                        assert(kept@[m]@ == pv[i as int]);
                    }
                }
                assert forall|a: int, b: int| 0 <= a < kept@.len() && 0 <= b < kept@.len() && a != b
                    implies installed_views(kept@)[a].exec_path != installed_views(kept@)[b].exec_path by {
                    if a < before.len() && b < before.len() {
                        assert(kept@[a] == before[a]);
                        assert(kept@[b] == before[b]);
                        assert(installed_views(before)[a] == before[a]@);
                        assert(installed_views(before)[b] == before[b]@);
                    } else if a < before.len() {
                        assert(kept@[a] == before[a]);
                        let j = choose|j: int| 0 <= j < i && #[trigger] before[a]@ == pv[j];
                        assert(kept@[a]@ == pv[j]);
                        assert(exec_paths(pv)[j] == pv[j].exec_path);
                        assert(exec_paths(pv)[i as int] == pv[i as int].exec_path);
                    } else {
                        assert(kept@[b] == before[b]);
                        let j = choose|j: int| 0 <= j < i && #[trigger] before[b]@ == pv[j];
                        assert(kept@[b]@ == pv[j]);
                        assert(exec_paths(pv)[j] == pv[j].exec_path);
                        assert(exec_paths(pv)[i as int] == pv[i as int].exec_path);
                    }
                }
            }
            i += 1;
        }
        assert(pv.take(i as int) =~= pv);
        assert(exec_paths(pv.subrange(i as int, pv.len() as int)) =~= Seq::<Seq<char>>::empty());
        assert(plugin_directives(self.coffe_cln_config) =~= exec_paths(installed_views(kept@)));
        self.plugins = kept;
    }

    /// Drops the repositories named in `missing`, whose checkouts are gone,
    /// with every plugin installed from them and their directives; the rest
    /// keep their order. Returns the local names that were dropped, in order
    /// of registration.
    pub fn nurse(&mut self, missing: &Vec<String>) -> (r: Vec<String>)
        requires
            manager_wf(old(self)@),
        ensures
            manager_wf(final(self)@),
            string_views(r@) == dropped_names(old(self)@.remotes, string_views(missing@)),
            final(self)@ == (ManagerView {
                remotes: remotes_kept(old(self)@.remotes, string_views(missing@)),
                plugins: plugins_not_in(old(self)@.plugins, dropped_names(old(self)@.remotes, string_views(missing@))),
                directives: exec_paths(
                    plugins_not_in(old(self)@.plugins, dropped_names(old(self)@.remotes, string_views(missing@))),
                ),
                ..old(self)@
            }),
    {
        let ghost v0 = self@;
        let ghost rv = v0.remotes;
        let ghost mn = string_views(missing@);
        let mut kept: Vec<RepositoryInfo> = Vec::new();
        let mut dropped: Vec<String> = Vec::new();
        let mut i: usize = 0;
        assert(rv.take(0) =~= Seq::<RepoView>::empty());
        assert(repo_views(kept@) =~= Seq::<RepoView>::empty());
        assert(string_views(dropped@) =~= Seq::<Seq<char>>::empty());
        while i < self.repos.len()
            invariant
                i <= rv.len(),
                mn == string_views(missing@),
                manager_wf(v0),
                self@ == v0,
                rv == v0.remotes,
                repo_views(kept@) == remotes_kept(rv.take(i as int), mn),
                string_views(dropped@) == dropped_names(rv.take(i as int), mn),
                forall|m: int| 0 <= m < kept@.len() ==> exists|j: int| 0 <= j < i && #[trigger] kept@[m]@ == rv[j],
                names_distinct(repo_views(kept@)),
            decreases rv.len() - i,
        {
            assert(rv.take(i as int + 1).drop_last() =~= rv.take(i as int));
            assert(rv[i as int] == self.repos@[i as int]@);
            if contains_name(missing, &self.repos[i].name) {
                let ghost before = dropped@;
                let n = self.repos[i].name.clone();
                dropped.push(n);
                assert(dropped@ =~= before.push(n));
                assert(string_views(dropped@) =~= string_views(before).push(n@));
            } else {
                let ghost before = kept@;
                let x = self.repos[i].duplicate();
                kept.push(x);
                assert(kept@ =~= before.push(x));
                assert(repo_views(kept@) =~= repo_views(before).push(x@));
                assert forall|m: int| 0 <= m < kept@.len() implies exists|j: int| 0 <= j < i + 1 && #[trigger] kept@[m]@ == rv[j] by {
                    if m < before.len() {
                        assert(kept@[m] == before[m]);
                    } else {
                        assert(kept@[m]@ == rv[i as int]);
                    }
                }
                assert forall|a: int, b: int| 0 <= a < kept@.len() && 0 <= b < kept@.len() && a != b
                    implies repo_views(kept@)[a].name != repo_views(kept@)[b].name by {
                    if a < before.len() && b < before.len() {
                        assert(kept@[a] == before[a]);
                        assert(kept@[b] == before[b]);
                        assert(repo_views(before)[a] == before[a]@);
                        assert(repo_views(before)[b] == before[b]@);
                    } else if a < before.len() {
                        assert(kept@[a] == before[a]);
                        let j = choose|j: int| 0 <= j < i && #[trigger] before[a]@ == rv[j];
                        assert(kept@[a]@ == rv[j]);
                    } else {
                        assert(kept@[b] == before[b]);
                        let j = choose|j: int| 0 <= j < i && #[trigger] before[b]@ == rv[j];
                        assert(kept@[b]@ == rv[j]);
                    }
                }
            }
            i += 1;
        }
        assert(rv.take(i as int) =~= rv);
        self.drop_plugins_of(&dropped);
        self.repos = kept;
        dropped
    }

    /// Whether a plugin other than the one named `name` has the executable `exec`.
    fn exec_taken(&self, name: &String, exec: &String) -> (r: bool)
        ensures
            r == exists|j: int| 0 <= j < self@.plugins.len() && self@.plugins[j].exec_path == exec@
                && self@.plugins[j].name != name@,
    {
        let mut i: usize = 0;
        while i < self.plugins.len()
            invariant
                i <= self.plugins@.len(),
                forall|j: int| 0 <= j < i ==> !(self@.plugins[j].exec_path == exec@ && self@.plugins[j].name != name@),
            decreases self.plugins@.len() - i,
        {
            assert(self@.plugins[i as int] == self.plugins@[i as int]@);
            if self.plugins[i].exec_path == *exec && !(self.plugins[i].name == *name) {
                return true;
            }
            i += 1;
        }
        false
    }

    /// Points the installed plugin `name` at the executable that `plugin`,
    /// found again after its repository was upgraded, resolves to. The
    /// record moves to the end of the list with its new directive. A plugin
    /// that is not installed, that no longer resolves, or whose executable
    /// another plugin has, is refused, and nothing changes.
    pub fn refresh_plugin(&mut self, name: &str, plugin: &Plugin) -> (r: Result<(), CoffeeError>)
        requires
            manager_wf(old(self)@),
        ensures
            manager_wf(final(self)@),
            installed_index(old(self)@.plugins, name@) is None ==> r is Err
                && r->Err_0.kind == ErrorKind::PluginNotFound && final(self)@ == old(self)@,
            installed_index(old(self)@.plugins, name@) is Some && resolved_executable(*plugin) is None ==> r is Err
                && r->Err_0.kind == ErrorKind::UnsupportedLanguage && final(self)@ == old(self)@,
            installed_index(old(self)@.plugins, name@) is Some && resolved_executable(*plugin) is Some ==> {
                let k = installed_index(old(self)@.plugins, name@)->Some_0;
                let e = resolved_executable(*plugin)->Some_0;
                let rest = old(self)@.plugins.remove(k);
                let moved = InstalledView { name: name@, repo: old(self)@.plugins[k].repo, exec_path: e };
                &&& (r is Ok <==> !exec_paths(rest).contains(e))
                &&& (r is Ok ==> final(self)@ == (ManagerView {
                    plugins: rest.push(moved),
                    directives: exec_paths(rest.push(moved)),
                    ..old(self)@
                }))
                &&& (r is Err ==> r->Err_0.kind == ErrorKind::Config && final(self)@ == old(self)@)
            },
    {
        let owned = name.to_owned();
        if !self.is_installed(name) {
            let mut cause = "plugin `".to_owned();
            cause.append(name);
            cause.append("` is not installed");
            return Err(CoffeeError::new(ErrorKind::PluginNotFound, cause));
        }
        let exec = plugin.get_executable()?;
        let ghost v0 = self@;
        let ghost k = installed_index(v0.plugins, name@)->Some_0;
        proof { lemma_installed_index_bounds(v0.plugins, name@); }
        if self.exec_taken(&owned, &exec) {
            proof {
                let j = choose|j: int| 0 <= j < v0.plugins.len() && v0.plugins[j].exec_path == exec@
                    && v0.plugins[j].name != name@;
                let j2 = if j < k { j } else { j - 1 };
                assert(v0.plugins.remove(k)[j2] == v0.plugins[j]);
                assert(exec_paths(v0.plugins.remove(k))[j2] == exec@);
            }
            let mut cause = "executable `".to_owned();
            cause.append(&exec);
            cause.append("` belongs to another plugin");
            return Err(CoffeeError::new(ErrorKind::Config, cause));
        }
        let removed = self.remove(name);
        let old_record = match removed {
            Ok(rm) => rm.plugin,
            Err(e) => return Err(e),
        };
        let ghost v1 = self@;
        proof {
            assert forall|j: int| 0 <= j < v1.plugins.len() implies v1.plugins[j].name != name@ by {
                let j2 = if j < k { j } else { j + 1 };
                assert(v1.plugins[j] == v0.plugins[j2]);
            }
            lemma_installed_index_none(v1.plugins, name@);
            if v1.directives.contains(exec@) {
                let j = choose|j: int| 0 <= j < v1.directives.len() && v1.directives[j] == exec@;
                assert(v1.directives == exec_paths(v1.plugins));
                let j2 = if j < k { j } else { j + 1 };
                assert(v1.plugins[j] == v0.plugins[j2]);
                assert(v0.plugins[j2].name != name@);
            }
        }
        let record = InstalledPlugin { name: owned, repo: old_record.repo, exec_path: exec };
        let committed = self.commit_install(&record);
        proof {
            assert(!exec_paths(v0.plugins.remove(k)).contains(exec@)) by {
                if exec_paths(v0.plugins.remove(k)).contains(exec@) {
                    let j = choose|j: int| 0 <= j < exec_paths(v0.plugins.remove(k)).len()
                        && exec_paths(v0.plugins.remove(k))[j] == exec@;
                    let j2 = if j < k { j } else { j + 1 };
                    assert(v0.plugins.remove(k)[j] == v0.plugins[j2]);
                    assert(v0.plugins[j2].name != name@);
                }
            }
        }
        committed
    }
}

} // verus!
