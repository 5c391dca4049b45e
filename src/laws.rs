//! Properties of the manager that relate several operations.
use crate::manager::{
    lemma_installed_index_bounds, lemma_remote_index_registered,
    count_named, exec_paths, execs_distinct, fragment_path, installed_index, loadable, manager_wf,
    names_distinct, plugins_from, plugins_not_from, remote_index, remote_registered, restored,
    snapshot_of, storage_path, InstalledView, ManagerView,
};
use crate::repository::{checkout_path, Kind, RepoView};
use vstd::prelude::*;

verus! {

proof fn lemma_count_zero(s: Seq<RepoView>, name: Seq<char>)
    requires
        !remote_registered(s, name),
    ensures
        count_named(s, name) == 0,
    decreases s.len(),
{
    if s.len() > 0 {
        assert forall|i: int| 0 <= i < s.drop_last().len() implies s.drop_last()[i].name != name by {
            assert(s.drop_last()[i] == s[i]);
        }
        lemma_count_zero(s.drop_last(), name);
        assert(s.last() == s[s.len() - 1]);
    }
}

/// Registering a local name that is not yet registered leaves exactly one
/// repository of that name, keeps the names unique, and makes that name
/// registered, so that registering it again is refused.
pub proof fn lemma_add_remote_then_list(v: ManagerView, name: Seq<char>, url: Seq<char>)
    requires
        manager_wf(v),
        !remote_registered(v.remotes, name),
    ensures
        ({
            let after = v.remotes.push(
                RepoView { kind: Kind::Git, name, url, root_path: checkout_path(v.root_path, name) },
            );
            &&& count_named(after, name) == 1
            &&& names_distinct(after)
            &&& remote_registered(after, name)
        }),
{
    let after = v.remotes.push(RepoView { kind: Kind::Git, name, url, root_path: checkout_path(v.root_path, name) });
    lemma_count_zero(v.remotes, name);
    assert(after.drop_last() =~= v.remotes);
    assert(after[after.len() - 1].name == name);
    assert forall|i: int, j: int| 0 <= i < after.len() && 0 <= j < after.len() && i != j
        implies after[i].name != after[j].name by {
        if i < v.remotes.len() && j < v.remotes.len() {
        } else if i < v.remotes.len() {
            assert(after[i] == v.remotes[i]);
        } else {
            assert(after[j] == v.remotes[j]);
        }
    }
}

/// The snapshot of a consistent state can be loaded, and loading it gives
/// back the same repositories, plugins, directives and node configuration
/// path.
pub proof fn lemma_snapshot_round_trip(v: ManagerView)
    requires
        manager_wf(v),
    ensures
        loadable(snapshot_of(v)),
        restored(v.network, v.root_path, snapshot_of(v)).remotes == v.remotes,
        restored(v.network, v.root_path, snapshot_of(v)).plugins == v.plugins,
        restored(v.network, v.root_path, snapshot_of(v)).directives == v.directives,
        restored(v.network, v.root_path, snapshot_of(v)).cln_config_path == v.cln_config_path,
{
}

proof fn lemma_split_members(s: Seq<InstalledView>, repo: Seq<char>)
    ensures
        forall|i: int| 0 <= i < plugins_not_from(s, repo).len() ==> {
            &&& plugins_not_from(s, repo)[i].repo != repo
            &&& exists|j: int| 0 <= j < s.len() && s[j] == #[trigger] plugins_not_from(s, repo)[i]
        },
        forall|i: int| 0 <= i < plugins_from(s, repo).len() ==> {
            &&& plugins_from(s, repo)[i].repo == repo
            &&& exists|j: int| 0 <= j < s.len() && s[j] == #[trigger] plugins_from(s, repo)[i]
        },
    decreases s.len(),
{
    if s.len() > 0 {
        let t = s.drop_last();
        lemma_split_members(t, repo);
        assert forall|i: int| 0 <= i < plugins_not_from(s, repo).len() implies {
            &&& plugins_not_from(s, repo)[i].repo != repo
            &&& exists|j: int| 0 <= j < s.len() && s[j] == #[trigger] plugins_not_from(s, repo)[i]
        } by {
            if i < plugins_not_from(t, repo).len() {
                let j = choose|j: int| 0 <= j < t.len() && t[j] == #[trigger] plugins_not_from(t, repo)[i];
                assert(s[j] == t[j]);
            } else {
                assert(s[s.len() - 1] == plugins_not_from(s, repo)[i]);
            }
        }
        assert forall|i: int| 0 <= i < plugins_from(s, repo).len() implies {
            &&& plugins_from(s, repo)[i].repo == repo
            &&& exists|j: int| 0 <= j < s.len() && s[j] == #[trigger] plugins_from(s, repo)[i]
        } by {
            if i < plugins_from(t, repo).len() {
                let j = choose|j: int| 0 <= j < t.len() && t[j] == #[trigger] plugins_from(t, repo)[i];
                assert(s[j] == t[j]);
            } else {
                assert(s[s.len() - 1] == plugins_from(s, repo)[i]);
            }
        }
    }
}

/// Removing a repository leaves no plugin that came from it, no directive
/// for the executable of any plugin that came from it, and the name no
/// longer registered.
pub proof fn lemma_rm_remote_cascade(v: ManagerView, name: Seq<char>, k: int)
    requires
        manager_wf(v),
        remote_index(v.remotes, name) == Some(k),
    ensures
        forall|i: int| 0 <= i < plugins_not_from(v.plugins, name).len()
            ==> #[trigger] plugins_not_from(v.plugins, name)[i].repo != name,
        forall|i: int| 0 <= i < plugins_from(v.plugins, name).len()
            ==> !exec_paths(plugins_not_from(v.plugins, name)).contains(#[trigger] plugins_from(v.plugins, name)[i].exec_path),
        !remote_registered(v.remotes.remove(k), name),
{
    lemma_split_members(v.plugins, name);
    let kept = plugins_not_from(v.plugins, name);
    let gone = plugins_from(v.plugins, name);
    assert forall|i: int| 0 <= i < gone.len() implies !exec_paths(kept).contains(#[trigger] gone[i].exec_path) by {
        if exec_paths(kept).contains(gone[i].exec_path) {
            let m = choose|m: int| 0 <= m < exec_paths(kept).len() && exec_paths(kept)[m] == gone[i].exec_path;
            let a = choose|j: int| 0 <= j < v.plugins.len() && v.plugins[j] == #[trigger] kept[m];
            let b = choose|j: int| 0 <= j < v.plugins.len() && v.plugins[j] == #[trigger] gone[i];
            assert(exec_paths(v.plugins)[a] == v.plugins[a].exec_path);
            assert(exec_paths(v.plugins)[b] == v.plugins[b].exec_path);
            assert(a == b);
        }
    }
    lemma_remote_index_registered(v.remotes, name);
    if remote_registered(v.remotes.remove(k), name) {
        let i = choose|i: int| 0 <= i < v.remotes.remove(k).len() && v.remotes.remove(k)[i].name == name;
        let i2 = if i < k { i } else { i + 1 };
        assert(v.remotes.remove(k)[i] == v.remotes[i2]);
    }
}

/// Removing an installed plugin takes it out of the list: no remaining
/// plugin has its name.
pub proof fn lemma_remove_takes_out(v: ManagerView, name: Seq<char>, k: int)
    requires
        manager_wf(v),
        installed_index(v.plugins, name) == Some(k),
    ensures
        forall|i: int| 0 <= i < v.plugins.remove(k).len() ==> #[trigger] v.plugins.remove(k)[i].name != name,
{
    lemma_installed_index_bounds(v.plugins, name);
    assert forall|i: int| 0 <= i < v.plugins.remove(k).len() implies #[trigger] v.plugins.remove(k)[i].name != name by {
        let i2 = if i < k { i } else { i + 1 };
        assert(v.plugins.remove(k)[i] == v.plugins[i2]);
    }
}

/// Removing an installed plugin takes away its directive: what remains is
/// one directive for each remaining plugin, and none for its executable.
pub proof fn lemma_remove_drops_directive(v: ManagerView, name: Seq<char>, k: int)
    requires
        manager_wf(v),
        installed_index(v.plugins, name) == Some(k),
    ensures
        v.directives.remove(k) == exec_paths(v.plugins.remove(k)),
        !v.directives.remove(k).contains(v.plugins[k].exec_path),
{
    lemma_installed_index_bounds(v.plugins, name);
    assert(v.directives.remove(k) =~= exec_paths(v.plugins.remove(k)));
    if v.directives.remove(k).contains(v.plugins[k].exec_path) {
        let i = choose|i: int| 0 <= i < v.directives.remove(k).len() && v.directives.remove(k)[i] == v.plugins[k].exec_path;
        let i2 = if i < k { i } else { i + 1 };
        assert(v.directives.remove(k)[i] == v.directives[i2]);
        assert(v.directives[i2] == v.plugins[i2].exec_path);
    }
}

proof fn lemma_same_suffix(a: Seq<char>, b: Seq<char>, t: Seq<char>)
    requires
        a + t == b + t,
    ensures
        a == b,
{
    assert((a + t).len() == (b + t).len());
    assert(a =~= (a + t).subrange(0, a.len() as int));
    assert(b =~= (b + t).subrange(0, b.len() as int));
}

/// Two network contexts with distinct roots share no file: their snapshots,
/// their fragments and the checkouts of their repositories all lie apart.
pub proof fn lemma_contexts_disjoint(root_a: Seq<char>, root_b: Seq<char>, name: Seq<char>)
    requires
        root_a != root_b,
    ensures
        storage_path(root_a) != storage_path(root_b),
        fragment_path(root_a) != fragment_path(root_b),
        checkout_path(root_a, name) != checkout_path(root_b, name),
{
    if storage_path(root_a) == storage_path(root_b) {
        lemma_same_suffix(root_a, root_b, "/storage"@);
    }
    if fragment_path(root_a) == fragment_path(root_b) {
        lemma_same_suffix(root_a, root_b, "/coffee.conf"@);
    }
    if checkout_path(root_a, name) == checkout_path(root_b, name) {
        assert(checkout_path(root_a, name) =~= root_a + ("/repositories/"@ + name));
        assert(checkout_path(root_b, name) =~= root_b + ("/repositories/"@ + name));
        lemma_same_suffix(root_a, root_b, "/repositories/"@ + name);
    }
}

} // verus!
