use clightningrpc_conf::CLNConf;
use coffee::error::ErrorKind;
use coffee::manager::{CoffeeManager, InstalledPlugin};
use coffee::plugin::{Plugin, PluginLang};

const REPO_NAME: &str = "lightningd";
const REPO_URL: &str = "https://github.com/lightningd/plugins.git";

fn scanned(name: &str) -> Plugin {
    let root = format!("/tmp/coffee/regtest/repositories/{REPO_NAME}");
    Plugin::new(name, &root, &format!("{root}/{name}"), PluginLang::PyPip, None)
}

fn directives(m: &CoffeeManager) -> Vec<String> {
    m.coffee_cln_config().fields.get("plugin").cloned().unwrap_or_default()
}

fn install(m: &mut CoffeeManager, name: &str) -> Result<(), coffee::error::CoffeeError> {
    let found = vec![Some(scanned(name))];
    let step = m.install(name, &found)?;
    m.commit_install(&step.plugin)
}

fn names(m: &CoffeeManager) -> Vec<String> {
    m.list().plugins.iter().map(|p| p.name.clone()).collect()
}

#[test]
fn init_coffee_test() {
    let m = CoffeeManager::new("regtest", "/tmp/coffee/regtest");
    assert!(m.list().plugins.is_empty());
    assert!(m.list_remotes().remotes.is_empty());
    assert_eq!(m.coffee_cln_config().path, "/tmp/coffee/regtest/coffee.conf");
    assert_eq!(m.storage_path(), "/tmp/coffee/regtest/storage");
}

#[test]
fn add_remote_then_list_remotes() {
    let mut m = CoffeeManager::new("regtest", "/tmp/coffee/regtest");
    let planned = m.remote_for(REPO_NAME, REPO_URL).unwrap();
    assert_eq!(planned.root_path, "/tmp/coffee/regtest/repositories/lightningd");
    m.add_remote(REPO_NAME, REPO_URL).unwrap();
    let remotes = m.list_remotes().remotes;
    assert_eq!(remotes.len(), 1);
    assert_eq!(remotes.iter().filter(|r| r.name == REPO_NAME).count(), 1);
    assert_eq!(remotes[0].url, REPO_URL);

    let err = m.add_remote(REPO_NAME, "https://example.com/other.git").unwrap_err();
    assert_eq!(err.kind, ErrorKind::Repository);
    assert_eq!(m.remote_for(REPO_NAME, REPO_URL).unwrap_err().kind, ErrorKind::Repository);
    let remotes = m.list_remotes().remotes;
    assert_eq!(remotes.len(), 1);
    assert_eq!(remotes[0].url, REPO_URL);
}

#[test]
fn install_missing_plugin_changes_nothing() {
    let mut m = CoffeeManager::new("regtest", "/tmp/coffee/regtest");
    m.add_remote(REPO_NAME, REPO_URL).unwrap();
    let before = m.storage_info();
    let before_conf = format!("{}", m.coffee_cln_config());
    let err = m.install("missing", &vec![None]).unwrap_err();
    assert_eq!(err.kind, ErrorKind::PluginNotFound);
    let after = m.storage_info();
    assert_eq!(after.repositories.len(), before.repositories.len());
    assert_eq!(after.config.plugins.len(), before.config.plugins.len());
    assert_eq!(format!("{}", m.coffee_cln_config()), before_conf);
    assert!(m.list().plugins.is_empty());
}

#[test]
fn install_without_repositories_is_not_found() {
    let m = CoffeeManager::new("regtest", "/tmp/coffee/regtest");
    let err = m.install("summary", &vec![Some(scanned("summary"))]).unwrap_err();
    assert_eq!(err.kind, ErrorKind::PluginNotFound);
}

#[test]
fn install_adds_one_directive() {
    let mut m = CoffeeManager::new("regtest", "/tmp/coffee/regtest");
    m.add_remote(REPO_NAME, REPO_URL).unwrap();
    let step = m.install("summary", &vec![Some(scanned("summary"))]).unwrap();
    assert_eq!(step.plugin.repo, REPO_NAME);
    assert_eq!(step.plan.script.as_deref(), Some("pip3 install -r requirements.txt"));
    let exec = "/tmp/coffee/regtest/repositories/lightningd/summary/summary.py";
    assert_eq!(step.plugin.exec_path, exec);
    assert!(directives(&m).is_empty());
    m.commit_install(&step.plugin).unwrap();
    assert_eq!(names(&m), vec!["summary".to_string()]);
    assert_eq!(directives(&m), vec![exec.to_string()]);

    let err = m.commit_install(&step.plugin).unwrap_err();
    assert_eq!(err.kind, ErrorKind::Config);
    assert_eq!(directives(&m).len(), 1);
    assert_eq!(m.list().plugins.len(), 1);
}

#[test]
fn install_picks_first_repository() {
    let mut m = CoffeeManager::new("regtest", "/r");
    m.add_remote("a", "https://a").unwrap();
    m.add_remote("b", "https://b").unwrap();
    let in_b = Plugin::new("p", "/r/repositories/b", "/r/repositories/b/p", PluginLang::PyPip, None);
    let in_a = Plugin::new("p", "/r/repositories/a", "/r/repositories/a/p", PluginLang::PyPip, None);
    let step = m.install("p", &vec![None, Some(in_b.clone())]).unwrap();
    assert_eq!(step.plugin.repo, "b");
    let step = m.install("p", &vec![Some(in_a), Some(in_b)]).unwrap();
    assert_eq!(step.plugin.repo, "a");
    assert_eq!(step.plugin.exec_path, "/r/repositories/a/p/p.py");
}

#[test]
fn install_of_unsupported_language_fails() {
    let mut m = CoffeeManager::new("regtest", "/r");
    m.add_remote("a", "https://a").unwrap();
    let go = Plugin::new("g", "/r/repositories/a", "/r/repositories/a/g", PluginLang::Go, None);
    let err = m.install("g", &vec![Some(go)]).unwrap_err();
    assert_eq!(err.kind, ErrorKind::UnsupportedLanguage);
    assert!(m.list().plugins.is_empty());
}

#[test]
fn test_add_remove_plugins() {
    let mut m = CoffeeManager::new("regtest", "/tmp/coffee/regtest");
    m.add_remote(REPO_NAME, REPO_URL).unwrap();
    install(&mut m, "summary").unwrap();
    install(&mut m, "helpme").unwrap();

    let remotes = m.list_remotes().remotes;
    assert_eq!(remotes.len(), 1, "Unexpected number of remote repositories");
    assert!(remotes.iter().any(|r| r.name == REPO_NAME));

    let plugins = m.list().plugins;
    assert_eq!(plugins.len(), 2);
    assert!(plugins.iter().any(|p| p.name == "summary"));
    assert!(plugins.iter().any(|p| p.name == "helpme"));

    let removed = m.remove("summary").unwrap();
    assert_eq!(removed.plugin.name, "summary");
    let plugins = m.list().plugins;
    assert_eq!(plugins.len(), 1);
    assert!(plugins.iter().any(|p| p.name == "helpme"));
    assert_eq!(
        directives(&m),
        vec!["/tmp/coffee/regtest/repositories/lightningd/helpme/helpme.py".to_string()]
    );

    let rm = m.rm_remote(REPO_NAME).unwrap();
    assert_eq!(rm.repository.name, REPO_NAME);
    assert_eq!(rm.plugins.len(), 1);
    assert_eq!(rm.plugins[0].name, "helpme");
    assert_eq!(m.list_remotes().remotes.len(), 0);
    assert_eq!(m.list().plugins.len(), 0);
    assert!(directives(&m).is_empty());
}

#[test]
fn remove_not_installed_plugin_fails() {
    let mut m = CoffeeManager::new("regtest", "/r");
    m.add_remote("a", "https://a").unwrap();
    let err = m.remove("summary").unwrap_err();
    assert_eq!(err.kind, ErrorKind::PluginNotFound);
    assert_eq!(err.code(), 2);
}

#[test]
fn rm_remote_keeps_other_repositories() {
    let mut m = CoffeeManager::new("regtest", "/r");
    m.add_remote("a", "https://a").unwrap();
    m.add_remote("b", "https://b").unwrap();
    let pa = Plugin::new("x", "/r/repositories/a", "/r/repositories/a/x", PluginLang::PyPip, None);
    let pb = Plugin::new("y", "/r/repositories/b", "/r/repositories/b/y", PluginLang::PyPip, None);
    let s = m.install("x", &vec![Some(pa), None]).unwrap();
    m.commit_install(&s.plugin).unwrap();
    let s = m.install("y", &vec![None, Some(pb)]).unwrap();
    m.commit_install(&s.plugin).unwrap();
    assert_eq!(directives(&m).len(), 2);

    let rm = m.rm_remote("a").unwrap();
    assert_eq!(rm.plugins.len(), 1);
    assert_eq!(rm.plugins[0].name, "x");
    assert_eq!(names(&m), vec!["y".to_string()]);
    assert_eq!(directives(&m), vec!["/r/repositories/b/y/y.py".to_string()]);
    let remotes = m.list_remotes().remotes;
    assert_eq!(remotes.len(), 1);
    assert_eq!(remotes[0].name, "b");

    let err = m.rm_remote("a").unwrap_err();
    assert_eq!(err.kind, ErrorKind::Repository);
}

#[test]
fn install_plugin_in_two_networks() {
    let mut regtest = CoffeeManager::new("regtest", "/tmp/coffee/regtest");
    let testnet = CoffeeManager::new("testnet", "/tmp/coffee/testnet");
    regtest.add_remote(REPO_NAME, REPO_URL).unwrap();
    install(&mut regtest, "summary").unwrap();
    assert_eq!(regtest.list().plugins.len(), 1);
    assert!(testnet.list().plugins.is_empty());
    assert!(testnet.list_remotes().remotes.is_empty());
    assert_ne!(regtest.storage_path(), testnet.storage_path());
    assert_ne!(regtest.coffee_cln_config().path, testnet.coffee_cln_config().path);
}

#[test]
fn storage_round_trip() {
    let mut m = CoffeeManager::new("regtest", "/tmp/coffee/regtest");
    m.add_remote(REPO_NAME, REPO_URL).unwrap();
    install(&mut m, "summary").unwrap();
    install(&mut m, "helpme").unwrap();
    let info = m.storage_info();
    assert_eq!(info.config.network, "regtest");
    let back = CoffeeManager::from_storage("testnet", "/tmp/coffee/regtest", &info).unwrap();
    assert_eq!(back.storage_info().config.network, "testnet");
    assert_eq!(names(&back), names(&m));
    let a: Vec<String> = back.list_remotes().remotes.iter().map(|r| r.name.clone()).collect();
    assert_eq!(a, vec![REPO_NAME.to_string()]);
    assert_eq!(directives(&back), directives(&m));
}

#[test]
fn storage_with_repeated_names_is_refused() {
    let mut m = CoffeeManager::new("regtest", "/r");
    m.add_remote("a", "https://a").unwrap();
    let mut info = m.storage_info();
    let copy = info.repositories[0].duplicate();
    info.repositories.push(copy);
    let err = CoffeeManager::from_storage("regtest", "/r", &info).err().unwrap();
    assert_eq!(err.kind, ErrorKind::Storage);

    let mut info = m.storage_info();
    let p = InstalledPlugin { name: "p".into(), repo: "a".into(), exec_path: "/e".into() };
    info.config.plugins.push(p.duplicate());
    info.config.plugins.push(p);
    let err = CoffeeManager::from_storage("regtest", "/r", &info).err().unwrap();
    assert_eq!(err.kind, ErrorKind::Storage);
}

#[test]
fn test_errors_and_show() {
    let mut m = CoffeeManager::new("regtest", "/tmp/coffee/regtest");
    m.add_remote(REPO_NAME, REPO_URL).unwrap();
    let before = m.storage_info();
    let readme = m.show("helpme", &vec![Some(scanned("helpme"))]).unwrap();
    assert_eq!(readme, "/tmp/coffee/regtest/repositories/lightningd/helpme/README.md");
    assert!(m.list().plugins.is_empty());
    assert_eq!(m.storage_info().config.plugins.len(), before.config.plugins.len());
    let err = m.show("folgore", &vec![None]).unwrap_err();
    assert_eq!(err.kind, ErrorKind::PluginNotFound);
    assert_eq!(m.add_remote(REPO_NAME, REPO_URL).unwrap_err().kind, ErrorKind::Repository);
    assert_eq!(m.remove("summary").unwrap_err().kind, ErrorKind::PluginNotFound);
}

#[test]
fn setup_is_idempotent() {
    let mut m = CoffeeManager::new("regtest", "/tmp/coffee/regtest");
    let host = CLNConf::new("/tmp/lightning/config".to_string(), false);
    m.setup_with_cln("/tmp/lightning/config", host).unwrap();
    let host = m.cln_config().unwrap().clone();
    assert_eq!(host.includes.len(), 1);
    assert_eq!(host.includes[0].path, "/tmp/coffee/regtest/coffee.conf");
    m.setup_with_cln("/tmp/lightning/config", host).unwrap();
    assert_eq!(m.cln_config().unwrap().includes.len(), 1);
    assert_eq!(
        m.storage_info().config.cln_config_path.as_deref(),
        Some("/tmp/lightning/config")
    );
}

#[test]
fn upgrade_targets() {
    let mut m = CoffeeManager::new("regtest", "/r");
    m.add_remote("a", "https://a").unwrap();
    m.add_remote("b", "https://b").unwrap();
    assert_eq!(m.upgrade("").unwrap().len(), 2);
    let one = m.upgrade("b").unwrap();
    assert_eq!(one.len(), 1);
    assert_eq!(one[0].name, "b");
    assert_eq!(m.upgrade("c").unwrap_err().kind, ErrorKind::Repository);
    assert!(m.has_remote("a"));
    assert!(!m.has_remote("c"));
}

#[test]
fn nurse_drops_missing_checkouts() {
    let mut m = CoffeeManager::new("regtest", "/r");
    m.add_remote("a", "https://a").unwrap();
    m.add_remote("b", "https://b").unwrap();
    let pa = Plugin::new("x", "/r/repositories/a", "/r/repositories/a/x", PluginLang::PyPip, None);
    let s = m.install("x", &vec![Some(pa), None]).unwrap();
    m.commit_install(&s.plugin).unwrap();
    let dropped = m.nurse(&vec!["a".to_string(), "zzz".to_string(), "a".to_string()]);
    assert_eq!(dropped, vec!["a".to_string()]);
    assert!(m.list().plugins.is_empty());
    assert!(directives(&m).is_empty());
    let remotes = m.list_remotes().remotes;
    assert_eq!(remotes.len(), 1);
    assert_eq!(remotes[0].name, "b");
    assert!(m.nurse(&vec![]).is_empty());
    assert_eq!(m.list_remotes().remotes.len(), 1);
}

#[test]
fn setup_keeps_node_directives() {
    let mut m = CoffeeManager::new("regtest", "/tmp/coffee/regtest");
    let mut host = CLNConf::new("/tmp/lightning/config".to_string(), false);
    host.add_conf("network", "regtest").unwrap();
    host.add_conf("plugin", "/opt/own.py").unwrap();
    m.setup_with_cln("/tmp/lightning/config", host).unwrap();
    let conf = m.cln_config().unwrap();
    assert_eq!(conf.path, "/tmp/lightning/config");
    assert_eq!(conf.fields.get("network").unwrap(), &vec!["regtest".to_string()]);
    assert_eq!(conf.fields.get("plugin").unwrap(), &vec!["/opt/own.py".to_string()]);
    let again = conf.clone();
    m.setup_with_cln("/tmp/lightning/config", again).unwrap();
    let conf = m.cln_config().unwrap();
    assert_eq!(conf.includes.len(), 1);
    assert_eq!(conf.fields.get("plugin").unwrap(), &vec!["/opt/own.py".to_string()]);
}

#[test]
fn installing_a_name_twice_is_refused() {
    let mut m = CoffeeManager::new("regtest", "/r");
    m.add_remote("a", "https://a").unwrap();
    install(&mut m, "summary").unwrap();
    let other = InstalledPlugin { name: "summary".into(), repo: "a".into(), exec_path: "/elsewhere".into() };
    let err = m.commit_install(&other).unwrap_err();
    assert_eq!(err.kind, ErrorKind::Config);
    assert_eq!(m.list().plugins.len(), 1);
    assert!(m.is_installed("summary"));
    assert!(!m.is_installed("helpme"));
}

#[test]
fn nurse_keeps_order() {
    let mut m = CoffeeManager::new("regtest", "/r");
    for n in ["a", "b", "c", "d"] {
        m.add_remote(n, &format!("https://{n}")).unwrap();
    }
    let dropped = m.nurse(&vec!["d".to_string(), "b".to_string()]);
    assert_eq!(dropped, vec!["b".to_string(), "d".to_string()]);
    let names: Vec<String> = m.list_remotes().remotes.iter().map(|r| r.name.clone()).collect();
    assert_eq!(names, vec!["a".to_string(), "c".to_string()]);
}

#[test]
fn refresh_after_upgrade() {
    let mut m = CoffeeManager::new("regtest", "/r");
    m.add_remote("a", "https://a").unwrap();
    let x = Plugin::new("x", "/r/repositories/a", "/r/repositories/a/x", PluginLang::PyPip, None);
    let y = Plugin::new("y", "/r/repositories/a", "/r/repositories/a/y", PluginLang::PyPip, None);
    for p in [&x, &y] {
        let s = m.install(&p.name, &vec![Some(p.clone())]).unwrap();
        m.commit_install(&s.plugin).unwrap();
    }
    let conf = coffee::plugin::Conf { install: Some("make".into()), main: "bin/x".into() };
    let x2 = Plugin::new("x", "/r/repositories/a", "/r/repositories/a/x", PluginLang::Rust, Some(conf));
    m.refresh_plugin("x", &x2).unwrap();
    assert_eq!(names(&m), vec!["y".to_string(), "x".to_string()]);
    assert_eq!(
        directives(&m),
        vec!["/r/repositories/a/y/y.py".to_string(), "/r/repositories/a/x/bin/x".to_string()]
    );
    assert_eq!(m.refresh_plugin("z", &x2).unwrap_err().kind, ErrorKind::PluginNotFound);
    let go = Plugin::new("x", "/r/repositories/a", "/r/repositories/a/x", PluginLang::Go, None);
    assert_eq!(m.refresh_plugin("x", &go).unwrap_err().kind, ErrorKind::UnsupportedLanguage);
    let clash = Plugin::new("y", "/r/repositories/a", "/r/repositories/a/y", PluginLang::PyPip, None);
    let err = m.refresh_plugin("x", &clash).unwrap_err();
    assert_eq!(err.kind, ErrorKind::Config);
    assert_eq!(directives(&m).len(), 2);
    m.refresh_plugin("y", &y).unwrap();
    assert_eq!(names(&m), vec!["x".to_string(), "y".to_string()]);
}
