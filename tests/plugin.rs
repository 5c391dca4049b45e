use coffee::error::{CoffeeError, ErrorKind};
use coffee::plugin::{Conf, Plugin, PluginLang};

fn pip_plugin(name: &str) -> Plugin {
    Plugin::new(name, "/r/plugins", &format!("/r/plugins/{name}"), PluginLang::PyPip, None)
}

#[test]
fn plugin_new_keeps_fields() {
    let p = Plugin::new("summary", "/root", "/root/summary", PluginLang::PyPoetry, None);
    assert_eq!(p.name(), "summary");
    assert_eq!(p.root_path, "/root");
    assert_eq!(p.path, "/root/summary");
    assert_eq!(p.lang, PluginLang::PyPoetry);
    assert!(p.conf.is_none());
}

#[test]
fn plugin_describe() {
    let p = pip_plugin("helpme");
    assert_eq!(p.describe(), "name: helpme, path: /r/plugins/helpme");
}

#[test]
fn default_recipe_for_python() {
    assert_eq!(
        PluginLang::PyPip.install_script().unwrap(),
        "pip3 install -r requirements.txt"
    );
    assert!(PluginLang::PyPoetry.install_script().unwrap().starts_with("pip3 install poetry"));
    assert!(PluginLang::Go.install_script().is_none());
    assert!(PluginLang::Unknown.install_script().is_none());
}

#[test]
fn executable_path_of_python_plugin() {
    let r = PluginLang::PyPip.get_executable_path("/a/b", "summary").unwrap();
    assert_eq!(r, "/a/b/summary.py");
    let r = PluginLang::PyPoetry.get_executable_path("/x", "y").unwrap();
    assert_eq!(r, "/x/y.py");
}

#[test]
fn languages_without_recipe_are_refused() {
    for lang in [
        PluginLang::Go,
        PluginLang::Rust,
        PluginLang::Dart,
        PluginLang::JVM,
        PluginLang::JavaScript,
        PluginLang::TypeScript,
        PluginLang::Unknown,
    ] {
        let err: CoffeeError = lang.get_executable_path("/a", "b").unwrap_err();
        assert_eq!(err.kind, ErrorKind::UnsupportedLanguage);
        assert_eq!(err.code(), 3);
        assert!(!err.cause.is_empty());
    }
    let err = PluginLang::Rust.get_executable_path("/a", "b").unwrap_err();
    assert_eq!(
        err.cause,
        "rust is not supported as default language, please use the coffee.yml manifest"
    );
}

#[test]
fn configure_with_default_recipe() {
    let p = pip_plugin("summary");
    let plan = p.configure().unwrap();
    assert_eq!(plan.exec_path, "/r/plugins/summary/summary.py");
    assert_eq!(plan.dir, "/r/plugins/summary");
    assert_eq!(plan.script.unwrap(), "pip3 install -r requirements.txt");
}

#[test]
fn configure_with_manifest_script() {
    let conf = Conf { install: Some("make build".to_string()), main: "target/bin".to_string() };
    let p = Plugin::new("folgore", "/r/folgore", "/r/folgore/plugin", PluginLang::Rust, Some(conf));
    let plan = p.configure().unwrap();
    assert_eq!(plan.exec_path, "/r/folgore/plugin/target/bin");
    assert_eq!(plan.dir, "/r/folgore");
    assert_eq!(plan.script.unwrap(), "make build");
    assert_eq!(p.get_executable().unwrap(), "/r/folgore/plugin/target/bin");
}

#[test]
fn manifest_without_script_falls_back_to_language() {
    let conf = Conf { install: None, main: "main.go".to_string() };
    let p = Plugin::new("g", "/r", "/r/g", PluginLang::Go, Some(conf));
    assert_eq!(p.configure().unwrap_err().kind, ErrorKind::UnsupportedLanguage);
    assert_eq!(p.get_executable().unwrap_err().kind, ErrorKind::UnsupportedLanguage);
    let conf = Conf { install: None, main: "main.py".to_string() };
    let p = Plugin::new("s", "/r", "/r/s", PluginLang::PyPip, Some(conf));
    assert_eq!(p.get_executable().unwrap(), "/r/s/s.py");
}

#[test]
fn error_codes() {
    let kinds = [
        (ErrorKind::Repository, 1),
        (ErrorKind::PluginNotFound, 2),
        (ErrorKind::UnsupportedLanguage, 3),
        (ErrorKind::ProcessExecution, 4),
        (ErrorKind::Config, 5),
        (ErrorKind::Storage, 6),
    ];
    for (kind, code) in kinds {
        let e = CoffeeError::new(kind, "why".to_string());
        assert_eq!(e.code(), code);
        assert_eq!(e.cause, "why");
    }
}

#[test]
fn language_detection() {
    let files = |v: &[&str]| v.iter().map(|s| s.to_string()).collect::<Vec<String>>();
    assert_eq!(PluginLang::detect(&files(&["README.md", "requirements.txt", "x.py"])), PluginLang::PyPip);
    assert_eq!(PluginLang::detect(&files(&["pyproject.toml"])), PluginLang::PyPoetry);
    assert_eq!(PluginLang::detect(&files(&["go.mod", "requirements.txt"])), PluginLang::Go);
    assert_eq!(PluginLang::detect(&files(&["Cargo.toml"])), PluginLang::Rust);
    assert_eq!(PluginLang::detect(&files(&["pubspec.yaml"])), PluginLang::Dart);
    assert_eq!(PluginLang::detect(&files(&["pom.xml"])), PluginLang::JVM);
    assert_eq!(PluginLang::detect(&files(&["build.gradle"])), PluginLang::JVM);
    assert_eq!(PluginLang::detect(&files(&["tsconfig.json", "package.json"])), PluginLang::TypeScript);
    assert_eq!(PluginLang::detect(&files(&["package.json"])), PluginLang::JavaScript);
    assert_eq!(PluginLang::detect(&files(&["README.md"])), PluginLang::Unknown);
    assert_eq!(PluginLang::detect(&vec![]), PluginLang::Unknown);
}

#[test]
fn poetry_recipe_is_three_commands() {
    let script = PluginLang::PyPoetry.install_script().unwrap();
    let lines: Vec<&str> = script.lines().collect();
    assert_eq!(
        lines,
        vec![
            "pip3 install poetry",
            "poetry export -f requirements.txt --output requirements.txt",
            "pip3 install -r requirements.txt"
        ]
    );
}
