//! A plugin as the manager sees it, and the per-language install recipes.
use crate::error::{CoffeeError, ErrorKind};
use vstd::prelude::*;
use vstd::string::StringExecFns;

verus! {

/// The language a plugin is written in, which selects its default recipe.
#[derive(Clone, Copy, PartialEq, Eq, Debug, Structural)]
pub enum PluginLang {
    PyPip,
    PyPoetry,
    Go,
    Rust,
    Dart,
    JVM,
    JavaScript,
    TypeScript,
    Unknown,
}

/// The shell command that installs a language's requirements, for the
/// languages that have a default recipe.
pub open spec fn default_recipe(lang: PluginLang) -> Option<Seq<char>> {
    match lang {
        PluginLang::PyPip => Some("pip3 install -r requirements.txt"@),
        PluginLang::PyPoetry => Some(
            "pip3 install poetry\npoetry export -f requirements.txt --output requirements.txt\npip3 install -r requirements.txt"@,
        ),
        _ => None,
    }
}

/// `<path>/<name>.py`: the entry point of a plugin installed by a default recipe.
pub open spec fn default_main_file(path: Seq<char>, name: Seq<char>) -> Seq<char> {
    path + "/"@ + name + ".py"@
}

/// `<dir>/<file>`.
pub open spec fn join_path(dir: Seq<char>, file: Seq<char>) -> Seq<char> {
    dir + "/"@ + file
}

pub(crate) fn join(dir: &str, file: &str) -> (r: String)
    ensures
        r@ == join_path(dir@, file@),
{
    let mut r = dir.to_owned();
    r.append("/");
    r.append(file);
    r
}

impl PluginLang {
    /// The command that installs this language's requirements, where the
    /// language has a default recipe.
    pub fn install_script(&self) -> (r: Option<String>)
        ensures
            r is Some <==> default_recipe(*self) is Some,
            r is Some ==> r->Some_0@ == default_recipe(*self)->Some_0,
    {
        match self {
            PluginLang::PyPip => Some("pip3 install -r requirements.txt".to_owned()),
            PluginLang::PyPoetry => Some(
                "pip3 install poetry\npoetry export -f requirements.txt --output requirements.txt\npip3 install -r requirements.txt".to_owned(),
            ),
            _ => None,
        }
    }

    /// The entry point that the default recipe leaves for the plugin `name`
    /// in `path`; a language without a default recipe is refused.
    pub fn get_executable_path(&self, path: &str, name: &str) -> (r: Result<String, CoffeeError>)
        ensures
            r is Ok <==> default_recipe(*self) is Some,
            r is Ok ==> r->Ok_0@ == default_main_file(path@, name@),
            r is Err ==> r->Err_0.kind == ErrorKind::UnsupportedLanguage,
    {
        match self {
            PluginLang::PyPip | PluginLang::PyPoetry => {
                let mut r = path.to_owned();
                r.append("/");
                r.append(name);
                r.append(".py");
                Ok(r)
            },
            PluginLang::Unknown => Err(CoffeeError::new(
                ErrorKind::UnsupportedLanguage,
                "unknown default install procedure, the language is undefined".to_owned(),
            )),
            _ => {
                let lang = match self {
                    PluginLang::Go => "golang",
                    PluginLang::Rust => "rust",
                    PluginLang::Dart => "dart",
                    PluginLang::JVM => "JVM",
                    PluginLang::JavaScript => "js",
                    _ => "ts",
                };
                let mut cause = lang.to_owned();
                cause.append(" is not supported as default language, please use the coffee.yml manifest");
                Err(CoffeeError::new(ErrorKind::UnsupportedLanguage, cause))
            },
        }
    }
}

/// The language that a file in a plugin's directory marks, if any.
pub open spec fn marker_lang(file: Seq<char>) -> Option<PluginLang> {
    if file == "requirements.txt"@ {
        Some(PluginLang::PyPip)
    } else if file == "pyproject.toml"@ {
        Some(PluginLang::PyPoetry)
    } else if file == "go.mod"@ {
        Some(PluginLang::Go)
    } else if file == "Cargo.toml"@ {
        Some(PluginLang::Rust)
    } else if file == "pubspec.yaml"@ {
        Some(PluginLang::Dart)
    } else if file == "build.gradle"@ || file == "pom.xml"@ {
        Some(PluginLang::JVM)
    } else if file == "tsconfig.json"@ {
        Some(PluginLang::TypeScript)
    } else if file == "package.json"@ {
        Some(PluginLang::JavaScript)
    } else {
        None
    }
}

/// The language of a plugin whose directory holds `files`, in order: the
/// language that the first marker file marks, else unknown.
pub open spec fn detected_lang(files: Seq<Seq<char>>) -> PluginLang
    decreases files.len(),
{
    if files.len() == 0 {
        PluginLang::Unknown
    } else {
        match marker_lang(files[0]) {
            Some(lang) => lang,
            None => detected_lang(files.drop_first()),
        }
    }
}

fn lang_of_marker(file: &String) -> (r: Option<PluginLang>)
    ensures
        r == marker_lang(file@),
{
    if *file == "requirements.txt".to_owned() {
        Some(PluginLang::PyPip)
    } else if *file == "pyproject.toml".to_owned() {
        Some(PluginLang::PyPoetry)
    } else if *file == "go.mod".to_owned() {
        Some(PluginLang::Go)
    } else if *file == "Cargo.toml".to_owned() {
        Some(PluginLang::Rust)
    } else if *file == "pubspec.yaml".to_owned() {
        Some(PluginLang::Dart)
    } else if *file == "build.gradle".to_owned() || *file == "pom.xml".to_owned() {
        Some(PluginLang::JVM)
    } else if *file == "tsconfig.json".to_owned() {
        Some(PluginLang::TypeScript)
    } else if *file == "package.json".to_owned() {
        Some(PluginLang::JavaScript)
    } else {
        None
    }
}

impl PluginLang {
    /// The language of a plugin whose directory holds the files `files`.
    pub fn detect(files: &Vec<String>) -> (r: PluginLang)
        ensures
            r == detected_lang(files@.map_values(|f: String| f@)),
    {
        let ghost fs = files@.map_values(|f: String| f@);
        let mut i: usize = 0;
        assert(fs.subrange(0, fs.len() as int) =~= fs);
        while i < files.len()
            invariant
                i <= files@.len(),
                fs == files@.map_values(|f: String| f@),
                detected_lang(fs) == detected_lang(fs.subrange(i as int, fs.len() as int)),
            decreases files@.len() - i,
        {
            let ghost rest = fs.subrange(i as int, fs.len() as int);
            assert(rest[0] == files@[i as int]@);
            assert(rest.drop_first() =~= fs.subrange(i as int + 1, fs.len() as int));
            if let Some(lang) = lang_of_marker(&files[i]) {
                return lang;
            }
            i += 1;
        }
        assert(fs.subrange(i as int, fs.len() as int).len() == 0);
        PluginLang::Unknown
    }
}

/// A plugin's manifest: the install script, when it gives one, and the
/// entry point file relative to the plugin's directory.
#[derive(Clone, Debug)]
pub struct Conf {
    pub install: Option<String>,
    pub main: String,
}

/// A plugin found in a repository's checkout.
#[derive(Clone, Debug)]
pub struct Plugin {
    pub name: String,
    /// root path of the plugin
    pub root_path: String,
    /// path of the plugin's directory, where its main file lives
    pub path: String,
    pub lang: PluginLang,
    pub conf: Option<Conf>,
}

/// What installing a plugin takes: the command to run, if any, the directory
/// to run it in, and the executable that the node is then pointed at.
#[derive(Clone, Debug)]
pub struct InstallPlan {
    pub dir: String,
    pub script: Option<String>,
    pub exec_path: String,
}

/// The install script of the plugin's manifest, where it has one.
pub open spec fn manifest_script(p: Plugin) -> Option<Seq<char>> {
    match p.conf {
        Some(c) => match c.install {
            Some(s) => Some(s@),
            None => None,
        },
        None => None,
    }
}

/// The executable a plugin resolves to: the manifest's main file where the
/// manifest gives an install script, else the default recipe's entry point;
/// none for a language without a default recipe.
pub open spec fn resolved_executable(p: Plugin) -> Option<Seq<char>> {
    if manifest_script(p) is Some {
        Some(join_path(p.path@, p.conf->Some_0.main@))
    } else if default_recipe(p.lang) is Some {
        Some(default_main_file(p.path@, p.name@))
    } else {
        None
    }
}

/// What configuring `p` runs and resolves to: with a manifest that gives
/// an install script, that script in the plugin's root; else the language's
/// default recipe, if any, in the plugin's directory.
pub open spec fn plan_for(p: Plugin, plan: InstallPlan) -> bool {
    &&& resolved_executable(p) == Some(plan.exec_path@)
    &&& match manifest_script(p) {
        Some(script) => plan.dir@ == p.root_path@ && plan.script is Some && plan.script->Some_0@ == script,
        None => plan.dir@ == p.path@ && (plan.script is Some <==> default_recipe(p.lang) is Some) && (
        plan.script is Some ==> plan.script->Some_0@ == default_recipe(p.lang)->Some_0),
    }
}

impl Plugin {
    /// create a new instance of the plugin.
    pub fn new(name: &str, root_path: &str, path: &str, plugin_lang: PluginLang, config: Option<Conf>) -> (r: Self)
        ensures
            r.name@ == name@,
            r.root_path@ == root_path@,
            r.path@ == path@,
            r.lang == plugin_lang,
            r.conf == config,
    {
        Plugin {
            name: name.to_owned(),
            root_path: root_path.to_owned(),
            path: path.to_owned(),
            lang: plugin_lang,
            conf: config,
        }
    }

    /// What configuring the plugin for the node takes. With a manifest that
    /// gives an install script, that script runs in the plugin's root; else
    /// the language's default recipe runs in the plugin's directory.
    pub fn configure(&self) -> (r: Result<InstallPlan, CoffeeError>)
        ensures
            r is Ok <==> resolved_executable(*self) is Some,
            r is Ok ==> plan_for(*self, r->Ok_0),
            r is Err ==> r->Err_0.kind == ErrorKind::UnsupportedLanguage,
    {
        if let Some(conf) = &self.conf {
            if let Some(script) = &conf.install {
                return Ok(InstallPlan {
                    dir: self.root_path.clone(),
                    script: Some(script.clone()),
                    exec_path: join(&self.path, &conf.main),
                });
            }
        }
        let exec_path = self.lang.get_executable_path(&self.path, &self.name)?;
        Ok(InstallPlan { dir: self.path.clone(), script: self.lang.install_script(), exec_path })
    }

    /// The executable of the plugin, resolved without running anything.
    pub fn get_executable(&self) -> (r: Result<String, CoffeeError>)
        ensures
            r is Ok <==> resolved_executable(*self) is Some,
            r is Ok ==> r->Ok_0@ == resolved_executable(*self)->Some_0,
            r is Err ==> r->Err_0.kind == ErrorKind::UnsupportedLanguage,
    {
        if let Some(conf) = &self.conf {
            if conf.install.is_some() {
                return Ok(join(&self.path, &conf.main));
            }
        }
        self.lang.get_executable_path(&self.path, &self.name)
    }

    pub fn name(&self) -> (r: String)
        ensures
            r@ == self.name@,
    {
        self.name.clone()
    }

    /// `name: <name>, path: <path>`.
    pub fn describe(&self) -> (r: String)
        ensures
            r@ == "name: "@ + self.name@ + ", path: "@ + self.path@,
    {
        let mut r = "name: ".to_owned();
        r.append(&self.name);
        r.append(", path: ");
        r.append(&self.path);
        r
    }
}

} // verus!
