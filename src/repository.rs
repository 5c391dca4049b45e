//! Remote repositories, as the registry records them.
use crate::error::{CoffeeError, ErrorKind};
use vstd::prelude::*;
use vstd::string::StringExecFns;

verus! {

/// The kind of a repository: how it is fetched.
#[derive(Clone, Copy, PartialEq, Eq, Debug, Structural)]
pub enum Kind {
    Git,
}

/// The tag that a snapshot writes for a kind of repository.
pub open spec fn kind_tag(kind: Kind) -> Seq<char> {
    match kind {
        Kind::Git => "git"@,
    }
}

impl Kind {
    /// The tag that stands for this kind in a snapshot.
    pub fn tag(&self) -> (r: String)
        ensures
            r@ == kind_tag(*self),
    {
        match self {
            Kind::Git => "git".to_owned(),
        }
    }

    /// The kind that a snapshot's tag stands for; an unknown tag is refused.
    pub fn from_tag(tag: &str) -> (r: Result<Kind, CoffeeError>)
        ensures
            r is Ok <==> tag@ == kind_tag(Kind::Git),
            r is Ok ==> kind_tag(r->Ok_0) == tag@,
            r is Err ==> r->Err_0.kind == ErrorKind::Repository,
    {
        let git = "git".to_owned();
        if tag.to_owned() == git {
            Ok(Kind::Git)
        } else {
            let mut cause = "unknown repository kind `".to_owned();
            cause.append(tag);
            cause.append("`");
            Err(CoffeeError::new(ErrorKind::Repository, cause))
        }
    }
}

/// `<root>/repositories/<name>`: where a repository's checkout lives.
pub open spec fn checkout_path(root: Seq<char>, name: Seq<char>) -> Seq<char> {
    root + "/repositories/"@ + name
}

/// The registry's record of a repository: enough to rebuild it on reload.
#[derive(Clone, Debug)]
pub struct RepositoryInfo {
    pub kind: Kind,
    /// the local name, unique in the registry
    pub name: String,
    pub url: String,
    /// where the checkout lives
    pub root_path: String,
}

/// A repository record as values.
pub struct RepoView {
    pub kind: Kind,
    pub name: Seq<char>,
    pub url: Seq<char>,
    pub root_path: Seq<char>,
}

impl View for RepositoryInfo {
    type V = RepoView;

    open spec fn view(&self) -> RepoView {
        RepoView { kind: self.kind, name: self.name@, url: self.url@, root_path: self.root_path@ }
    }
}

impl RepositoryInfo {
    /// The record of a git repository `name` fetched from `url`, checked out
    /// under the root `root`.
    pub fn new(root: &str, name: &str, url: &str) -> (r: Self)
        ensures
            r@ == (RepoView { kind: Kind::Git, name: name@, url: url@, root_path: checkout_path(root@, name@) }),
    {
        let mut root_path = root.to_owned();
        root_path.append("/repositories/");
        root_path.append(name);
        RepositoryInfo { kind: Kind::Git, name: name.to_owned(), url: url.to_owned(), root_path }
    }

    /// A copy of the record.
    pub fn duplicate(&self) -> (r: Self)
        ensures
            r@ == self@,
    {
        RepositoryInfo {
            kind: self.kind,
            name: self.name.clone(),
            url: self.url.clone(),
            root_path: self.root_path.clone(),
        }
    }
}

} // verus!
