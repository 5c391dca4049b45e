use coffee::error::ErrorKind;
use coffee::repository::{Kind, RepositoryInfo};

#[test]
fn git_tag_round_trip() {
    assert_eq!(Kind::Git.tag(), "git");
    assert_eq!(Kind::from_tag("git").unwrap(), Kind::Git);
}

#[test]
fn unknown_tag_is_refused() {
    let err = Kind::from_tag("hg").unwrap_err();
    assert_eq!(err.kind, ErrorKind::Repository);
    assert!(Kind::from_tag("").is_err());
    assert!(Kind::from_tag("Git").is_err());
}

#[test]
fn repository_record_paths() {
    let r = RepositoryInfo::new("/home/.coffee/regtest", "lightningd", "https://github.com/lightningd/plugins.git");
    assert_eq!(r.kind, Kind::Git);
    assert_eq!(r.name, "lightningd");
    assert_eq!(r.url, "https://github.com/lightningd/plugins.git");
    assert_eq!(r.root_path, "/home/.coffee/regtest/repositories/lightningd");
    let d = r.duplicate();
    assert_eq!(d.root_path, r.root_path);
}
