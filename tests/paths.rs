use std::path::{Component, Path};
use treezip::path::relative_to;

fn comps(p: &Path) -> Vec<String> {
    p.components()
        .map(|c| match c {
            Component::CurDir => ".".to_string(),
            Component::RootDir => "/".to_string(),
            Component::ParentDir => "..".to_string(),
            Component::Normal(s) => s.to_string_lossy().into_owned(),
            Component::Prefix(p) => p.as_os_str().to_string_lossy().into_owned(),
        })
        .collect()
}

#[test]
fn same_dir() {
    let base = Path::new("./");
    let path = Path::new("./");
    assert_eq!(relative_to(&comps(base), &comps(path)).unwrap(), 0);
}

#[test]
fn one_parent() {
    let base = Path::new("./");
    let path = Path::new("./child");
    assert_eq!(relative_to(&comps(base), &comps(path)).unwrap(), 1);
}

#[test]
fn no_parent() {
    let base = Path::new("./parent");
    let path = Path::new("./child/parent");
    assert_eq!(relative_to(&comps(base), &comps(path)), None);
}

#[test]
fn file_test() {
    let base = Path::new("./");
    let path = Path::new("./rustacean.rs");
    assert_eq!(relative_to(&comps(base), &comps(path)).unwrap(), 1);
    let path = Path::new("./rustacean/rustacean.rs");
    assert_eq!(relative_to(&comps(base), &comps(path)).unwrap(), 2);
}

#[test]
fn empty_base_is_not_an_ancestor_of_an_absolute_path() {
    assert_eq!(relative_to(&comps(Path::new("")), &comps(Path::new("/a"))), None);
    assert_eq!(relative_to(&comps(Path::new("/")), &comps(Path::new("/a/b"))), Some(2));
    assert_eq!(relative_to(&comps(Path::new("")), &comps(Path::new("a/b"))), Some(2));
}
