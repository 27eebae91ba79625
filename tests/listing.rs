use std::path::{Component, Path};
use treezip::archive::ArchivePlan;
use treezip::collect::FileCollector;
use treezip::tree::{FileStream, FileWrapper};

fn comps(p: &Path) -> Vec<String> {
    p.components()
        .map(|c| match c {
            Component::CurDir => ".".to_string(),
            Component::RootDir => "/".to_string(),
            Component::ParentDir => "..".to_string(),
            Component::Normal(s) => s.to_string_lossy().into_owned(),
            Component::Prefix(p) => p.as_os_str().to_string_lossy().into_owned(),
        })
        .collect()
}

fn walk(root: &str, max_depth: Option<usize>) -> Vec<(usize, Vec<String>, bool)> {
    let mut builder = ignore::WalkBuilder::new(root);
    builder.add_custom_ignore_filename(".zipignore");
    builder.max_depth(max_depth);
    let mut out = vec![];
    for e in builder.build().flatten() {
        let is_dir = e.path().is_dir();
        out.push((e.depth(), comps(e.path()), is_dir));
    }
    out
}

fn fixture() -> Vec<(usize, Vec<String>)> {
    vec![
        (0, comps(Path::new("./"))),
        (1, comps(Path::new("./a.txt"))),
        (1, comps(Path::new("./b.txt"))),
        (1, comps(Path::new("./sub"))),
        (2, comps(Path::new("./sub/c.txt"))),
    ]
}

#[test]
fn relative_dirs_works() {
    let walked = walk("./", None);
    let collector = FileCollector::new(
        comps(Path::new("./")),
        walked.into_iter().map(|(_, p, d)| (p, d)).collect(),
    );
    let dirs = collector.dirs();
    assert!(!dirs.is_empty());
    assert!(dirs[0].1.is_empty());
    for dirs in dirs {
        println!("{:?}", dirs);
    }
}

#[test]
fn relative_files_works() {
    let walked = walk("./ziptest", None);
    let collector = FileCollector::new(
        comps(Path::new("./ziptest")),
        walked.into_iter().map(|(_, p, d)| (p, d)).collect(),
    );
    for files in collector.files() {
        println!("{:?}", files);
    }
}

#[test]
fn collector_splits_pairs() {
    let walked = vec![
        (comps(Path::new("./")), true),
        (comps(Path::new("./a.txt")), false),
        (comps(Path::new("./sub")), true),
        (comps(Path::new("./sub/c.txt")), false),
    ];
    let c = FileCollector::new(comps(Path::new("./")), walked);
    let dirs = c.dirs();
    assert_eq!(dirs.len(), 2);
    assert_eq!(dirs[1], (vec![".".to_string(), "sub".to_string()], vec!["sub".to_string()]));
    let files = c.files();
    assert_eq!(files.len(), 2);
    assert_eq!(files[1].1, vec!["sub".to_string(), "c.txt".to_string()]);
}

#[test]
fn last_sibling_flags() {
    let s = FileStream::from_entries(fixture());
    let flags: Vec<bool> = s.items.iter().map(|w| w.is_last).collect();
    assert_eq!(flags, vec![true, false, false, true, true]);
}

#[test]
fn one_last_per_parent_in_any_order() {
    let entries = vec![
        (0, comps(Path::new("./"))),
        (1, comps(Path::new("./sub"))),
        (2, comps(Path::new("./sub/x"))),
        (1, comps(Path::new("./a"))),
        (2, comps(Path::new("./sub/y"))),
        (1, comps(Path::new("./b"))),
    ];
    let s = FileStream::from_entries(entries);
    let flags: Vec<bool> = s.items.iter().map(|w| w.is_last).collect();
    assert_eq!(flags, vec![true, false, false, false, true, true]);
}

#[test]
fn two_level_fixture_renders() {
    let s = FileStream::from_entries(fixture());
    assert_eq!(
        s.render(),
        vec!["├── a.txt", "├── b.txt", "└── sub", "    └── c.txt"]
    );
}

#[test]
fn open_ancestor_draws_a_bar() {
    let s = FileStream {
        items: vec![
            FileWrapper::new(0, true, comps(Path::new("./"))),
            FileWrapper::new(1, false, comps(Path::new("./d"))),
            FileWrapper::new(2, false, comps(Path::new("./d/x"))),
            FileWrapper::new(2, true, comps(Path::new("./d/y"))),
            FileWrapper::new(1, true, comps(Path::new("./z"))),
        ],
    };
    assert_eq!(
        s.render(),
        vec!["├── d", "│   ├── x", "│   └── y", "└── z"]
    );
}

#[test]
fn rendering_twice_is_identical() {
    let s = FileStream::from_entries(fixture());
    assert_eq!(s.render(), s.render());
    let again = FileStream::from_entries(fixture());
    assert_eq!(s.render(), again.render());
}

#[test]
fn empty_root_renders_nothing_and_plans_nothing() {
    let s = FileStream::from_entries(vec![(0, comps(Path::new("./")))]);
    assert!(s.render().is_empty());
    let c = FileCollector::new(comps(Path::new("./")), vec![(comps(Path::new("./")), true)]);
    let plan = ArchivePlan::new(&c, &None);
    assert!(plan.entries.is_empty());
    assert_eq!((plan.dirs_count, plan.files_count), (0, 0));
}

#[test]
fn depth_limit_keeps_deeper_entries_out() {
    let walked = walk(".", Some(1));
    assert!(walked.iter().all(|(d, _, _)| *d <= 1));
    let s = FileStream::from_entries(walked.iter().map(|(d, p, _)| (*d, p.clone())).collect());
    assert!(s.items.iter().all(|w| w.depth <= 1));
    for line in s.render() {
        assert!(!line.starts_with("│") && !line.starts_with("    "));
    }
    let c = FileCollector::new(
        comps(Path::new(".")),
        walked.into_iter().map(|(_, p, d)| (p, d)).collect(),
    );
    let plan = ArchivePlan::new(&c, &None);
    assert!(plan.entries.iter().all(|e| !e.name.contains('/')));
}
