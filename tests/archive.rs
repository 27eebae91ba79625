use std::io::{Cursor, Read, Write};
use std::path::{Component, Path};
use treezip::archive::{entry_name, ArchivePlan};
use treezip::collect::FileCollector;
use treezip::config::{stem, CompressionMethod, Config, CLI};
use treezip::digest::ZipDigest;
use treezip::timestamp::{clamp_to_dos, last_modified, LocalTime};

fn comps(p: &Path) -> Vec<String> {
    p.components()
        .map(|c| match c {
            Component::CurDir => ".".to_string(),
            Component::RootDir => "/".to_string(),
            Component::ParentDir => "..".to_string(),
            Component::Normal(s) => s.to_string_lossy().into_owned(),
            Component::Prefix(p) => p.as_os_str().to_string_lossy().into_owned(),
        })
        .collect()
}

fn collector() -> FileCollector {
    let walked = vec![
        (comps(Path::new("./")), true),
        (comps(Path::new("./a.txt")), false),
        (comps(Path::new("./sub")), true),
        (comps(Path::new("./b.txt")), false),
        (comps(Path::new("./sub/c.txt")), false),
        (comps(Path::new("./sub/deeper")), true),
    ];
    FileCollector::new(comps(Path::new("./")), walked)
}

fn contents(source: &[String]) -> Vec<u8> {
    format!("bytes of {}", source.join("/")).into_bytes()
}

#[test]
fn directories_come_first() {
    let plan = ArchivePlan::new(&collector(), &None);
    let names: Vec<(String, bool)> =
        plan.entries.iter().map(|e| (e.name.clone(), e.is_dir)).collect();
    assert_eq!(
        names,
        vec![
            ("sub".to_string(), true),
            ("sub/deeper".to_string(), true),
            ("a.txt".to_string(), false),
            ("b.txt".to_string(), false),
            ("sub/c.txt".to_string(), false),
        ]
    );
    assert_eq!((plan.dirs_count, plan.files_count), (2, 3));
}

#[test]
fn wrap_prefixes_every_name() {
    let plain = ArchivePlan::new(&collector(), &None);
    let wrapped = ArchivePlan::new(&collector(), &Some("out".to_string()));
    assert_eq!(plain.entries.len(), wrapped.entries.len());
    for (p, w) in plain.entries.iter().zip(wrapped.entries.iter()) {
        assert_eq!(w.name, format!("out/{}", p.name));
        assert_eq!(w.is_dir, p.is_dir);
        assert_eq!(w.source, p.source);
    }
    assert_eq!(
        entry_name(&Some("w".to_string()), &vec!["x".to_string(), "y".to_string()]),
        "w/x/y"
    );
    assert_eq!(entry_name(&None, &vec![]), "");
}

#[test]
fn archive_round_trip() {
    let plan = ArchivePlan::new(&collector(), &None);
    let mut writer = zip::ZipWriter::new(Cursor::new(Vec::new()));
    for e in &plan.entries {
        let options = zip::write::FileOptions::default()
            .compression_method(zip::CompressionMethod::Deflated);
        if e.is_dir {
            writer.add_directory(e.name.clone(), options).unwrap();
        } else {
            writer.start_file(e.name.clone(), options).unwrap();
            writer.write_all(&contents(&e.source)).unwrap();
        }
    }
    let bytes = writer.finish().unwrap().into_inner();
    let mut archive = zip::ZipArchive::new(Cursor::new(bytes)).unwrap();
    let mut seen = vec![];
    for i in 0..archive.len() {
        let mut f = archive.by_index(i).unwrap();
        let mut data = vec![];
        f.read_to_end(&mut data).unwrap();
        seen.push((f.name().to_string(), data));
    }
    assert_eq!(seen.len(), 5);
    assert_eq!(seen[0].0, "sub/");
    assert_eq!(seen[1].0, "sub/deeper/");
    assert_eq!(seen[2], ("a.txt".to_string(), contents(&comps(Path::new("./a.txt")))));
    assert_eq!(seen[3], ("b.txt".to_string(), contents(&comps(Path::new("./b.txt")))));
    assert_eq!(seen[4], ("sub/c.txt".to_string(), contents(&comps(Path::new("./sub/c.txt")))));
}

#[test]
fn digest_of_known_bytes() {
    let d = ZipDigest::new(b"abc");
    assert_eq!(
        d.md5,
        vec![
            0x90, 0x01, 0x50, 0x98, 0x3c, 0xd2, 0x4f, 0xb0, 0xd6, 0x96, 0x3f, 0x7d, 0x28, 0xe1,
            0x7f, 0x72
        ]
    );
    assert_eq!(
        d.display(),
        "MD5   : 900150983cd24fb0d6963f7d28e17f72\n\
         SHA256: ba7816bf8f01cfea414140de5dae2223b00361a396177a9cb410ff61f20015ad\n"
    );
}

#[test]
fn timestamps_are_clamped() {
    let t = LocalTime { year: 1970, month: 6, day: 15, hour: 12, minute: 30, second: 10 };
    let c = clamp_to_dos(&t);
    assert_eq!(c, LocalTime { year: 1980, month: 1, day: 1, hour: 0, minute: 0, second: 0 });
    let t = LocalTime { year: 2200, month: 6, day: 15, hour: 12, minute: 30, second: 10 };
    let c = clamp_to_dos(&t);
    assert_eq!(c, LocalTime { year: 2107, month: 12, day: 31, hour: 23, minute: 59, second: 58 });
    let t = LocalTime { year: 2024, month: 2, day: 29, hour: 8, minute: 5, second: 3 };
    assert_eq!(clamp_to_dos(&t), t);
    let d = last_modified(&t);
    assert_eq!((d.year(), d.month(), d.day()), (2024, 2, 29));
    assert_eq!((d.hour(), d.minute(), d.second()), (8, 5, 3));
    let d = last_modified(&LocalTime { year: 1900, month: 3, day: 3, hour: 3, minute: 3, second: 3 });
    assert_eq!((d.year(), d.month(), d.day()), (1980, 1, 1));
    let d = last_modified(&LocalTime { year: 2300, month: 3, day: 3, hour: 3, minute: 3, second: 3 });
    assert_eq!((d.year(), d.month(), d.day(), d.hour(), d.minute(), d.second()), (2107, 12, 31, 23, 59, 58));
}

#[test]
fn file_stems() {
    assert_eq!(stem("project.zip"), "project");
    assert_eq!(stem("a.tar.gz"), "a.tar");
    assert_eq!(stem(".hidden"), ".hidden");
    assert_eq!(stem("plain"), "plain");
    assert_eq!(stem(".."), "..");
    assert_eq!(stem("x."), "x");
}

#[test]
fn config_defaults_and_wrap_name() {
    let root = comps(Path::new("/home/me/project"));
    let args = CLI {
        input: None,
        output: None,
        depth: None,
        dry_run: false,
        ignore_hidden: false,
        read_gitignore: false,
        parent: true,
        compression_method: CompressionMethod::default(),
        compression_level: None,
    };
    let c = Config::from(args, root.clone());
    assert_eq!(c.input, root);
    assert_eq!(c.output, vec![".".to_string(), "project.zip".to_string()]);
    assert_eq!(c.wrap_name(), Some("project".to_string()));
    assert_eq!(c.compression_method, CompressionMethod::Deflated);
    let args = CLI {
        input: Some(comps(Path::new("./in"))),
        output: Some(comps(Path::new("out/bundle.v2.zip"))),
        depth: Some(3),
        dry_run: true,
        ignore_hidden: true,
        read_gitignore: true,
        parent: false,
        compression_method: CompressionMethod::Zstd,
        compression_level: Some(5),
    };
    let c = Config::from(args, root);
    assert_eq!(c.input, comps(Path::new("./in")));
    assert_eq!(c.output, comps(Path::new("out/bundle.v2.zip")));
    assert_eq!(c.depth, Some(3));
    assert_eq!(c.wrap_name(), None);
    assert_eq!(c.compression_level, Some(5));
}

#[test]
fn digest_builders_replace_one_digest() {
    let d = ZipDigest::new(b"").md5(b"abc");
    assert_eq!(
        d.display(),
        "MD5   : 900150983cd24fb0d6963f7d28e17f72\n\
         SHA256: e3b0c44298fc1c149afbf4c8996fb92427ae41e4649b934ca495991b7852b855\n"
    );
    let d = ZipDigest::new(b"").sha256(b"abc");
    assert_eq!(d.md5.len(), 16);
    assert_eq!(
        d.display(),
        "MD5   : d41d8cd98f00b204e9800998ecf8427e\n\
         SHA256: ba7816bf8f01cfea414140de5dae2223b00361a396177a9cb410ff61f20015ad\n"
    );
}
