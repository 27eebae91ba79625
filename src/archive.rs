//! The plan of an archive: which entries it holds, in which order, and under
//! which names.
use vstd::prelude::*;
use crate::collect::{pair_list, path_list, split_pairs, FileCollector};
use crate::path::{comps, copy_path};
use crate::render::rendered;
use crate::tree::FileWrapper;

verus! {

/// A relative path written with `/` between its components.
pub open spec fn joined(p: Seq<Seq<char>>) -> Seq<char>
    decreases p.len(),
{
    if p.len() == 0 {
        Seq::empty()
    } else if p.len() == 1 {
        p[0]
    } else {
        joined(p.drop_last()) + seq!['/'] + p.last()
    }
}

/// The name under which a relative path is stored: the path itself, or,
/// where entries are wrapped, the wrap name, a `/`, and the path.
pub open spec fn archive_name(wrap: Option<Seq<char>>, rel: Seq<Seq<char>>) -> Seq<char> {
    match wrap {
        Some(w) => w + seq!['/'] + joined(rel),
        None => joined(rel),
    }
}

/// The view of an optional wrap name.
pub open spec fn wrap_view(wrap: Option<String>) -> Option<Seq<char>> {
    match wrap {
        Some(w) => Some(w@),
        None => None,
    }
}

/// The entries planned for `(absolute, relative)` pairs, in their order, as
/// `(name, is_dir, source)`: every pair but one for the scan root itself
/// (an empty relative path).
pub open spec fn planned(
    pairs: Seq<(Seq<Seq<char>>, Seq<Seq<char>>)>,
    is_dir: bool,
    wrap: Option<Seq<char>>,
) -> Seq<(Seq<char>, bool, Seq<Seq<char>>)>
    decreases pairs.len(),
{
    if pairs.len() == 0 {
        Seq::empty()
    } else if pairs.last().1.len() == 0 {
        planned(pairs.drop_last(), is_dir, wrap)
    } else {
        planned(pairs.drop_last(), is_dir, wrap).push(
            (archive_name(wrap, pairs.last().1), is_dir, pairs.last().0),
        )
    }
}

/// All entries of the archive of a collected scan: its directories, then
/// its files.
pub open spec fn planned_all(c: FileCollector, wrap: Option<Seq<char>>) -> Seq<
    (Seq<char>, bool, Seq<Seq<char>>),
> {
    planned(split_pairs(comps(c.base_dir@), path_list(c.dirs@)), true, wrap) + planned(
        split_pairs(comps(c.base_dir@), path_list(c.files@)),
        false,
        wrap,
    )
}

/// One entry to write: its name in the archive, whether it is a directory,
/// and the path its contents and metadata come from.
pub struct ArchiveEntry {
    pub name: String,
    pub is_dir: bool,
    pub source: Vec<String>,
}

/// The views of a list of archive entries.
pub open spec fn entry_list(v: Seq<ArchiveEntry>) -> Seq<(Seq<char>, bool, Seq<Seq<char>>)> {
    v.map_values(|e: ArchiveEntry| (e.name@, e.is_dir, comps(e.source@)))
}

/// The entries of an archive, in the order they are written, with the
/// number of directories and of files among them.
pub struct ArchivePlan {
    pub entries: Vec<ArchiveEntry>,
    pub dirs_count: usize,
    pub files_count: usize,
}

/// The archive name of a relative path.
pub fn entry_name(wrap: &Option<String>, rel: &Vec<String>) -> (r: String)
    ensures
        r@ == archive_name(wrap_view(*wrap), comps(rel@)),
{
    let mut name = match wrap {
        Some(w) => {
            let mut n = w.clone();
            proof {
                reveal_strlit("/");
            }
            n.append("/");
            n
        },
        None => String::new(),
    };
    let ghost start = name@;
    let mut i: usize = 0;
    while i < rel.len()
        invariant
            i <= rel.len(),
            name@ == start + joined(comps(rel@).take(i as int)),
        decreases rel.len() - i,
    {
        proof {
            assert(comps(rel@).take(i + 1).drop_last() =~= comps(rel@).take(i as int));
        }
        if i > 0 {
            proof {
                reveal_strlit("/");
            }
            name.append("/");
        }
        name.append(rel[i].as_str());
        proof {
            if i == 0 {
                assert(joined(comps(rel@).take(0)) =~= Seq::<char>::empty());
            }
            assert(name@ =~= start + joined(comps(rel@).take(i + 1)));
        }
        i = i + 1;
    }
    proof {
        assert(comps(rel@).take(i as int) =~= comps(rel@));
    }
    name
}

fn plan_pairs(
    pairs: &Vec<(Vec<String>, Vec<String>)>,
    is_dir: bool,
    wrap: &Option<String>,
    out: &mut Vec<ArchiveEntry>,
) -> (added: usize)
    ensures
        entry_list(final(out)@) == entry_list(old(out)@) + planned(
            pair_list(pairs@),
            is_dir,
            wrap_view(*wrap),
        ),
        added == planned(pair_list(pairs@), is_dir, wrap_view(*wrap)).len(),
{
    let ghost start = entry_list(out@);
    let mut added: usize = 0;
    let mut i: usize = 0;
    while i < pairs.len()
        invariant
            i <= pairs.len(),
            entry_list(out@) == start + planned(
                pair_list(pairs@).take(i as int),
                is_dir,
                wrap_view(*wrap),
            ),
            added == planned(pair_list(pairs@).take(i as int), is_dir, wrap_view(*wrap)).len(),
            added <= i,
        decreases pairs.len() - i,
    {
        proof {
            assert(pair_list(pairs@).take(i + 1).drop_last() =~= pair_list(pairs@).take(i as int));
        }
        let (abs, rel) = &pairs[i];
        if rel.len() > 0 {
            let name = entry_name(wrap, rel);
            let source = copy_path(abs);
            let ghost prev = out@;
            out.push(ArchiveEntry { name, is_dir, source });
            added = added + 1;
            proof {
                assert(entry_list(out@) =~= entry_list(prev).push(
                    (name@, is_dir, comps(abs@)),
                ));
            }
        }
        proof {
            assert(entry_list(out@) =~= start + planned(
                pair_list(pairs@).take(i + 1),
                is_dir,
                wrap_view(*wrap),
            ));
        }
        i = i + 1;
    }
    proof {
        assert(pair_list(pairs@).take(i as int) =~= pair_list(pairs@));
    }
    added
}

proof fn lemma_planned_kind(
    pairs: Seq<(Seq<Seq<char>>, Seq<Seq<char>>)>,
    is_dir: bool,
    wrap: Option<Seq<char>>,
)
    ensures
        forall|k: int|
            0 <= k < planned(pairs, is_dir, wrap).len() ==> (#[trigger] planned(
                pairs,
                is_dir,
                wrap,
            )[k]).1 == is_dir,
    decreases pairs.len(),
{
    if pairs.len() > 0 {
        lemma_planned_kind(pairs.drop_last(), is_dir, wrap);
        let prev = planned(pairs.drop_last(), is_dir, wrap);
        assert forall|k: int| 0 <= k < planned(pairs, is_dir, wrap).len() implies (#[trigger] planned(
            pairs,
            is_dir,
            wrap,
        )[k]).1 == is_dir by {
            if k < prev.len() {
                assert(prev[k].1 == is_dir);
            }
        }
    }
}

/// In every archive, all directory entries come before the first file entry.
pub proof fn lemma_dirs_before_files(c: FileCollector, wrap: Option<Seq<char>>)
    ensures
        forall|i: int, j: int|
            0 <= i < j < planned_all(c, wrap).len() && (#[trigger] planned_all(c, wrap)[j]).1
                ==> (#[trigger] planned_all(c, wrap)[i]).1,
{
    let d = planned(split_pairs(comps(c.base_dir@), path_list(c.dirs@)), true, wrap);
    let f = planned(split_pairs(comps(c.base_dir@), path_list(c.files@)), false, wrap);
    lemma_planned_kind(split_pairs(comps(c.base_dir@), path_list(c.dirs@)), true, wrap);
    lemma_planned_kind(split_pairs(comps(c.base_dir@), path_list(c.files@)), false, wrap);
    assert forall|i: int, j: int|
        0 <= i < j < planned_all(c, wrap).len() && (#[trigger] planned_all(c, wrap)[j]).1
            implies (#[trigger] planned_all(c, wrap)[i]).1 by {
        if j >= d.len() {
            assert(planned_all(c, wrap)[j] == f[j - d.len()]);
        }
        assert(planned_all(c, wrap)[i] == d[i]);
    }
}

proof fn lemma_wrap_pairs(
    pairs: Seq<(Seq<Seq<char>>, Seq<Seq<char>>)>,
    is_dir: bool,
    w: Seq<char>,
)
    ensures
        planned(pairs, is_dir, Some(w)).len() == planned(pairs, is_dir, None).len(),
        forall|k: int|
            0 <= k < planned(pairs, is_dir, None).len() ==> (#[trigger] planned(
                pairs,
                is_dir,
                Some(w),
            )[k]) == (w + seq!['/'] + planned(pairs, is_dir, None)[k].0, planned(
                pairs,
                is_dir,
                None,
            )[k].1, planned(pairs, is_dir, None)[k].2),
    decreases pairs.len(),
{
    if pairs.len() > 0 {
        lemma_wrap_pairs(pairs.drop_last(), is_dir, w);
    }
}

/// Wrapping puts the wrap name and a `/` in front of every entry name, and
/// changes nothing else: not the entries, their order, kinds or sources.
pub proof fn lemma_wrap_prefixes_names(c: FileCollector, w: Seq<char>)
    ensures
        planned_all(c, Some(w)).len() == planned_all(c, None).len(),
        forall|k: int|
            0 <= k < planned_all(c, None).len() ==> (#[trigger] planned_all(c, Some(w))[k]) == (
            w + seq!['/'] + planned_all(c, None)[k].0,
            planned_all(c, None)[k].1,
            planned_all(c, None)[k].2,
        ),
        forall|k: int|
            0 <= k < planned_all(c, None).len() ==> (#[trigger] planned_all(c, None)[k]).0
                == joined(
                if k < planned(
                    split_pairs(comps(c.base_dir@), path_list(c.dirs@)),
                    true,
                    None,
                ).len() {
                    planned_rel(split_pairs(comps(c.base_dir@), path_list(c.dirs@)))[k]
                } else {
                    planned_rel(split_pairs(comps(c.base_dir@), path_list(c.files@)))[k
                        - planned(
                        split_pairs(comps(c.base_dir@), path_list(c.dirs@)),
                        true,
                        None,
                    ).len()]
                },
            ),
{
    let dp = split_pairs(comps(c.base_dir@), path_list(c.dirs@));
    let fp = split_pairs(comps(c.base_dir@), path_list(c.files@));
    lemma_wrap_pairs(dp, true, w);
    lemma_wrap_pairs(fp, false, w);
    lemma_planned_names(dp, true, None);
    lemma_planned_names(fp, false, None);
    let d = planned(dp, true, None);
    assert forall|k: int| 0 <= k < planned_all(c, None).len() implies (#[trigger] planned_all(
        c,
        Some(w),
    )[k]) == (w + seq!['/'] + planned_all(c, None)[k].0, planned_all(c, None)[k].1, planned_all(
        c,
        None,
    )[k].2) by {
        if k < d.len() {
            assert(planned_all(c, Some(w))[k] == planned(dp, true, Some(w))[k]);
        } else {
            assert(planned_all(c, Some(w))[k] == planned(fp, false, Some(w))[k - d.len()]);
        }
    }
}

/// The relative paths that get an entry, in order: all but empty ones.
pub open spec fn planned_rel(pairs: Seq<(Seq<Seq<char>>, Seq<Seq<char>>)>) -> Seq<Seq<Seq<char>>>
    decreases pairs.len(),
{
    if pairs.len() == 0 {
        Seq::empty()
    } else if pairs.last().1.len() == 0 {
        planned_rel(pairs.drop_last())
    } else {
        planned_rel(pairs.drop_last()).push(pairs.last().1)
    }
}

/// Each planned entry is named by its relative path, as wrapping says: the
/// `k`-th entry planned for some pairs carries the `k`-th non-empty
/// relative path among them.
pub proof fn lemma_planned_names(
    pairs: Seq<(Seq<Seq<char>>, Seq<Seq<char>>)>,
    is_dir: bool,
    wrap: Option<Seq<char>>,
)
    ensures
        planned(pairs, is_dir, wrap).len() == planned_rel(pairs).len(),
        forall|k: int|
            0 <= k < planned_rel(pairs).len() ==> (#[trigger] planned(pairs, is_dir, wrap)[k]).0
                == archive_name(wrap, planned_rel(pairs)[k]) && planned(pairs, is_dir, wrap)[k].1
                == is_dir,
    decreases pairs.len(),
{
    if pairs.len() > 0 {
        lemma_planned_names(pairs.drop_last(), is_dir, wrap);
    }
}

/// A scan that found nothing under its root renders no lines and plans an
/// archive with no entries, no directories and no files.
pub proof fn lemma_empty_scan(items: Seq<FileWrapper>, c: FileCollector, wrap: Option<Seq<char>>)
    requires
        forall|k: int| 0 <= k < items.len() ==> (#[trigger] items[k]).depth == 0,
        c.files.len() == 0,
        forall|k: int|
            0 <= k < c.dirs.len() ==> comps((#[trigger] c.dirs@[k])@) == comps(c.base_dir@),
    ensures
        rendered(items).len() == 0,
        planned(split_pairs(comps(c.base_dir@), path_list(c.dirs@)), true, wrap).len() == 0,
        planned(split_pairs(comps(c.base_dir@), path_list(c.files@)), false, wrap).len() == 0,
        planned_all(c, wrap).len() == 0,
{
    lemma_no_rows(items);
    let dp = split_pairs(comps(c.base_dir@), path_list(c.dirs@));
    assert forall|k: int| 0 <= k < dp.len() implies (#[trigger] dp[k]).1.len() == 0 by {
        assert(path_list(c.dirs@)[k] == comps(c.base_dir@));
    }
    lemma_no_named(dp, true, wrap);
    lemma_no_named(split_pairs(comps(c.base_dir@), path_list(c.files@)), false, wrap);
}

proof fn lemma_no_rows(items: Seq<FileWrapper>)
    requires
        forall|k: int| 0 <= k < items.len() ==> (#[trigger] items[k]).depth == 0,
    ensures
        rendered(items).len() == 0,
    decreases items.len(),
{
    if items.len() > 0 {
        lemma_no_rows(items.drop_last());
    }
}

proof fn lemma_no_named(
    pairs: Seq<(Seq<Seq<char>>, Seq<Seq<char>>)>,
    is_dir: bool,
    wrap: Option<Seq<char>>,
)
    requires
        forall|k: int| 0 <= k < pairs.len() ==> (#[trigger] pairs[k]).1.len() == 0,
    ensures
        planned(pairs, is_dir, wrap).len() == 0,
    decreases pairs.len(),
{
    if pairs.len() > 0 {
        lemma_no_named(pairs.drop_last(), is_dir, wrap);
    }
}

impl ArchivePlan {
    /// Plans the archive of a collected scan: one entry per directory but
    /// the scan root, then one per file, each named by its relative path,
    /// under `wrap` where that is given.
    pub fn new(collector: &FileCollector, wrap: &Option<String>) -> (r: ArchivePlan)
        requires
            collector.wf(),
        ensures
            entry_list(r.entries@) == planned_all(*collector, wrap_view(*wrap)),
            r.dirs_count == planned(
                split_pairs(comps(collector.base_dir@), path_list(collector.dirs@)),
                true,
                wrap_view(*wrap),
            ).len(),
            r.files_count == planned(
                split_pairs(comps(collector.base_dir@), path_list(collector.files@)),
                false,
                wrap_view(*wrap),
            ).len(),
            r.entries.len() == r.dirs_count + r.files_count,
            r.dirs_count == planned_rel(
                split_pairs(comps(collector.base_dir@), path_list(collector.dirs@)),
            ).len(),
            r.files_count == planned_rel(
                split_pairs(comps(collector.base_dir@), path_list(collector.files@)),
            ).len(),
            forall|k: int|
                0 <= k < r.dirs_count ==> (#[trigger] r.entries@[k]).is_dir && r.entries@[k].name@
                    == archive_name(
                    wrap_view(*wrap),
                    planned_rel(
                        split_pairs(comps(collector.base_dir@), path_list(collector.dirs@)),
                    )[k],
                ),
            forall|k: int|
                r.dirs_count <= k < r.entries.len() ==> !(#[trigger] r.entries@[k]).is_dir
                    && r.entries@[k].name@ == archive_name(
                    wrap_view(*wrap),
                    planned_rel(
                        split_pairs(comps(collector.base_dir@), path_list(collector.files@)),
                    )[k - r.dirs_count],
                ),
    {
        let dirs = collector.dirs();
        let files = collector.files();
        let mut entries: Vec<ArchiveEntry> = Vec::new();
        let dirs_count = plan_pairs(&dirs, true, wrap, &mut entries);
        let files_count = plan_pairs(&files, false, wrap, &mut entries);
        proof {
            let dp = split_pairs(comps(collector.base_dir@), path_list(collector.dirs@));
            let fp = split_pairs(comps(collector.base_dir@), path_list(collector.files@));
            lemma_planned_names(dp, true, wrap_view(*wrap));
            lemma_planned_names(fp, false, wrap_view(*wrap));
            assert(entry_list(entries@) =~= planned_all(*collector, wrap_view(*wrap)));
            assert forall|k: int| 0 <= k < dirs_count implies (#[trigger] entries@[k]).is_dir
                && entries@[k].name@ == archive_name(wrap_view(*wrap), planned_rel(dp)[k]) by {
                assert(entry_list(entries@)[k] == planned(dp, true, wrap_view(*wrap))[k]);
            }
            assert forall|k: int| dirs_count <= k < entries.len() implies !(
            #[trigger] entries@[k]).is_dir && entries@[k].name@ == archive_name(
                wrap_view(*wrap),
                planned_rel(fp)[k - dirs_count],
            ) by {
                assert(entry_list(entries@)[k] == planned(fp, false, wrap_view(*wrap))[k
                    - dirs_count]);
            }
        }
        ArchivePlan { entries, dirs_count, files_count }
    }
}

} // verus!
