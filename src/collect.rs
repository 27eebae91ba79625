//! The walked entries of a scan root, split into directories and files.
use vstd::prelude::*;
use crate::path::{comps, copy_path, is_under, tail_from};

verus! {

/// The directories among walked `(path, is_dir)` pairs, in walk order.
pub open spec fn dirs_of(w: Seq<(Vec<String>, bool)>) -> Seq<Seq<Seq<char>>>
    decreases w.len(),
{
    if w.len() == 0 {
        Seq::empty()
    } else if w.last().1 {
        dirs_of(w.drop_last()).push(comps(w.last().0@))
    } else {
        dirs_of(w.drop_last())
    }
}

/// The files among walked `(path, is_dir)` pairs, in walk order.
pub open spec fn files_of(w: Seq<(Vec<String>, bool)>) -> Seq<Seq<Seq<char>>>
    decreases w.len(),
{
    if w.len() == 0 {
        Seq::empty()
    } else if w.last().1 {
        files_of(w.drop_last())
    } else {
        files_of(w.drop_last()).push(comps(w.last().0@))
    }
}

/// The paths of a list of paths.
pub open spec fn path_list(v: Seq<Vec<String>>) -> Seq<Seq<Seq<char>>> {
    v.map_values(|p: Vec<String>| comps(p@))
}

/// `(absolute, relative)` pairs: each path, and its part below `base`.
pub open spec fn split_pairs(base: Seq<Seq<char>>, ps: Seq<Seq<Seq<char>>>) -> Seq<
    (Seq<Seq<char>>, Seq<Seq<char>>),
> {
    ps.map_values(|p: Seq<Seq<char>>| (p, p.skip(base.len() as int)))
}

/// The views of a list of `(absolute, relative)` pairs.
pub open spec fn pair_list(v: Seq<(Vec<String>, Vec<String>)>) -> Seq<
    (Seq<Seq<char>>, Seq<Seq<char>>),
> {
    v.map_values(|e: (Vec<String>, Vec<String>)| (comps(e.0@), comps(e.1@)))
}

/// The directories and files found under a scan root, in walk order.
pub struct FileCollector {
    pub base_dir: Vec<String>,
    pub files: Vec<Vec<String>>,
    pub dirs: Vec<Vec<String>>,
}

impl FileCollector {
    /// Every collected path lies under the scan root.
    pub open spec fn wf(&self) -> bool {
        &&& forall|k: int|
            0 <= k < self.files.len() ==> is_under(
                comps(self.base_dir@),
                comps((#[trigger] self.files@[k])@),
            )
        &&& forall|k: int|
            0 <= k < self.dirs.len() ==> is_under(
                comps(self.base_dir@),
                comps((#[trigger] self.dirs@[k])@),
            )
    }

    /// Collects the walked `(path, is_dir)` pairs of the root `directory`.
    pub fn new(directory: Vec<String>, walked: Vec<(Vec<String>, bool)>) -> (r: FileCollector)
        requires
            forall|k: int|
                0 <= k < walked.len() ==> is_under(
                    comps(directory@),
                    comps((#[trigger] walked@[k]).0@),
                ),
        ensures
            r.wf(),
            comps(r.base_dir@) == comps(directory@),
            path_list(r.dirs@) == dirs_of(walked@),
            path_list(r.files@) == files_of(walked@),
    {
        let mut files: Vec<Vec<String>> = Vec::new();
        let mut dirs: Vec<Vec<String>> = Vec::new();
        let mut i: usize = 0;
        while i < walked.len()
            invariant
                i <= walked.len(),
                forall|k: int|
                    0 <= k < walked.len() ==> is_under(
                        comps(directory@),
                        comps((#[trigger] walked@[k]).0@),
                    ),
                path_list(dirs@) == dirs_of(walked@.take(i as int)),
                path_list(files@) == files_of(walked@.take(i as int)),
                forall|k: int|
                    0 <= k < files.len() ==> is_under(
                        comps(directory@),
                        comps((#[trigger] files@[k])@),
                    ),
                forall|k: int|
                    0 <= k < dirs.len() ==> is_under(
                        comps(directory@),
                        comps((#[trigger] dirs@[k])@),
                    ),
            decreases walked.len() - i,
        {
            proof {
                assert(walked@.take(i + 1).drop_last() =~= walked@.take(i as int));
            }
            let p = copy_path(&walked[i].0);
            if walked[i].1 {
                dirs.push(p);
            } else {
                files.push(p);
            }
            proof {
                assert(path_list(dirs@) =~= dirs_of(walked@.take(i + 1)));
                assert(path_list(files@) =~= files_of(walked@.take(i + 1)));
            }
            i = i + 1;
        }
        proof {
            assert(walked@.take(i as int) =~= walked@);
        }
        FileCollector { base_dir: directory, files, dirs }
    }

    /// The directories, as `(absolute, relative)` pairs in walk order.
    pub fn dirs(&self) -> (r: Vec<(Vec<String>, Vec<String>)>)
        requires
            self.wf(),
        ensures
            pair_list(r@) == split_pairs(comps(self.base_dir@), path_list(self.dirs@)),
    {
        split_all(&self.base_dir, &self.dirs)
    }

    /// The files, as `(absolute, relative)` pairs in walk order.
    pub fn files(&self) -> (r: Vec<(Vec<String>, Vec<String>)>)
        requires
            self.wf(),
        ensures
            pair_list(r@) == split_pairs(comps(self.base_dir@), path_list(self.files@)),
    {
        split_all(&self.base_dir, &self.files)
    }
}

fn split_all(base: &Vec<String>, ps: &Vec<Vec<String>>) -> (r: Vec<(Vec<String>, Vec<String>)>)
    requires
        forall|k: int| 0 <= k < ps.len() ==> is_under(comps(base@), comps((#[trigger] ps@[k])@)),
    ensures
        pair_list(r@) == split_pairs(comps(base@), path_list(ps@)),
{
    let mut r: Vec<(Vec<String>, Vec<String>)> = Vec::new();
    let mut i: usize = 0;
    while i < ps.len()
        invariant
            i <= ps.len(),
            forall|k: int|
                0 <= k < ps.len() ==> is_under(comps(base@), comps((#[trigger] ps@[k])@)),
            pair_list(r@) == split_pairs(comps(base@), path_list(ps@)).take(i as int),
        decreases ps.len() - i,
    {
        let p = &ps[i];
        proof {
            assert(is_under(comps(base@), comps(ps@[i as int]@)));
        }
        let rel = tail_from(p, base.len());
        let abs = copy_path(p);
        let ghost prev = r@;
        r.push((abs, rel));
        proof {
            assert(pair_list(r@) =~= pair_list(prev).push((comps(ps@[i as int]@), comps(ps@[i as int]@).skip(base.len() as int))));
            assert(pair_list(r@) =~= split_pairs(comps(base@), path_list(ps@)).take(i + 1));
        }
        i = i + 1;
    }
    proof {
        assert(split_pairs(comps(base@), path_list(ps@)).take(i as int) =~= split_pairs(
            comps(base@),
            path_list(ps@),
        ));
    }
    r
}

} // verus!
