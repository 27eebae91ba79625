//! Sibling annotation of a walked entry stream, and its rendering as ASCII
//! tree art.
use vstd::prelude::*;
use crate::path::{comps, has_parent, parent_of};

verus! {

/// One walked entry: its depth below the scan root, whether it is the last
/// entry seen under its parent, and its path.
pub struct FileWrapper {
    pub depth: usize,
    pub is_last: bool,
    pub path: Vec<String>,
}

impl FileWrapper {
    pub fn new(depth: usize, is_last: bool, path: Vec<String>) -> (r: FileWrapper)
        ensures
            r.depth == depth,
            r.is_last == is_last,
            r.path == path,
    {
        FileWrapper { depth, is_last, path }
    }
}

/// Whether two paths share their immediate parent.
pub open spec fn siblings(p: Seq<Seq<char>>, q: Seq<Seq<char>>) -> bool {
    has_parent(p) && has_parent(q) && parent_of(p) == parent_of(q)
}

/// Whether the `i`-th path is the last one, in stream order, under its parent.
pub open spec fn is_last_among(ps: Seq<Seq<Seq<char>>>, i: int) -> bool {
    &&& has_parent(ps[i])
    &&& forall|j: int| i < j < ps.len() ==> !siblings(#[trigger] ps[j], ps[i])
}

/// The paths of a stream of walked `(depth, path)` pairs.
pub open spec fn entry_paths(es: Seq<(usize, Vec<String>)>) -> Seq<Seq<Seq<char>>> {
    es.map_values(|e: (usize, Vec<String>)| comps(e.1@))
}

/// The paths of a stream of annotated entries.
pub open spec fn item_paths(items: Seq<FileWrapper>) -> Seq<Seq<Seq<char>>> {
    items.map_values(|w: FileWrapper| comps(w.path@))
}

/// Whether each entry's flag says exactly whether it is its parent's last child.
pub open spec fn annotated(items: Seq<FileWrapper>) -> bool {
    forall|k: int| 0 <= k < items.len() ==> (#[trigger] items[k]).is_last == is_last_among(item_paths(items), k)
}

proof fn lemma_last_exists(ps: Seq<Seq<Seq<char>>>, i: int) -> (j: int)
    requires
        0 <= i < ps.len(),
        has_parent(ps[i]),
    ensures
        i <= j < ps.len(),
        siblings(ps[j], ps[i]),
        is_last_among(ps, j),
    decreases ps.len() - i,
{
    if is_last_among(ps, i) {
        i
    } else {
        let k = choose|k: int| i < k < ps.len() && siblings(#[trigger] ps[k], ps[i]);
        lemma_last_exists(ps, k)
    }
}

/// In an annotated stream, every parent that has children has exactly one
/// child marked last.
pub proof fn lemma_one_last_sibling(items: Seq<FileWrapper>, i: int)
    requires
        annotated(items),
        0 <= i < items.len(),
        has_parent(item_paths(items)[i]),
    ensures
        exists|j: int|
            0 <= j < items.len() && siblings(item_paths(items)[j], item_paths(items)[i])
                && (#[trigger] items[j]).is_last,
        forall|j1: int, j2: int|
            0 <= j1 < items.len() && 0 <= j2 < items.len() && siblings(
                item_paths(items)[j1],
                item_paths(items)[i],
            ) && siblings(item_paths(items)[j2], item_paths(items)[i]) && (#[trigger] items[j1]).is_last
                && (#[trigger] items[j2]).is_last ==> j1 == j2,
{
    let ps = item_paths(items);
    let j = lemma_last_exists(ps, i);
    assert(items[j].is_last);
    assert forall|j1: int, j2: int|
        0 <= j1 < items.len() && 0 <= j2 < items.len() && siblings(ps[j1], ps[i]) && siblings(
            ps[j2],
            ps[i],
        ) && (#[trigger] items[j1]).is_last && (#[trigger] items[j2]).is_last implies j1 == j2 by {
        assert(is_last_among(ps, j1));
        assert(is_last_among(ps, j2));
        if j1 < j2 {
            assert(!siblings(ps[j2], ps[j1]));
        } else if j2 < j1 {
            assert(!siblings(ps[j1], ps[j2]));
        }
    }
}

fn siblings_exec(a: &Vec<String>, b: &Vec<String>) -> (r: bool)
    ensures
        r == siblings(comps(a@), comps(b@)),
{
    let pa = a.len() > 0 && !(a.len() == 1 && crate::path::rooted(a));
    let pb = b.len() > 0 && !(b.len() == 1 && crate::path::rooted(b));
    if !pa || !pb || a.len() != b.len() {
        proof {
            if pa && pb {
                assert(parent_of(comps(a@)).len() != parent_of(comps(b@)).len());
            }
        }
        return false;
    }
    let r = crate::path::same_prefix(a, b, a.len() - 1);
    proof {
        assert(parent_of(comps(a@)) =~= comps(a@).subrange(0, a.len() - 1));
        assert(parent_of(comps(b@)) =~= comps(b@).subrange(0, b.len() - 1));
    }
    r
}

/// Every parent that has children has exactly one child marked last.
pub open spec fn one_last_per_parent(items: Seq<FileWrapper>) -> bool {
    &&& forall|i: int|
        0 <= i < items.len() && has_parent(#[trigger] item_paths(items)[i]) ==> exists|j: int|
            0 <= j < items.len() && siblings(item_paths(items)[j], item_paths(items)[i])
                && (#[trigger] items[j]).is_last
    &&& forall|i: int, j1: int, j2: int|
        0 <= i < items.len() && 0 <= j1 < items.len() && 0 <= j2 < items.len() && has_parent(
            #[trigger] item_paths(items)[i],
        ) && siblings(item_paths(items)[j1], item_paths(items)[i]) && siblings(
            item_paths(items)[j2],
            item_paths(items)[i],
        ) && (#[trigger] items[j1]).is_last && (#[trigger] items[j2]).is_last ==> j1 == j2
}

/// An annotated stream marks exactly one child of each parent as last.
pub proof fn lemma_annotated_one_last(items: Seq<FileWrapper>)
    requires
        annotated(items),
    ensures
        one_last_per_parent(items),
{
    assert forall|i: int|
        0 <= i < items.len() && has_parent(#[trigger] item_paths(items)[i]) implies exists|j: int|
        0 <= j < items.len() && siblings(item_paths(items)[j], item_paths(items)[i])
            && (#[trigger] items[j]).is_last by {
        lemma_one_last_sibling(items, i);
    }
    assert forall|i: int, j1: int, j2: int|
        0 <= i < items.len() && 0 <= j1 < items.len() && 0 <= j2 < items.len() && has_parent(
            #[trigger] item_paths(items)[i],
        ) && siblings(item_paths(items)[j1], item_paths(items)[i]) && siblings(
            item_paths(items)[j2],
            item_paths(items)[i],
        ) && (#[trigger] items[j1]).is_last && (#[trigger] items[j2]).is_last implies j1 == j2 by {
        lemma_one_last_sibling(items, i);
    }
}

/// An entry stream annotated with the last-sibling flags.
pub struct FileStream {
    pub items: Vec<FileWrapper>,
}

impl FileStream {
    /// Annotates the walked `(depth, path)` pairs, in walk order: an entry is
    /// marked last exactly when no later entry has the same parent.
    pub fn from_entries(entries: Vec<(usize, Vec<String>)>) -> (r: FileStream)
        ensures
            r.items.len() == entries.len(),
            forall|k: int|
                0 <= k < entries.len() ==> {
                    &&& (#[trigger] r.items@[k]).depth == entries@[k].0
                    &&& comps(r.items@[k].path@) == comps(entries@[k].1@)
                    &&& r.items@[k].is_last == is_last_among(entry_paths(entries@), k)
                },
            item_paths(r.items@) == entry_paths(entries@),
            annotated(r.items@),
            one_last_per_parent(r.items@),
    {
        let ghost orig = entries@;
        let ghost ps = entry_paths(orig);
        let n = entries.len();
        let mut entries = entries;
        let mut rev: Vec<FileWrapper> = Vec::new();
        // Positions in `rev` of one entry for each parent already seen.
        let mut reps: Vec<usize> = Vec::new();
        let mut i = n;
        while i > 0
            invariant
                n == orig.len(),
                ps == entry_paths(orig),
                i <= n,
                entries@ == orig.take(i as int),
                rev@.len() == n - i,
                forall|t: int|
                    0 <= t < n - i ==> {
                        &&& (#[trigger] rev@[t]).depth == orig[n - 1 - t].0
                        &&& comps(rev@[t].path@) == ps[n - 1 - t]
                        &&& rev@[t].is_last == is_last_among(ps, n - 1 - t)
                    },
                forall|m: int| 0 <= m < reps.len() ==> #[trigger] reps@[m] < rev@.len(),
                forall|m: int| 0 <= m < reps.len() ==> has_parent(ps[n - 1 - #[trigger] reps@[m]]),
                forall|j: int|
                    i <= j < n && has_parent(#[trigger] ps[j]) ==> exists|m: int|
                        0 <= m < reps.len() && siblings(ps[n - 1 - reps@[m]], ps[j]),
            decreases i,
        {
            let e = entries.pop().unwrap();
            let idx = i - 1;
            proof {
                assert(orig.take(i as int).last() == orig[idx as int]);
                assert(entries@ == orig.take(idx as int));
                assert(ps[idx as int] == comps(e.1@));
            }
            let pe = e.1.len() > 0 && !(e.1.len() == 1 && crate::path::rooted(&e.1));
            let mut found = false;
            let mut m: usize = 0;
            while m < reps.len() && !found
                invariant
                    forall|q: int| 0 <= q < reps.len() ==> #[trigger] reps@[q] < rev@.len(),
                    m <= reps.len(),
                    found ==> exists|q: int|
                        0 <= q < reps.len() && siblings(ps[n - 1 - reps@[q]], comps(e.1@)),
                    !found ==> forall|q: int|
                        0 <= q < m ==> !siblings(ps[n - 1 - #[trigger] reps@[q]], comps(e.1@)),
                    forall|t: int|
                        0 <= t < rev@.len() ==> comps((#[trigger] rev@[t]).path@) == ps[n - 1 - t],
                decreases reps.len() - m + if found { 0int } else { 1int },
            {
                let r = reps[m];
                if siblings_exec(&rev[r].path, &e.1) {
                    found = true;
                } else {
                    m = m + 1;
                }
            }
            let last = pe && !found;
            proof {
                let ii = idx as int;
                if last {
                    assert forall|j: int| ii < j < n implies !siblings(#[trigger] ps[j], ps[ii]) by {
                        if siblings(ps[j], ps[ii]) {
                            let q = choose|q: int|
                                0 <= q < reps.len() && siblings(ps[n - 1 - reps@[q]], ps[j]);
                            assert(siblings(ps[n - 1 - reps@[q]], comps(e.1@)));
                        }
                    }
                } else if pe {
                    let q = choose|q: int|
                        0 <= q < reps.len() && siblings(ps[n - 1 - reps@[q]], comps(e.1@));
                    let j = n - 1 - reps@[q];
                    assert(ii < j < n && siblings(ps[j], ps[ii]));
                }
            }
            let ghost old_reps = reps@;
            if last {
                reps.push(rev.len());
            }
            rev.push(FileWrapper { depth: e.0, is_last: last, path: e.1 });
            proof {
                let ii = idx as int;
                assert forall|j: int|
                    idx <= j < n && has_parent(#[trigger] ps[j]) implies exists|q: int|
                        0 <= q < reps.len() && siblings(ps[n - 1 - reps@[q]], ps[j]) by {
                    if j == ii {
                        if last {
                            assert(reps@[reps.len() - 1] == n - 1 - ii);
                            assert(siblings(ps[n - 1 - reps@[reps.len() - 1]], ps[j]));
                        } else {
                            let q = choose|q: int|
                                0 <= q < old_reps.len() && siblings(
                                    ps[n - 1 - old_reps[q]],
                                    comps(e.1@),
                                );
                            assert(reps@[q] == old_reps[q]);
                        }
                    } else {
                        let q = choose|q: int|
                            0 <= q < old_reps.len() && siblings(ps[n - 1 - old_reps[q]], ps[j]);
                        assert(reps@[q] == old_reps[q]);
                    }
                }
            }
            i = idx;
        }
        let mut items: Vec<FileWrapper> = Vec::new();
        while rev.len() > 0
            invariant
                rev@.len() + items@.len() == n,
                forall|t: int|
                    0 <= t < rev@.len() ==> {
                        &&& (#[trigger] rev@[t]).depth == orig[n - 1 - t].0
                        &&& comps(rev@[t].path@) == ps[n - 1 - t]
                        &&& rev@[t].is_last == is_last_among(ps, n - 1 - t)
                    },
                forall|k: int|
                    0 <= k < items@.len() ==> {
                        &&& (#[trigger] items@[k]).depth == orig[k].0
                        &&& comps(items@[k].path@) == ps[k]
                        &&& items@[k].is_last == is_last_among(ps, k)
                    },
            decreases rev.len(),
        {
            let w = rev.pop().unwrap();
            items.push(w);
        }
        proof {
            assert forall|k: int| 0 <= k < n implies comps(orig[k].1@) == ps[k] by {}
            assert(item_paths(items@) =~= ps);
            lemma_annotated_one_last(items@);
        }
        FileStream { items }
    }

}

} // verus!
