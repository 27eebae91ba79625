//! Paths as sequences of components.
//!
//! A path is held as the list of its components: `"."` for the current
//! directory, `"/"` for the root of an absolute path, and each name otherwise.
use vstd::prelude::*;

verus! {

/// The components of a path, as character sequences.
pub open spec fn comps(p: Seq<String>) -> Seq<Seq<char>> {
    p.map_values(|c: String| c@)
}

/// Whether a path is absolute: it starts at the root component `"/"`.
pub open spec fn is_rooted(p: Seq<Seq<char>>) -> bool {
    p.len() > 0 && p[0] == seq!['/']
}

/// Whether `a` is an ancestor of `p` (a path is its own first ancestor).
///
/// The ancestors of a path are its prefixes, ending with the root for an
/// absolute path and with the empty path for a relative one.
pub open spec fn is_ancestor(a: Seq<Seq<char>>, p: Seq<Seq<char>>) -> bool {
    &&& a.len() <= p.len()
    &&& p.subrange(0, a.len() as int) == a
    &&& (a.len() > 0 || !is_rooted(p))
}

/// Whether a path has a parent: it is not empty and not the bare root.
pub open spec fn has_parent(p: Seq<Seq<char>>) -> bool {
    p.len() > 0 && !(p.len() == 1 && is_rooted(p))
}

/// The parent of a path that has one: all components but the last.
pub open spec fn parent_of(p: Seq<Seq<char>>) -> Seq<Seq<char>> {
    p.drop_last()
}

/// Whether the first `n` components of `a` and `b` agree.
pub(crate) fn same_prefix(a: &Vec<String>, b: &Vec<String>, n: usize) -> (r: bool)
    requires
        n <= a.len(),
        n <= b.len(),
    ensures
        r == (comps(a@).subrange(0, n as int) == comps(b@).subrange(0, n as int)),
{
    let mut i: usize = 0;
    while i < n
        invariant
            n <= a.len(),
            n <= b.len(),
            i <= n,
            forall|k: int| 0 <= k < i ==> a@[k]@ == b@[k]@,
        decreases n - i,
    {
        if a[i] != b[i] {
            proof {
                assert(comps(a@).subrange(0, n as int)[i as int] != comps(b@).subrange(
                    0,
                    n as int,
                )[i as int]);
            }
            return false;
        }
        i = i + 1;
    }
    proof {
        assert(comps(a@).subrange(0, n as int) =~= comps(b@).subrange(0, n as int));
    }
    true
}

/// Whether a component list starts at the root.
pub(crate) fn rooted(p: &Vec<String>) -> (r: bool)
    ensures
        r == is_rooted(comps(p@)),
{
    if p.len() == 0 {
        return false;
    }
    let root = String::from_str("/");
    proof {
        reveal_strlit("/");
        assert(root@ =~= seq!['/']);
    }
    p[0] == root
}

/// How many steps up from `path` lead to `base`: the position of `base`
/// among the ancestors of `path`, or `None` where it is not one of them.
pub fn relative_to(base: &Vec<String>, path: &Vec<String>) -> (r: Option<usize>)
    ensures
        r is Some <==> is_ancestor(comps(base@), comps(path@)),
        r is Some ==> r->0 == path.len() - base.len(),
{
    if base.len() > path.len() {
        return None;
    }
    if base.len() == 0 && rooted(path) {
        return None;
    }
    if same_prefix(base, path, base.len()) {
        proof {
            assert(comps(base@).subrange(0, base.len() as int) =~= comps(base@));
        }
        Some(path.len() - base.len())
    } else {
        proof {
            assert(comps(base@).subrange(0, base.len() as int) =~= comps(base@));
        }
        None
    }
}

/// Whether `p` lies under `base`: `base` is a leading part of it.
pub open spec fn is_under(base: Seq<Seq<char>>, p: Seq<Seq<char>>) -> bool {
    base.len() <= p.len() && p.take(base.len() as int) == base
}

/// The components of `p` from position `from` on.
pub fn tail_from(p: &Vec<String>, from: usize) -> (r: Vec<String>)
    requires
        from <= p.len(),
    ensures
        comps(r@) == comps(p@).skip(from as int),
{
    let mut r: Vec<String> = Vec::new();
    let mut i: usize = from;
    while i < p.len()
        invariant
            from <= i <= p.len(),
            comps(r@) == comps(p@).subrange(from as int, i as int),
        decreases p.len() - i,
    {
        let ghost prev = r@;
        let c = p[i].clone();
        r.push(c);
        proof {
            assert(r@ == prev.push(p@[i as int]));
            assert(comps(r@) =~= comps(prev).push(comps(p@)[i as int]));
            assert(comps(r@) =~= comps(p@).subrange(from as int, i + 1));
        }
        i = i + 1;
    }
    proof {
        assert(comps(p@).subrange(from as int, i as int) =~= comps(p@).skip(from as int));
    }
    r
}

/// A copy of a path.
pub fn copy_path(p: &Vec<String>) -> (r: Vec<String>)
    ensures
        comps(r@) == comps(p@),
{
    let r = tail_from(p, 0);
    proof {
        assert(comps(p@).skip(0) =~= comps(p@));
    }
    r
}

} // verus!
