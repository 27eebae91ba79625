//! Rendering of an annotated entry stream as ASCII tree art.
//!
//! The art is drawn by a stack machine over the entries' `(depth, is_last)`
//! pairs: one style per ancestor level, cut or padded at each row. A row
//! more than one level below the one before it is drawn as if the missing
//! ancestor levels were closed: blank, with no bar.
use vstd::prelude::*;
use crate::path::comps;
use crate::tree::{FileStream, FileWrapper};

verus! {

/// The art drawn for an ancestor level: blank where that ancestor was the
/// last of its siblings, a bar where more of them follow.
pub open spec fn level_art(closed: bool) -> Seq<char> {
    if closed {
        seq![' ', ' ', ' ', ' ']
    } else {
        seq!['│', ' ', ' ', ' ']
    }
}

/// The connector drawn in front of an entry's own name.
pub open spec fn branch_art(is_last: bool) -> Seq<char> {
    if is_last {
        seq!['└', '─', '─', ' ']
    } else {
        seq!['├', '─', '─', ' ']
    }
}

/// The art for a stack of ancestor styles, outermost first.
pub open spec fn trunk_art(s: Seq<bool>) -> Seq<char>
    decreases s.len(),
{
    if s.len() == 0 {
        Seq::empty()
    } else {
        trunk_art(s.drop_last()) + level_art(s.last())
    }
}

/// A stack cut, or padded with closed levels, to exactly `n` levels.
pub open spec fn fit(s: Seq<bool>, n: int) -> Seq<bool> {
    if s.len() >= n {
        s.take(n)
    } else {
        s + Seq::new((n - s.len()) as nat, |i: int| true)
    }
}

/// The `(depth, is_last)` sequence of a stream: all that its art depends on.
pub open spec fn shape(items: Seq<FileWrapper>) -> Seq<(int, bool)> {
    items.map_values(|w: FileWrapper| (w.depth as int, w.is_last))
}

/// The ancestor styles after the given rows: the root row clears them; a row
/// at depth `d` keeps `d - 1` levels above it and then adds its own.
pub open spec fn trunk(sh: Seq<(int, bool)>) -> Seq<bool>
    decreases sh.len(),
{
    if sh.len() == 0 {
        Seq::empty()
    } else if sh.last().0 <= 0 {
        Seq::empty()
    } else {
        fit(trunk(sh.drop_last()), sh.last().0 - 1).push(sh.last().1)
    }
}

/// The art in front of row `k`'s name.
pub open spec fn row_art(sh: Seq<(int, bool)>, k: int) -> Seq<char> {
    trunk_art(fit(trunk(sh.take(k)), sh[k].0 - 1)) + branch_art(sh[k].1)
}

/// The name shown for an entry: its last path component.
pub open spec fn display_name(p: Seq<Seq<char>>) -> Seq<char> {
    if p.len() == 0 {
        Seq::empty()
    } else {
        p.last()
    }
}

/// The lines of the listing: one for each entry but the root, its art
/// followed by its name.
pub open spec fn rendered(items: Seq<FileWrapper>) -> Seq<Seq<char>>
    decreases items.len(),
{
    if items.len() == 0 {
        Seq::empty()
    } else if items.last().depth == 0 {
        rendered(items.drop_last())
    } else {
        rendered(items.drop_last()).push(
            row_art(shape(items), items.len() - 1) + display_name(comps(items.last().path@)),
        )
    }
}

/// The character sequences of a list of strings.
pub open spec fn texts(v: Seq<String>) -> Seq<Seq<char>> {
    v.map_values(|s: String| s@)
}

/// The listing is a function of the entries' `(depth, is_last)` pairs and
/// shown names alone: two streams that agree on those render to the same
/// lines, whatever else their paths hold.
pub proof fn lemma_render_by_shape(a: Seq<FileWrapper>, b: Seq<FileWrapper>)
    requires
        shape(a) == shape(b),
        forall|k: int|
            0 <= k < a.len() ==> display_name(comps((#[trigger] a[k]).path@)) == display_name(
                comps(b[k].path@),
            ),
    ensures
        rendered(a) == rendered(b),
    decreases a.len(),
{
    assert(shape(a).len() == a.len() && shape(b).len() == b.len());
    if a.len() > 0 {
        let n = a.len() - 1;
        assert(shape(a.drop_last()) =~= shape(a).drop_last());
        assert(shape(b.drop_last()) =~= shape(b).drop_last());
        assert(shape(a)[n] == shape(b)[n]);
        lemma_render_by_shape(a.drop_last(), b.drop_last());
    }
}

/// Each line of the listing is the row of one entry below the root, so when
/// no entry lies deeper than `max_depth`, no line is drawn for a deeper one.
pub proof fn lemma_rows_within_depth(items: Seq<FileWrapper>, max_depth: nat)
    requires
        forall|k: int| 0 <= k < items.len() ==> (#[trigger] items[k]).depth <= max_depth,
    ensures
        forall|i: int|
            #![trigger rendered(items)[i]]
            0 <= i < rendered(items).len() ==> exists|k: int|
                0 <= k < items.len() && 1 <= (#[trigger] items[k]).depth <= max_depth
                    && rendered(items)[i] == row_art(shape(items), k) + display_name(
                    comps(items[k].path@),
                ),
    decreases items.len(),
{
    if items.len() > 0 {
        let prev = items.drop_last();
        let n = items.len() - 1;
        lemma_rows_within_depth(prev, max_depth);
        assert forall|i: int|
            #![trigger rendered(items)[i]]
            0 <= i < rendered(items).len() implies exists|k: int|
            0 <= k < items.len() && 1 <= (#[trigger] items[k]).depth <= max_depth
                && rendered(items)[i] == row_art(shape(items), k) + display_name(
                comps(items[k].path@),
            ) by {
            if i < rendered(prev).len() {
                let k = choose|k: int|
                    0 <= k < prev.len() && 1 <= (#[trigger] prev[k]).depth <= max_depth
                        && rendered(prev)[i] == row_art(shape(prev), k) + display_name(
                        comps(prev[k].path@),
                    );
                assert(shape(prev).take(k) =~= shape(items).take(k));
                assert(shape(prev)[k] == shape(items)[k]);
                assert(items[k] == prev[k]);
                assert(rendered(items)[i] == rendered(prev)[i]);
            } else {
                assert(items[n].depth >= 1);
                assert(rendered(items)[i] == row_art(shape(items), n) + display_name(
                    comps(items[n].path@),
                ));
            }
        }
    }
}

proof fn lemma_trunk_art_at(s: Seq<bool>, m: int)
    requires
        0 <= m < s.len(),
    ensures
        trunk_art(s).len() == 4 * s.len(),
        trunk_art(s).subrange(4 * m, 4 * m + 4) == level_art(s[m]),
    decreases s.len(),
{
    lemma_trunk_art_len(s);
    if m < s.len() - 1 {
        lemma_trunk_art_at(s.drop_last(), m);
        assert(trunk_art(s).subrange(4 * m, 4 * m + 4) =~= trunk_art(s.drop_last()).subrange(
            4 * m,
            4 * m + 4,
        ));
    } else {
        lemma_trunk_art_len(s.drop_last());
        assert(trunk_art(s).subrange(4 * m, 4 * m + 4) =~= level_art(s.last()));
    }
}

proof fn lemma_trunk_art_len(s: Seq<bool>)
    ensures
        trunk_art(s).len() == 4 * s.len(),
    decreases s.len(),
{
    if s.len() > 0 {
        lemma_trunk_art_len(s.drop_last());
    }
}

proof fn lemma_trunk_keeps(sh: Seq<(int, bool)>, j: int, k: int, i: int)
    requires
        0 <= j < i <= sh.len(),
        k >= 1,
        sh[j].0 == k,
        forall|m: int| j < m < i ==> (#[trigger] sh[m]).0 > k,
    ensures
        trunk(sh.take(i)).len() >= k,
        trunk(sh.take(i))[k - 1] == sh[j].1,
    decreases i - j,
{
    assert(sh.take(i).drop_last() =~= sh.take(i - 1));
    assert(sh.take(i).last() == sh[i - 1]);
    if i > j + 1 {
        lemma_trunk_keeps(sh, j, k, i - 1);
        assert(sh[i - 1].0 > k);
    }
}

/// In the row of entry `i`, the art at ancestor level `k` comes from the
/// nearest earlier entry at depth `k` (every entry between them lies
/// deeper): blank where that entry was its parent's last child, a bar
/// where more of its siblings follow.
pub proof fn lemma_level_art_from_ancestor(sh: Seq<(int, bool)>, i: int, j: int, k: int)
    requires
        0 <= j < i < sh.len(),
        1 <= k < sh[i].0,
        sh[j].0 == k,
        forall|m: int| j < m < i ==> (#[trigger] sh[m]).0 > k,
    ensures
        row_art(sh, i).subrange(4 * (k - 1), 4 * k) == level_art(sh[j].1),
{
    lemma_trunk_keeps(sh, j, k, i);
    let s = fit(trunk(sh.take(i)), sh[i].0 - 1);
    assert(s[k - 1] == sh[j].1);
    lemma_trunk_art_at(s, k - 1);
    assert(row_art(sh, i).subrange(4 * (k - 1), 4 * k) =~= trunk_art(s).subrange(
        4 * (k - 1),
        4 * (k - 1) + 4,
    ));
}

impl FileStream {
    /// The listing: one line per entry but the root, in stream order.
    pub fn render(&self) -> (r: Vec<String>)
        ensures
            texts(r@) == rendered(self.items@),
    {
        let ghost items = self.items@;
        let ghost sh = shape(items);
        let n = self.items.len();
        let mut lines: Vec<String> = Vec::new();
        let mut stack: Vec<bool> = Vec::new();
        let mut k: usize = 0;
        while k < n
            invariant
                n == items.len(),
                items == self.items@,
                sh == shape(items),
                k <= n,
                stack@ == trunk(sh.take(k as int)),
                texts(lines@) == rendered(items.take(k as int)),
            decreases n - k,
        {
            let w = &self.items[k];
            let d = w.depth;
            let l = w.is_last;
            proof {
                assert(sh.take(k + 1).drop_last() =~= sh.take(k as int));
                assert(items.take(k + 1).drop_last() =~= items.take(k as int));
                assert(shape(items.take(k + 1)).take(k as int) =~= sh.take(k as int));
                assert(sh[k as int] == (d as int, l));
            }
            if d == 0 {
                stack = Vec::new();
                proof {
                    assert(stack@ =~= trunk(sh.take(k + 1)));
                }
            } else {
                let ghost before = stack@;
                let keep = d - 1;
                if stack.len() >= keep {
                    stack.truncate(keep);
                } else {
                    while stack.len() < keep
                        invariant
                            before.len() <= stack@.len() <= keep,
                            stack@ =~= before + Seq::new(
                                (stack@.len() - before.len()) as nat,
                                |i: int| true,
                            ),
                        decreases keep - stack.len(),
                    {
                        stack.push(true);
                    }
                }
                proof {
                    assert(stack@ =~= fit(before, keep as int));
                }
                let mut line = String::new();
                let mut j: usize = 0;
                while j < stack.len()
                    invariant
                        j <= stack@.len(),
                        line@ == trunk_art(stack@.take(j as int)),
                    decreases stack.len() - j,
                {
                    proof {
                        assert(stack@.take(j + 1).drop_last() =~= stack@.take(j as int));
                    }
                    if stack[j] {
                        proof {
                            reveal_strlit("    ");
                        }
                        line.append("    ");
                    } else {
                        proof {
                            reveal_strlit("│   ");
                        }
                        line.append("│   ");
                    }
                    j = j + 1;
                }
                proof {
                    assert(stack@.take(j as int) =~= stack@);
                }
                if l {
                    proof {
                        reveal_strlit("└── ");
                    }
                    line.append("└── ");
                } else {
                    proof {
                        reveal_strlit("├── ");
                    }
                    line.append("├── ");
                }
                let ghost art = line@;
                proof {
                    assert(art =~= row_art(shape(items.take(k + 1)), k as int));
                }
                let p = &w.path;
                if p.len() > 0 {
                    line.append(p[p.len() - 1].as_str());
                }
                proof {
                    assert(line@ =~= art + display_name(comps(items[k as int].path@)));
                }
                lines.push(line);
                stack.push(l);
            }
            proof {
                assert(texts(lines@) =~= rendered(items.take(k + 1)));
            }
            k = k + 1;
        }
        proof {
            assert(items.take(n as int) =~= items);
        }
        lines
    }
}

} // verus!
