//! Settings of one run: what the command line gave, and the defaults
//! resolved from the scan root.
use vstd::prelude::*;
use crate::path::comps;
use crate::render::display_name;

verus! {

/// How archive entries are compressed.
#[derive(Clone, Copy, Debug, PartialEq, Eq, Structural)]
pub enum CompressionMethod {
    /// Store the file as is
    Stored,
    /// Deflate, levels 0 to 9
    Deflated,
    /// BZIP2, levels 0 to 9
    Bzip2,
    /// ZStandard, levels -7 to 22
    Zstd,
}

impl Default for CompressionMethod {
    fn default() -> (r: CompressionMethod)
        ensures
            r == CompressionMethod::Deflated,
    {
        CompressionMethod::Deflated
    }
}

/// The options given on the command line, each absent where not given.
pub struct CLI {
    pub input: Option<Vec<String>>,
    pub output: Option<Vec<String>>,
    pub depth: Option<usize>,
    pub dry_run: bool,
    pub ignore_hidden: bool,
    pub read_gitignore: bool,
    pub parent: bool,
    pub compression_method: CompressionMethod,
    pub compression_level: Option<i64>,
}

/// The settings of a run, every default filled in.
pub struct Config {
    pub input: Vec<String>,
    pub output: Vec<String>,
    pub depth: Option<usize>,
    pub ignore_hidden: bool,
    pub read_gitignore: bool,
    pub parent: bool,
    pub compression_method: CompressionMethod,
    pub compression_level: Option<i64>,
}

/// Where the stem of a file name ends: at its last dot, or 0 where it has
/// no dot after its first character.
pub open spec fn stem_end(s: Seq<char>) -> int
    decreases s.len(),
{
    if s.len() == 0 {
        0
    } else if s.last() == '.' {
        s.len() - 1
    } else {
        stem_end(s.drop_last())
    }
}

/// The stem of a file name: the name without its last extension; a name
/// without one, one whose only dot leads it, and `..` are their own stem.
pub open spec fn file_stem(s: Seq<char>) -> Seq<char> {
    if s == seq!['.', '.'] || stem_end(s) == 0 {
        s
    } else {
        s.take(stem_end(s))
    }
}

/// The default archive path for a scan root: `./<root name>.zip`.
pub open spec fn default_output(root: Seq<Seq<char>>) -> Seq<Seq<char>> {
    seq![seq!['.'], display_name(root) + seq!['.', 'z', 'i', 'p']]
}

/// The stem of a file name.
pub fn stem(name: &str) -> (r: String)
    ensures
        r@ == file_stem(name@),
{
    let n = name.unicode_len();
    let mut i = n;
    let mut found = false;
    proof {
        assert(name@.take(n as int) =~= name@);
    }
    while i > 0 && !found
        invariant
            i <= n == name@.len(),
            found ==> i > 0 && name@[i - 1] == '.',
            stem_end(name@) == stem_end(name@.take(i as int)),
        decreases i + if found { 0int } else { 1int },
    {
        proof {
            assert(name@.take(i as int).drop_last() =~= name@.take(i - 1));
        }
        if name.get_char(i - 1) == '.' {
            found = true;
        } else {
            i = i - 1;
        }
    }
    proof {
        if found {
            assert(name@.take(i as int).last() == '.');
        } else {
            assert(name@.take(0) =~= Seq::<char>::empty());
        }
    }
    let cut: usize = if i == 0 { 0 } else { i - 1 };
    proof {
        assert(cut == stem_end(name@));
    }
    let dots = n == 2 && name.get_char(0) == '.' && name.get_char(1) == '.';
    proof {
        if dots {
            assert(name@ =~= seq!['.', '.']);
        }
        if name@ == seq!['.', '.'] {
            assert(name@[0] == '.' && name@[1] == '.');
        }
    }
    if dots || cut == 0 {
        String::from_str(name)
    } else {
        String::from_str(name.substring_char(0, cut))
    }
}

impl Config {
    /// Fills in the defaults: `root` (the resolved scan root) stands for a
    /// missing input, and `./<root name>.zip` for a missing output.
    pub fn from(args: CLI, root: Vec<String>) -> (r: Config)
        ensures
            comps(r.input@) == match args.input {
                Some(i) => comps(i@),
                None => comps(root@),
            },
            comps(r.output@) == match args.output {
                Some(o) => comps(o@),
                None => default_output(comps(root@)),
            },
            r.depth == args.depth,
            r.ignore_hidden == args.ignore_hidden,
            r.read_gitignore == args.read_gitignore,
            r.parent == args.parent,
            r.compression_method == args.compression_method,
            r.compression_level == args.compression_level,
    {
        let output = match args.output {
            Some(o) => o,
            None => {
                let mut name = if root.len() > 0 {
                    root[root.len() - 1].clone()
                } else {
                    String::new()
                };
                proof {
                    reveal_strlit(".zip");
                    reveal_strlit(".");
                }
                let ghost base = name@;
                proof {
                    assert(base == display_name(comps(root@)));
                }
                name.append(".zip");
                let mut o: Vec<String> = Vec::new();
                let dot = String::from_str(".");
                proof {
                    assert(dot@ =~= seq!['.']);
                    assert(name@ =~= display_name(comps(root@)) + seq!['.', 'z', 'i', 'p']);
                }
                o.push(dot);
                o.push(name);
                proof {
                    assert(comps(o@) =~= default_output(comps(root@)));
                }
                o
            },
        };
        let input = match args.input {
            Some(i) => i,
            None => root,
        };
        Config {
            input,
            output,
            depth: args.depth,
            ignore_hidden: args.ignore_hidden,
            read_gitignore: args.read_gitignore,
            parent: args.parent,
            compression_method: args.compression_method,
            compression_level: args.compression_level,
        }
    }

    /// The name that wraps every archive entry where wrapping is on: the
    /// stem of the output file's name.
    pub fn wrap_name(&self) -> (r: Option<String>)
        ensures
            r is Some <==> self.parent,
            r is Some ==> r->0@ == file_stem(display_name(comps(self.output@))),
    {
        if !self.parent {
            return None;
        }
        if self.output.len() == 0 {
            proof {
                assert(file_stem(Seq::<char>::empty()) =~= Seq::<char>::empty());
            }
            return Some(String::new());
        }
        Some(stem(self.output[self.output.len() - 1].as_str()))
    }
}

} // verus!
