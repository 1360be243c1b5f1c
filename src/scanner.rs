//! Workspace rules that decide which files are analysed and where analysis
//! starts: source extensions, installed-dependency directories, and the
//! resolution of entry points.

use vstd::prelude::*;
use vstd::string::*;
use crate::error::PurgeError;
use crate::graph::text_seq;
use crate::specifier::{dir_prefix, dir_prefix_len, path_segments, split_upto, text_of};

verus! {

/// The files found under a workspace root, and the resolved entry points.
pub struct FileDiscovery {
    pub files: Vec<String>,
    pub entry_points: Vec<String>,
}

pub struct WorkspaceScanner {
    pub root: String,
}

/// The index of the last `.` among the first `n` characters, or -1.
pub open spec fn last_dot(s: Seq<char>, n: int) -> int
    decreases n,
{
    if n <= 0 {
        -1
    } else if s[n - 1] == '.' {
        n - 1
    } else {
        last_dot(s, n - 1)
    }
}

/// The extension of a path: what follows the last `.` of its final segment,
/// when that `.` is not the segment's first character.
pub open spec fn extension_of(p: Seq<char>) -> Option<Seq<char>> {
    let name = p.skip(dir_prefix(p).len() as int);
    let k = last_dot(name, name.len() as int);
    if k <= 0 {
        None
    } else {
        Some(name.skip(k + 1))
    }
}

/// The extensions of JavaScript and TypeScript sources.
pub open spec fn is_source_extension(e: Seq<char>) -> bool {
    e == "js"@ || e == "jsx"@ || e == "ts"@ || e == "tsx"@ || e == "mjs"@ || e == "cjs"@
}

/// `p` joined under `root`, as a path join does: an absolute `p` stands alone.
pub open spec fn join_path(root: Seq<char>, p: Seq<char>) -> Seq<char> {
    if p.len() > 0 && p[0] == '/' {
        p
    } else if root.len() == 0 {
        p
    } else if root.last() == '/' {
        root + p
    } else {
        root + "/"@ + p
    }
}

/// The paths tried for an entry point, in order: the path itself, the path
/// with each source extension added, then an index file of each extension
/// under it.
pub open spec fn entry_candidates_of(root: Seq<char>, entry: Seq<char>) -> Seq<Seq<char>> {
    let j = join_path(root, entry);
    seq![
        j,
        j + ".ts"@,
        j + ".js"@,
        j + ".tsx"@,
        j + ".jsx"@,
        j + "/index.ts"@,
        j + "/index.js"@,
        j + "/index.tsx"@,
        j + "/index.jsx"@,
    ]
}

fn concat(a: &String, b: &str) -> (r: String)
    ensures
        r@ == a@ + b@,
{
    let mut r = a.clone();
    r.append(b);
    r
}

impl WorkspaceScanner {
    pub fn new(root: String) -> (r: Self)
        ensures
            r.root == root,
    {
        WorkspaceScanner { root }
    }

    /// Whether the path has a JavaScript or TypeScript extension.
    pub fn is_js_ts_file(&self, path: &str) -> (r: bool)
        ensures
            r == (extension_of(path@) matches Some(e) && is_source_extension(e)),
    {
        let start = dir_prefix_len(path);
        let n = path.unicode_len();
        let ghost name = path@.skip(start as int);
        let mut k = n;
        let mut dot = false;
        while k > start && !dot
            invariant
                start <= k <= n,
                n == path@.len(),
                name == path@.skip(start as int),
                name.len() == n - start,
                dot ==> k > start && last_dot(name, name.len() as int) == k - 1 - start,
                !dot ==> last_dot(name, name.len() as int) == last_dot(name, k - start),
            decreases k + (if dot {
                0int
            } else {
                1int
            }),
        {
            proof {
                assert(name[k - 1 - start] == path@[k - 1]);
            }
            if path.get_char(k - 1) == '.' {
                dot = true;
                proof {
                    assert(last_dot(name, (k - start) as int) == k - 1 - start);
                }
            } else {
                k = k - 1;
            }
        }
        if !dot || k - start <= 1 {
            proof {
                if !dot {
                    assert(k == start);
                }
            }
            return false;
        }
        proof {
            assert(name.skip(k - start) =~= path@.subrange(k as int, n as int));
        }
        let ext = text_of(path.substring_char(k, n));
        ext == text_of("js") || ext == text_of("jsx") || ext == text_of("ts") || ext == text_of("tsx")
            || ext == text_of("mjs") || ext == text_of("cjs")
    }

    /// Whether some segment of the path is `node_modules`.
    pub fn is_in_node_modules(&self, path: &str) -> (r: bool)
        ensures
            r == path_segments(path@).contains("node_modules"@),
    {
        let target = text_of("node_modules");
        let n = path.unicode_len();
        let mut found = false;
        let mut start: usize = 0;
        let mut i: usize = 0;
        proof {
            assert(split_upto(path@, 0).0 =~= Seq::<Seq<char>>::empty());
        }
        while i < n
            invariant
                n == path@.len(),
                start <= i <= n,
                target@ == "node_modules"@,
                split_upto(path@, i as int).1 == path@.subrange(start as int, i as int),
                found == split_upto(path@, i as int).0.contains("node_modules"@),
            decreases n - i,
        {
            let ghost done = split_upto(path@, i as int).0;
            let ghost cur = split_upto(path@, i as int).1;
            if path.get_char(i) == '/' {
                let seg = text_of(path.substring_char(start, i));
                found = found || seg == target;
                proof {
                    crate::graph::lemma_push_contains(done, cur);
                    assert(path@.subrange(i + 1, i + 1) =~= Seq::<char>::empty());
                }
                start = i + 1;
            } else {
                proof {
                    assert(path@.subrange(start as int, i + 1) =~= cur.push(path@[i as int]));
                }
            }
            i = i + 1;
        }
        let last = text_of(path.substring_char(start, n));
        proof {
            crate::graph::lemma_push_contains(split_upto(path@, n as int).0, split_upto(path@, n as int).1);
        }
        found || last == target
    }

    /// The paths tried, in order, for the entry point `entry`.
    pub fn entry_candidates(&self, entry: &str) -> (r: Vec<String>)
        ensures
            text_seq(r@) == entry_candidates_of(self.root@, entry@),
    {
        let joined = if entry.unicode_len() > 0 && entry.get_char(0) == '/' {
            text_of(entry)
        } else if self.root.as_str().unicode_len() == 0 {
            text_of(entry)
        } else if self.root.as_str().get_char(self.root.as_str().unicode_len() - 1) == '/' {
            concat(&self.root, entry)
        } else {
            let with_slash = concat(&self.root, "/");
            concat(&with_slash, entry)
        };
        let mut r: Vec<String> = Vec::new();
        r.push(concat(&joined, ""));
        r.push(concat(&joined, ".ts"));
        r.push(concat(&joined, ".js"));
        r.push(concat(&joined, ".tsx"));
        r.push(concat(&joined, ".jsx"));
        r.push(concat(&joined, "/index.ts"));
        r.push(concat(&joined, "/index.js"));
        r.push(concat(&joined, "/index.tsx"));
        r.push(concat(&joined, "/index.jsx"));
        proof {
            reveal_strlit("");
            assert(joined@ + ""@ =~= joined@);
            assert(text_seq(r@) =~= entry_candidates_of(self.root@, entry@));
        }
        r
    }

    /// The first candidate path of `entry` that exists, given for each
    /// candidate whether it exists; an invalid entry point when none does.
    pub fn resolve_entry_point(&self, entry: &str, exists: &Vec<bool>) -> (r: Result<String, PurgeError>)
        requires
            exists@.len() == 9,
        ensures
            r matches Ok(p) ==> exists|i: int|
                0 <= i < 9 && exists@[i] && p@ == entry_candidates_of(self.root@, entry@)[i] && forall|j: int|
                    0 <= j < i ==> !#[trigger] exists@[j],
            r is Err <==> forall|i: int| 0 <= i < 9 ==> !#[trigger] exists@[i],
            r matches Err(e) ==> e matches PurgeError::InvalidEntryPoint(s) && s@ == entry@,
    {
        let candidates = self.entry_candidates(entry);
        proof {
            assert(text_seq(candidates@).len() == candidates@.len());
        }
        let mut i: usize = 0;
        while i < 9
            invariant
                i <= 9,
                exists@.len() == 9,
                candidates@.len() == 9,
                text_seq(candidates@) == entry_candidates_of(self.root@, entry@),
                forall|j: int| 0 <= j < i ==> !#[trigger] exists@[j],
            decreases 9 - i,
        {
            if exists[i] {
                let p = candidates[i].clone();
                proof {
                    assert(text_seq(candidates@)[i as int] == candidates@[i as int]@);
                }
                return Ok(p);
            }
            i = i + 1;
        }
        Err(PurgeError::InvalidEntryPoint(text_of(entry)))
    }
}

} // verus!
