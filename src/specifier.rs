//! Import specifiers: telling packages from relative paths, naming the
//! package, and resolving a relative specifier against the importing file.

use vstd::prelude::*;
use vstd::string::*;

verus! {

/// The index of the first `/` at or after `i`, or the length of `s`.
pub open spec fn seg_end(s: Seq<char>, i: int) -> int
    decreases s.len() - i,
{
    if i >= s.len() {
        s.len() as int
    } else if s[i] == '/' {
        i
    } else {
        seg_end(s, i + 1)
    }
}

/// A specifier names a package unless it starts with `.` or `/`.
pub open spec fn is_package_spec(s: Seq<char>) -> bool {
    !(s.len() > 0 && (s[0] == '.' || s[0] == '/'))
}

/// The package a specifier names: its first two segments when it starts
/// with `@` (none when there is only one), else its first segment.
pub open spec fn package_name_of(s: Seq<char>) -> Option<Seq<char>> {
    if !is_package_spec(s) {
        None
    } else if s.len() > 0 && s[0] == '@' {
        if seg_end(s, 0) < s.len() {
            Some(s.take(seg_end(s, seg_end(s, 0) + 1)))
        } else {
            None
        }
    } else {
        Some(s.take(seg_end(s, 0)))
    }
}

pub proof fn lemma_seg_end_bounds(s: Seq<char>, i: int)
    requires
        0 <= i <= s.len(),
    ensures
        i <= seg_end(s, i) <= s.len(),
        seg_end(s, i) < s.len() ==> s[seg_end(s, i)] == '/',
        forall|k: int| i <= k < seg_end(s, i) ==> s[k] != '/',
    decreases s.len() - i,
{
    if i < s.len() && s[i] != '/' {
        lemma_seg_end_bounds(s, i + 1);
    }
}

/// The index of the first `/` at or after `start`, or the length of `s`.
fn find_slash(s: &str, start: usize) -> (r: usize)
    requires
        start <= s@.len(),
    ensures
        r == seg_end(s@, start as int),
{
    let n = s.unicode_len();
    let mut i = start;
    while i < n
        invariant
            start <= i <= n,
            n == s@.len(),
            seg_end(s@, start as int) == seg_end(s@, i as int),
        decreases n - i,
    {
        if s.get_char(i) == '/' {
            return i;
        }
        i = i + 1;
    }
    i
}

/// Whether a specifier names a package rather than a file.
pub fn is_package_specifier(s: &str) -> (r: bool)
    ensures
        r == is_package_spec(s@),
{
    if s.unicode_len() == 0 {
        return true;
    }
    let c = s.get_char(0);
    c != '.' && c != '/'
}

/// The package named by an import specifier: `@scope/name` for a scoped
/// one, the first path segment otherwise; none for a relative or absolute
/// path, or for a lone `@scope`.
pub fn extract_package_name(import_path: &str) -> (r: Option<String>)
    ensures
        r matches Some(n) ==> package_name_of(import_path@) == Some(n@),
        r is None ==> package_name_of(import_path@) is None,
{
    if !is_package_specifier(import_path) {
        return None;
    }
    let n = import_path.unicode_len();
    let first = find_slash(import_path, 0);
    proof {
        lemma_seg_end_bounds(import_path@, 0);
    }
    if n > 0 && import_path.get_char(0) == '@' {
        if first < n {
            let second = find_slash(import_path, first + 1);
            proof {
                lemma_seg_end_bounds(import_path@, first + 1);
            }
            Some(String::from_str(import_path.substring_char(0, second)))
        } else {
            None
        }
    } else {
        Some(String::from_str(import_path.substring_char(0, first)))
    }
}

/// A scoped specifier always names a package of two segments, never the
/// bare scope.
pub proof fn lemma_scoped_name_has_two_segments(s: Seq<char>)
    requires
        s.len() > 0,
        s[0] == '@',
        package_name_of(s) is Some,
    ensures
        package_name_of(s)->0.len() > seg_end(s, 0),
        package_name_of(s)->0[seg_end(s, 0)] == '/',
        package_name_of(s)->0.take(seg_end(s, 0)) == s.take(seg_end(s, 0)),
{
    lemma_seg_end_bounds(s, 0);
    lemma_seg_end_bounds(s, seg_end(s, 0) + 1);
}


/// The directory part of a path, with its trailing `/`: everything up to
/// and including the last `/`, or nothing when there is none.
pub open spec fn dir_prefix(p: Seq<char>) -> Seq<char>
    decreases p.len(),
{
    if p.len() == 0 {
        p
    } else if p.last() == '/' {
        p
    } else {
        dir_prefix(p.drop_last())
    }
}

/// The segments of `p` split at each `/` among its first `n` characters:
/// the finished segments and the one in progress.
pub open spec fn split_upto(p: Seq<char>, n: int) -> (Seq<Seq<char>>, Seq<char>)
    decreases n,
{
    if n <= 0 {
        (Seq::empty(), Seq::empty())
    } else {
        let (done, cur) = split_upto(p, n - 1);
        if p[n - 1] == '/' {
            (done.push(cur), Seq::empty())
        } else {
            (done, cur.push(p[n - 1]))
        }
    }
}

/// The segments of `p` between its `/` separators.
pub open spec fn path_segments(p: Seq<char>) -> Seq<Seq<char>> {
    split_upto(p, p.len() as int).0.push(split_upto(p, p.len() as int).1)
}

/// Adds one segment to a normalized stack: empty and `.` segments vanish,
/// `..` removes the segment before it when there is one to remove.
pub open spec fn push_segment(stack: Seq<Seq<char>>, seg: Seq<char>) -> Seq<Seq<char>> {
    if seg == Seq::<char>::empty() || seg == seq!['.'] {
        stack
    } else if seg == seq!['.', '.'] && stack.len() > 0 && stack.last() != seq!['.', '.'] {
        stack.drop_last()
    } else {
        stack.push(seg)
    }
}

/// The normalized stack after the first `n` segments.
pub open spec fn fold_segments(segs: Seq<Seq<char>>, n: int) -> Seq<Seq<char>>
    decreases n,
{
    if n <= 0 {
        Seq::empty()
    } else {
        push_segment(fold_segments(segs, n - 1), segs[n - 1])
    }
}

/// Segments joined with `/`.
pub open spec fn join_segments(segs: Seq<Seq<char>>) -> Seq<char>
    decreases segs.len(),
{
    if segs.len() == 0 {
        Seq::empty()
    } else if segs.len() == 1 {
        segs[0]
    } else {
        join_segments(segs.drop_last()) + seq!['/'] + segs.last()
    }
}

/// `p` with empty and `.` segments removed and each `..` resolved against
/// the segment before it; a leading `/` is kept.
pub open spec fn normalize_path(p: Seq<char>) -> Seq<char> {
    let segs = path_segments(p);
    let body = join_segments(fold_segments(segs, segs.len() as int));
    if p.len() > 0 && p[0] == '/' {
        seq!['/'] + body
    } else {
        body
    }
}

/// The path a relative specifier names, seen from the file `from`.
pub open spec fn resolved_import(from: Seq<char>, source: Seq<char>) -> Seq<char> {
    if source.len() > 0 && source[0] == '/' {
        normalize_path(source)
    } else {
        normalize_path(dir_prefix(from) + source)
    }
}

/// The length of the directory part of `p`.
pub fn dir_prefix_len(p: &str) -> (r: usize)
    ensures
        r <= p@.len(),
        dir_prefix(p@) == p@.take(r as int),
{
    let mut n = p.unicode_len();
    proof {
        assert(p@.take(n as int) =~= p@);
    }
    while n > 0
        invariant
            n <= p@.len(),
            dir_prefix(p@) == dir_prefix(p@.take(n as int)),
        decreases n,
    {
        if p.get_char(n - 1) == '/' {
            return n;
        }
        proof {
            assert(p@.take(n as int).drop_last() =~= p@.take(n - 1));
        }
        n = n - 1;
    }
    n
}

pub fn text_of(s: &str) -> (r: String)
    ensures
        r@ == s@,
{
    String::from_str(s)
}

/// Adds one segment to the normalized stack.
fn push_segment_exec(stack: &mut Vec<String>, seg: String)
    ensures
        crate::graph::text_seq(final(stack)@) == push_segment(crate::graph::text_seq(old(stack)@), seg@),
{
    proof {
        reveal_strlit(".");
        reveal_strlit("..");
        crate::graph::lemma_text_push(old(stack)@, seg);
    }
    let dot = text_of(".");
    let dots = text_of("..");
    assert(dot@ == seq!['.']);
    assert(dots@ == seq!['.', '.']);
    let n = stack.len();
    if seg.as_str().unicode_len() == 0 || seg == dot {
    } else if seg == dots && n > 0 && !(stack[n - 1] == dots) {
        stack.pop();
        proof {
            assert(crate::graph::text_seq(old(stack)@).last() == old(stack)@[n - 1]@);
            assert(crate::graph::text_seq(stack@) =~= crate::graph::text_seq(old(stack)@).drop_last());
        }
    } else {
        stack.push(seg);
    }
    assert(seg@.len() == 0 ==> seg@ == Seq::<char>::empty());
}

/// The normalized form of a path.
fn normalize(p: &str) -> (r: String)
    ensures
        r@ == normalize_path(p@),
{
    let n = p.unicode_len();
    let mut stack: Vec<String> = Vec::new();
    let mut start: usize = 0;
    let mut i: usize = 0;
    let ghost empty_text = crate::graph::text_seq(stack@);
    proof {
        assert(empty_text =~= Seq::<Seq<char>>::empty());
    }
    while i < n
        invariant
            n == p@.len(),
            start <= i <= n,
            split_upto(p@, i as int).1 == p@.subrange(start as int, i as int),
            crate::graph::text_seq(stack@) == fold_segments(
                split_upto(p@, i as int).0,
                split_upto(p@, i as int).0.len() as int,
            ),
        decreases n - i,
    {
        let ghost done = split_upto(p@, i as int).0;
        let ghost cur = split_upto(p@, i as int).1;
        if p.get_char(i) == '/' {
            let seg = text_of(p.substring_char(start, i));
            push_segment_exec(&mut stack, seg);
            proof {
                let d2 = done.push(cur);
                assert(d2.drop_last() =~= done);
                assert forall|k: int| 0 <= k <= done.len() implies fold_segments(d2, k) == fold_segments(done, k) by {
                    lemma_fold_prefix(d2, done, k);
                }
                assert(p@.subrange(i + 1, i + 1) =~= Seq::<char>::empty());
            }
            start = i + 1;
        } else {
            proof {
                assert(p@.subrange(start as int, i + 1) =~= cur.push(p@[i as int]));
            }
        }
        i = i + 1;
    }
    let last = text_of(p.substring_char(start, n));
    push_segment_exec(&mut stack, last);
    let ghost segs = path_segments(p@);
    proof {
        let done = split_upto(p@, n as int).0;
        assert(segs.drop_last() =~= done);
        assert forall|k: int| 0 <= k <= done.len() implies fold_segments(segs, k) == fold_segments(done, k) by {
            lemma_fold_prefix(segs, done, k);
        }
        assert(crate::graph::text_seq(stack@) == fold_segments(segs, segs.len() as int));
    }
    let mut out = String::new();
    proof {
        reveal_strlit("/");
    }
    let absolute = n > 0 && p.get_char(0) == '/';
    if absolute {
        out.append("/");
    }
    let ghost lead = out@;
    let mut j: usize = 0;
    while j < stack.len()
        invariant
            j <= stack.len(),
            out@ == lead + join_segments(crate::graph::text_seq(stack@).take(j as int)),
        decreases stack.len() - j,
    {
        let ghost t = crate::graph::text_seq(stack@);
        let ghost before = out@;
        proof {
            reveal_strlit("/");
        }
        if j > 0 {
            out.append("/");
        }
        out.append(stack[j].as_str());
        proof {
            assert(t.take(j + 1).drop_last() =~= t.take(j as int));
            assert(t.take(j + 1).last() == stack@[j as int]@);
            if j == 0 {
                assert(t.take(0) =~= Seq::<Seq<char>>::empty());
                assert(join_segments(t.take(1)) == stack@[0]@);
                assert(before =~= lead);
                assert(out@ =~= lead + stack@[0]@);
            } else {
                assert(lead + join_segments(t.take(j + 1)) =~= lead + join_segments(t.take(j as int)) + seq!['/']
                    + stack@[j as int]@);
            }
        }
        j = j + 1;
    }
    proof {
        let t = crate::graph::text_seq(stack@);
        assert(t.take(stack.len() as int) =~= t);
        if !absolute {
            assert(lead =~= Seq::<char>::empty());
            assert(out@ =~= join_segments(t));
        }
    }
    out
}

/// Folding agrees on two sequences that agree on their first `k` items.
pub proof fn lemma_fold_prefix(a: Seq<Seq<char>>, b: Seq<Seq<char>>, k: int)
    requires
        0 <= k <= a.len(),
        k <= b.len(),
        forall|i: int| 0 <= i < k ==> a[i] == b[i],
    ensures
        fold_segments(a, k) == fold_segments(b, k),
    decreases k,
{
    if k > 0 {
        lemma_fold_prefix(a, b, k - 1);
    }
}

/// The path that the relative specifier `source` names, seen from the file
/// `from`: joined to the directory of `from` (unless it starts with `/`) and
/// normalized.
pub fn resolve_import(from: &str, source: &str) -> (r: String)
    ensures
        r@ == resolved_import(from@, source@),
{
    if source.unicode_len() > 0 && source.get_char(0) == '/' {
        normalize(source)
    } else {
        let d = dir_prefix_len(from);
        let mut joined = text_of(from.substring_char(0, d));
        joined.append(source);
        normalize(joined.as_str())
    }
}

} // verus!
