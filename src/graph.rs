//! The three graphs of an analysis run: file imports, symbol usage and
//! declared-package usage.

use vstd::prelude::*;
use vstd::string::*;

verus! {

/// A source file of the project.
pub struct FileNode {
    pub path: String,
    pub is_entry_point: bool,
}

/// A top-level named declaration recorded as a candidate export.
pub struct Symbol {
    pub name: String,
    pub file: String,
    pub span: (usize, usize),
}

/// One static import statement with a relative specifier.
pub struct ImportEdge {
    pub from: String,
    pub to: String,
    pub imported_symbols: Vec<String>,
    pub is_type_only: bool,
}

/// A use of an identifier or of a static property name.
pub struct SymbolReference {
    pub symbol: String,
    pub file: String,
    pub span: (usize, usize),
}

/// The contents of a sequence of strings.
pub open spec fn text_seq(v: Seq<String>) -> Seq<Seq<char>> {
    v.map_values(|s: String| s@)
}

/// Whether `v` holds a string with contents `p`.
pub fn contains_text(v: &Vec<String>, p: &String) -> (r: bool)
    ensures
        r == text_seq(v@).contains(p@),
{
    let mut i: usize = 0;
    while i < v.len()
        invariant
            i <= v.len(),
            forall|j: int| 0 <= j < i ==> v@[j]@ != p@,
        decreases v.len() - i,
    {
        if v[i] == *p {
            assert(text_seq(v@)[i as int] == p@);
            return true;
        }
        i = i + 1;
    }
    assert(!text_seq(v@).contains(p@)) by {
        if text_seq(v@).contains(p@) {
            let j = choose|j: int| 0 <= j < text_seq(v@).len() && text_seq(v@)[j] == p@;
            assert(v@[j]@ == p@);
        }
    }
    false
}

/// File import graph: one vertex per discovered file, one edge per import
/// statement.
pub struct FileImportGraph {
    pub files: Vec<FileNode>,
    pub imports: Vec<ImportEdge>,
}

impl FileImportGraph {
    /// No two vertices share a path.
    pub open spec fn wf(&self) -> bool {
        forall|i: int, j: int|
            0 <= i < self.files.len() && 0 <= j < self.files.len() && i != j
                ==> #[trigger] self.files@[i].path@ != #[trigger] self.files@[j].path@
    }

    /// `p` is the path of a vertex flagged as an entry point.
    pub open spec fn is_entry(&self, p: Seq<char>) -> bool {
        exists|i: int|
            0 <= i < self.files.len() && #[trigger] self.files@[i].path@ == p
                && self.files@[i].is_entry_point
    }

    /// `p` is the path of a vertex.
    pub open spec fn has_file(&self, p: Seq<char>) -> bool {
        exists|i: int| 0 <= i < self.files.len() && #[trigger] self.files@[i].path@ == p
    }

    /// Some import edge leads from `a` to `b`.
    pub open spec fn has_edge(&self, a: Seq<char>, b: Seq<char>) -> bool {
        exists|i: int|
            0 <= i < self.imports.len() && #[trigger] self.imports@[i].from@ == a
                && self.imports@[i].to@ == b
    }

    /// `w` starts at an entry point and follows import edges.
    pub open spec fn is_walk(&self, w: Seq<Seq<char>>) -> bool {
        &&& w.len() > 0
        &&& self.is_entry(w[0])
        &&& forall|i: int| 0 <= i < w.len() - 1 ==> self.has_edge(#[trigger] w[i], w[i + 1])
    }

    /// `p` is reached from an entry point by zero or more import edges.
    pub open spec fn reachable(&self, p: Seq<char>) -> bool {
        exists|w: Seq<Seq<char>>| #[trigger] self.is_walk(w) && w.last() == p
    }

    /// Every path that a traversal can meet: vertices and edge targets.
    pub open spec fn candidates(&self) -> Set<Seq<char>> {
        self.files@.map_values(|f: FileNode| f.path@).to_set().union(
            self.imports@.map_values(|e: ImportEdge| e.to@).to_set(),
        )
    }

    pub fn new() -> (r: Self)
        ensures
            r.files@.len() == 0,
            r.imports@.len() == 0,
    {
        FileImportGraph { files: Vec::new(), imports: Vec::new() }
    }

    /// Adds a vertex, replacing the one with the same path if there is one.
    pub fn add_file(&mut self, path: String, is_entry_point: bool)
        requires
            old(self).wf(),
        ensures
            final(self).wf(),
            final(self).imports@ == old(self).imports@,
            old(self).has_file(path@) ==> final(self).files@.len() == old(self).files@.len(),
            !old(self).has_file(path@) ==> final(self).files@.len() == old(self).files@.len() + 1,
            forall|p: Seq<char>|
                #[trigger] final(self).has_file(p) == (old(self).has_file(p) || p == path@),
            forall|p: Seq<char>|
                #[trigger] final(self).is_entry(p) == (if p == path@ {
                    is_entry_point
                } else {
                    old(self).is_entry(p)
                }),
    {
        let ghost p0 = path@;
        let mut i: usize = 0;
        while i < self.files.len()
            invariant
                i <= self.files.len(),
                forall|j: int| 0 <= j < i ==> self.files@[j].path@ != p0,
                *self == *old(self),
                old(self).wf(),
                p0 == path@,
            decreases self.files.len() - i,
        {
            let same = self.files[i].path == path;
            if same {
                let ghost before = self.files@;
                assert(before[i as int].path@ == p0);
                self.files.set(i, FileNode { path, is_entry_point });
                assert forall|j: int| 0 <= j < self.files.len() implies #[trigger] self.files@[j].path@
                    == before[j].path@ by {}
                assert forall|p: Seq<char>| #[trigger] self.is_entry(p) == (if p == p0 {
                    is_entry_point
                } else {
                    old(self).is_entry(p)
                }) by {
                    if self.is_entry(p) {
                        let j = choose|j: int|
                            0 <= j < self.files.len() && #[trigger] self.files@[j].path@ == p
                                && self.files@[j].is_entry_point;
                        if j != i {
                            assert(before[j].path@ == p);
                            assert(old(self).files@[j].path@ != old(self).files@[i as int].path@);
                        }
                    }
                    if old(self).is_entry(p) {
                        let j = choose|j: int|
                            0 <= j < before.len() && #[trigger] before[j].path@ == p
                                && before[j].is_entry_point;
                        if j != i {
                            assert(self.files@[j].path@ == p);
                        }
                    }
                    if p == p0 && is_entry_point {
                        assert(self.files@[i as int].path@ == p);
                    }
                }
                assert forall|p: Seq<char>| #[trigger] self.has_file(p) == (old(self).has_file(p) || p
                    == p0) by {
                    if old(self).has_file(p) {
                        let j = choose|j: int| 0 <= j < before.len() && #[trigger] before[j].path@ == p;
                        assert(self.files@[j].path@ == p);
                    }
                    if self.has_file(p) {
                        let j = choose|j: int|
                            0 <= j < self.files.len() && #[trigger] self.files@[j].path@ == p;
                        assert(before[j].path@ == p);
                    }
                    if p == p0 {
                        assert(self.files@[i as int].path@ == p);
                    }
                }
                assert(self.wf()) by {
                    assert forall|a: int, b: int|
                        0 <= a < self.files.len() && 0 <= b < self.files.len() && a != b
                            implies #[trigger] self.files@[a].path@ != #[trigger] self.files@[b].path@ by {
                        assert(old(self).files@[a].path@ != old(self).files@[b].path@);
                    }
                }
                assert(old(self).has_file(p0)) by {
                    assert(before[i as int].path@ == p0);
                }
                return;
            }
            i = i + 1;
        }
        let ghost before = self.files@;
        self.files.push(FileNode { path, is_entry_point });
        assert(self.wf()) by {
            assert forall|a: int, b: int|
                0 <= a < self.files.len() && 0 <= b < self.files.len() && a != b
                    implies #[trigger] self.files@[a].path@ != #[trigger] self.files@[b].path@ by {
                if a < before.len() && b < before.len() {
                    assert(old(self).files@[a].path@ != old(self).files@[b].path@);
                }
            }
        }
        assert(!old(self).has_file(p0));
        assert forall|p: Seq<char>| #[trigger] self.is_entry(p) == (if p == p0 {
            is_entry_point
        } else {
            old(self).is_entry(p)
        }) by {
            if self.is_entry(p) {
                let j = choose|j: int|
                    0 <= j < self.files.len() && #[trigger] self.files@[j].path@ == p
                        && self.files@[j].is_entry_point;
                if j < before.len() {
                    assert(before[j].path@ == p);
                }
            }
            if old(self).is_entry(p) {
                let j = choose|j: int|
                    0 <= j < before.len() && #[trigger] before[j].path@ == p && before[j].is_entry_point;
                assert(self.files@[j].path@ == p);
            }
            if p == p0 && is_entry_point {
                assert(self.files@[before.len() as int].path@ == p);
            }
        }
        assert forall|p: Seq<char>| #[trigger] self.has_file(p) == (old(self).has_file(p) || p == p0) by {
            if old(self).has_file(p) {
                let j = choose|j: int| 0 <= j < before.len() && #[trigger] before[j].path@ == p;
                assert(self.files@[j].path@ == p);
            }
            if self.has_file(p) {
                let j = choose|j: int| 0 <= j < self.files.len() && #[trigger] self.files@[j].path@ == p;
                if j < before.len() {
                    assert(before[j].path@ == p);
                }
            }
            if p == p0 {
                assert(self.files@[before.len() as int].path@ == p);
            }
        }
    }

    /// Appends an import edge.
    pub fn add_import(&mut self, edge: ImportEdge)
        ensures
            final(self).files@ == old(self).files@,
            final(self).imports@ == old(self).imports@.push(edge),
    {
        self.imports.push(edge);
    }
}


/// Adding a string at the end of a sequence adds its contents at the end.
pub proof fn lemma_text_push(v: Seq<String>, s: String)
    ensures
        text_seq(v.push(s)) == text_seq(v).push(s@),
{
    assert(text_seq(v.push(s)) =~= text_seq(v).push(s@));
}

/// A duplicate-free sequence whose items lie in a finite set is no longer
/// than that set.
pub proof fn lemma_unique_within(s: Seq<Seq<char>>, c: Set<Seq<char>>)
    requires
        s.no_duplicates(),
        c.finite(),
        forall|x: Seq<char>| s.contains(x) ==> c.contains(x),
    ensures
        s.len() <= c.len(),
{
    s.unique_seq_to_set();
    vstd::set_lib::lemma_len_subset(s.to_set(), c);
}

/// What a sequence holds after an item is appended.
pub proof fn lemma_push_contains(s: Seq<Seq<char>>, x: Seq<char>)
    ensures
        forall|y: Seq<char>| #[trigger] s.push(x).contains(y) == (s.contains(y) || y == x),
{
    let t = s.push(x);
    assert forall|y: Seq<char>| #[trigger] t.contains(y) == (s.contains(y) || y == x) by {
        if t.contains(y) {
            let j = choose|j: int| 0 <= j < t.len() && t[j] == y;
            if j < s.len() {
                assert(s[j] == y);
            }
        }
        if s.contains(y) {
            let j = choose|j: int| 0 <= j < s.len() && s[j] == y;
            assert(t[j] == y);
        }
        assert(t[s.len() as int] == x);
    }
}

/// Appending an absent item keeps a sequence free of duplicates.
pub proof fn lemma_push_unique(s: Seq<Seq<char>>, x: Seq<char>)
    requires
        s.no_duplicates(),
        !s.contains(x),
    ensures
        s.push(x).no_duplicates(),
{
    let t = s.push(x);
    assert forall|i: int, j: int| 0 <= i < t.len() && 0 <= j < t.len() && i != j implies t[i] != t[j] by {
        if i == s.len() as int {
            assert(s.contains(t[j]));
        } else if j == s.len() as int {
            assert(s.contains(t[i]));
        }
    }
}

impl FileImportGraph {
    /// An entry point is reachable.
    pub proof fn lemma_entry_reachable(&self, p: Seq<char>)
        requires
            self.is_entry(p),
        ensures
            self.reachable(p),
    {
        let w = seq![p];
        assert(self.is_walk(w));
    }

    /// The target of an edge out of a reachable path is reachable.
    pub proof fn lemma_edge_reachable(&self, a: Seq<char>, b: Seq<char>)
        requires
            self.reachable(a),
            self.has_edge(a, b),
        ensures
            self.reachable(b),
    {
        let w = choose|w: Seq<Seq<char>>| #[trigger] self.is_walk(w) && w.last() == a;
        let w2 = w.push(b);
        assert forall|i: int| 0 <= i < w2.len() - 1 implies self.has_edge(#[trigger] w2[i], w2[i + 1]) by {
            if i < w.len() - 1 {
                assert(w2[i] == w[i] && w2[i + 1] == w[i + 1]);
            }
        }
        assert(self.is_walk(w2));
    }

    /// A set that holds every entry point and is closed under import edges
    /// holds the end of every walk.
    pub proof fn lemma_closed_holds_walk(&self, s: Set<Seq<char>>, w: Seq<Seq<char>>)
        requires
            forall|p: Seq<char>| self.is_entry(p) ==> s.contains(p),
            forall|a: Seq<char>, b: Seq<char>| s.contains(a) && #[trigger] self.has_edge(a, b) ==> s.contains(b),
            self.is_walk(w),
        ensures
            s.contains(w.last()),
        decreases w.len(),
    {
        if w.len() > 1 {
            let w0 = w.drop_last();
            assert forall|i: int| 0 <= i < w0.len() - 1 implies self.has_edge(#[trigger] w0[i], w0[i + 1]) by {
                assert(self.has_edge(w[i], w[i + 1]));
            }
            assert(self.is_walk(w0));
            self.lemma_closed_holds_walk(s, w0);
            assert(self.has_edge(w[w.len() - 2], w[w.len() - 1]));
        }
    }

    /// Paths of all files reachable from an entry point, each once.
    pub fn reachable_files(&self) -> (r: Vec<String>)
        ensures
            text_seq(r@).no_duplicates(),
            forall|p: Seq<char>| #[trigger] text_seq(r@).contains(p) == self.reachable(p),
    {
        broadcast use vstd::seq_lib::group_seq_properties, vstd::seq_lib::seq_to_set_is_finite;
        let ghost cand = self.candidates();
        assert(cand.finite());
        let mut visited: Vec<String> = Vec::new();
        assert(text_seq(visited@) =~= Seq::<Seq<char>>::empty());
        let mut i: usize = 0;
        while i < self.files.len()
            invariant
                i <= self.files.len(),
                cand == self.candidates(),
                text_seq(visited@).no_duplicates(),
                forall|x: Seq<char>| #[trigger] text_seq(visited@).contains(x) ==> self.reachable(x),
                forall|x: Seq<char>| #[trigger] text_seq(visited@).contains(x) ==> cand.contains(x),
                forall|j: int|
                    0 <= j < i && #[trigger] self.files@[j].is_entry_point ==> text_seq(visited@).contains(
                        self.files@[j].path@,
                    ),
            decreases self.files.len() - i,
        {
            if self.files[i].is_entry_point && !contains_text(&visited, &self.files[i].path) {
                let ghost before = text_seq(visited@);
                let s = self.files[i].path.clone();
                proof {
                    lemma_text_push(visited@, s);
                    lemma_push_unique(before, s@);
                    lemma_push_contains(before, s@);
                    self.lemma_entry_reachable(s@);
                    assert(self.files@.map_values(|f: FileNode| f.path@)[i as int] == s@);
                    assert(self.files@.map_values(|f: FileNode| f.path@).contains(s@));
                }
                visited.push(s);
            }
            i = i + 1;
        }
        let mut k: usize = 0;
        while k < visited.len()
            invariant
                k <= visited.len(),
                cand == self.candidates(),
                cand.finite(),
                text_seq(visited@).no_duplicates(),
                forall|x: Seq<char>| #[trigger] text_seq(visited@).contains(x) ==> self.reachable(x),
                forall|x: Seq<char>| #[trigger] text_seq(visited@).contains(x) ==> cand.contains(x),
                forall|p: Seq<char>| self.is_entry(p) ==> #[trigger] text_seq(visited@).contains(p),
                forall|a: int, e: int|
                    0 <= a < k && 0 <= e < self.imports.len() && #[trigger] self.imports@[e].from@
                        == #[trigger] visited@[a]@ ==> text_seq(visited@).contains(self.imports@[e].to@),
            decreases cand.len() - k,
        {
            proof {
                lemma_unique_within(text_seq(visited@), cand);
            }
            let cur = visited[k].clone();
            let mut e: usize = 0;
            while e < self.imports.len()
                invariant
                    k < visited.len(),
                    e <= self.imports.len(),
                    cur@ == visited@[k as int]@,
                    cand == self.candidates(),
                    cand.finite(),
                    text_seq(visited@).no_duplicates(),
                    forall|x: Seq<char>| #[trigger] text_seq(visited@).contains(x) ==> self.reachable(x),
                    forall|x: Seq<char>| #[trigger] text_seq(visited@).contains(x) ==> cand.contains(x),
                    forall|p: Seq<char>| self.is_entry(p) ==> #[trigger] text_seq(visited@).contains(p),
                    forall|a: int, f: int|
                        0 <= a < k && 0 <= f < self.imports.len() && #[trigger] self.imports@[f].from@
                            == #[trigger] visited@[a]@ ==> text_seq(visited@).contains(self.imports@[f].to@),
                    forall|f: int|
                        0 <= f < e && #[trigger] self.imports@[f].from@ == cur@ ==> text_seq(visited@).contains(
                            self.imports@[f].to@,
                        ),
                decreases self.imports.len() - e,
            {
                if self.imports[e].from == cur && !contains_text(&visited, &self.imports[e].to) {
                    let ghost before = text_seq(visited@);
                    let ghost old_v = visited@;
                    let t = self.imports[e].to.clone();
                    proof {
                        lemma_text_push(visited@, t);
                        lemma_push_unique(before, t@);
                        lemma_push_contains(before, t@);
                        assert(before[k as int] == cur@);
                        assert(before.contains(cur@));
                        assert(self.has_edge(cur@, t@));
                        self.lemma_edge_reachable(cur@, t@);
                        assert(self.imports@.map_values(|x: ImportEdge| x.to@)[e as int] == t@);
                        assert(self.imports@.map_values(|x: ImportEdge| x.to@).contains(t@));
                    }
                    visited.push(t);
                    proof {
                        assert forall|a: int| 0 <= a < old_v.len() implies visited@[a] == old_v[a] by {}
                    }
                }
                e = e + 1;
            }
            proof {
                assert forall|a: int, f: int|
                    0 <= a < k + 1 && 0 <= f < self.imports.len() && #[trigger] self.imports@[f].from@
                        == #[trigger] visited@[a]@ implies text_seq(visited@).contains(self.imports@[f].to@) by {
                    if a == k as int {
                        assert(self.imports@[f].from@ == cur@);
                    }
                }
                lemma_unique_within(text_seq(visited@), cand);
            }
            k = k + 1;
        }
        proof {
            let s = text_seq(visited@).to_set();
            assert forall|a: Seq<char>, b: Seq<char>| s.contains(a) && #[trigger] self.has_edge(a, b) implies s.contains(b) by {
                let j = choose|j: int| 0 <= j < text_seq(visited@).len() && text_seq(visited@)[j] == a;
                let f = choose|f: int|
                    0 <= f < self.imports.len() && #[trigger] self.imports@[f].from@ == a
                        && self.imports@[f].to@ == b;
                assert(visited@[j]@ == a);
            }
            assert forall|p: Seq<char>| #[trigger] text_seq(visited@).contains(p) == self.reachable(p) by {
                if self.reachable(p) {
                    let w = choose|w: Seq<Seq<char>>| #[trigger] self.is_walk(w) && w.last() == p;
                    self.lemma_closed_holds_walk(s, w);
                }
            }
        }
        visited
    }
}


impl Symbol {
    /// A copy of this record.
    pub fn copy(&self) -> (r: Symbol)
        ensures
            r == *self,
    {
        Symbol { name: self.name.clone(), file: self.file.clone(), span: self.span }
    }
}

/// A copy of a sequence of strings.
pub fn copy_strings(v: &Vec<String>) -> (r: Vec<String>)
    ensures
        r@ == v@,
{
    let mut r: Vec<String> = Vec::new();
    let mut i: usize = 0;
    while i < v.len()
        invariant
            i <= v.len(),
            r@ == v@.take(i as int),
        decreases v.len() - i,
    {
        r.push(v[i].clone());
        assert(r@ =~= v@.take(i + 1));
        i = i + 1;
    }
    assert(v@.take(v.len() as int) =~= v@);
    r
}

/// Symbol usage graph: the exports recorded for each file and the
/// references found in each file.
pub struct SymbolUsageGraph {
    pub exports: Vec<(String, Symbol)>,
    pub references: Vec<(String, SymbolReference)>,
}

impl SymbolUsageGraph {
    /// Some reference, in any file, carries the name `name`.
    pub open spec fn is_referenced(&self, name: Seq<char>) -> bool {
        exists|i: int| 0 <= i < self.references.len() && #[trigger] self.references@[i].1.symbol@ == name
    }

    /// The exports among the first `n` records that belong to `file` and
    /// whose name no reference carries, in order.
    pub open spec fn unused_upto(&self, file: Seq<char>, n: int) -> Seq<Symbol>
        decreases n,
    {
        if n <= 0 {
            Seq::empty()
        } else {
            let prev = self.unused_upto(file, n - 1);
            let e = self.exports@[n - 1];
            if e.0@ == file && !self.is_referenced(e.1.name@) {
                prev.push(e.1)
            } else {
                prev
            }
        }
    }

    /// The unused exports of `file`, in the order they were recorded.
    pub open spec fn unused_in(&self, file: Seq<char>) -> Seq<Symbol> {
        self.unused_upto(file, self.exports@.len() as int)
    }

    /// Every unused export of `file` is an export of `file` that no reference names.
    pub proof fn lemma_unused_upto_members(&self, file: Seq<char>, n: int)
        requires
            0 <= n <= self.exports@.len(),
        ensures
            forall|s: Symbol| #[trigger] self.unused_upto(file, n).contains(s) <==> exists|i: int|
                0 <= i < n && self.exports@[i].0@ == file && #[trigger] self.exports@[i].1 == s
                    && !self.is_referenced(s.name@),
        decreases n,
    {
        if n > 0 {
            self.lemma_unused_upto_members(file, n - 1);
            let prev = self.unused_upto(file, n - 1);
            let e = self.exports@[n - 1];
            assert forall|s: Symbol| #[trigger] self.unused_upto(file, n).contains(s) <==> exists|i: int|
                0 <= i < n && self.exports@[i].0@ == file && #[trigger] self.exports@[i].1 == s
                    && !self.is_referenced(s.name@) by {
                if e.0@ == file && !self.is_referenced(e.1.name@) {
                    lemma_push_contains_any(prev, e.1, s);
                }
                if exists|i: int|
                    0 <= i < n && self.exports@[i].0@ == file && #[trigger] self.exports@[i].1 == s
                        && !self.is_referenced(s.name@) {
                    let i = choose|i: int|
                        0 <= i < n && self.exports@[i].0@ == file && #[trigger] self.exports@[i].1 == s
                            && !self.is_referenced(s.name@);
                    if i < n - 1 {
                        assert(prev.contains(s));
                    }
                }
            }
        }
    }

    pub fn new() -> (r: Self)
        ensures
            r.exports@.len() == 0,
            r.references@.len() == 0,
    {
        SymbolUsageGraph { exports: Vec::new(), references: Vec::new() }
    }

    /// Records an export of `file`.
    pub fn add_export(&mut self, file: String, symbol: Symbol)
        ensures
            final(self).exports@ == old(self).exports@.push((file, symbol)),
            final(self).references@ == old(self).references@,
    {
        self.exports.push((file, symbol));
    }

    /// Records a reference found in `file`.
    pub fn add_reference(&mut self, file: String, reference: SymbolReference)
        ensures
            final(self).references@ == old(self).references@.push((file, reference)),
            final(self).exports@ == old(self).exports@,
    {
        self.references.push((file, reference));
    }

    /// Whether some reference carries the name `name`.
    pub fn has_reference_to(&self, name: &String) -> (r: bool)
        ensures
            r == self.is_referenced(name@),
    {
        let mut i: usize = 0;
        while i < self.references.len()
            invariant
                i <= self.references.len(),
                forall|j: int| 0 <= j < i ==> self.references@[j].1.symbol@ != name@,
            decreases self.references.len() - i,
        {
            if self.references[i].1.symbol == *name {
                return true;
            }
            i = i + 1;
        }
        false
    }

    /// The exports of `file` whose name no reference anywhere carries.
    pub fn unused_exports_in_file(&self, file: &String) -> (r: Vec<Symbol>)
        ensures
            r@ == self.unused_in(file@),
    {
        let mut unused: Vec<Symbol> = Vec::new();
        let mut i: usize = 0;
        while i < self.exports.len()
            invariant
                i <= self.exports.len(),
                unused@ == self.unused_upto(file@, i as int),
            decreases self.exports.len() - i,
        {
            let entry = &self.exports[i];
            if entry.0 == *file && !self.has_reference_to(&entry.1.name) {
                unused.push(entry.1.copy());
            }
            i = i + 1;
        }
        unused
    }
}

/// The contents of a sequence after an item is appended.
pub proof fn lemma_push_contains_any<A>(s: Seq<A>, x: A, y: A)
    ensures
        s.push(x).contains(y) == (s.contains(y) || y == x),
{
    let t = s.push(x);
    if t.contains(y) {
        let j = choose|j: int| 0 <= j < t.len() && t[j] == y;
        if j < s.len() {
            assert(s[j] == y);
        }
    }
    if s.contains(y) {
        let j = choose|j: int| 0 <= j < s.len() && s[j] == y;
        assert(t[j] == y);
    }
    assert(t[s.len() as int] == x);
}

/// A package declared in the manifest, with the files that import it.
pub struct PackageInfo {
    pub name: String,
    pub version: String,
    pub import_locations: Vec<String>,
    pub is_used: bool,
}

impl PackageInfo {
    /// Both records hold the same values.
    pub open spec fn agrees(&self, o: &PackageInfo) -> bool {
        &&& self.name == o.name
        &&& self.version == o.version
        &&& self.import_locations@ == o.import_locations@
        &&& self.is_used == o.is_used
    }

    /// A copy of this record.
    pub fn copy(&self) -> (r: PackageInfo)
        ensures
            r.agrees(self),
    {
        PackageInfo {
            name: self.name.clone(),
            version: self.version.clone(),
            import_locations: copy_strings(&self.import_locations),
            is_used: self.is_used,
        }
    }
}

/// Dependency graph: one record per declared package.
pub struct DependencyGraph {
    pub dependencies: Vec<PackageInfo>,
}

impl DependencyGraph {
    /// No two records share a name.
    pub open spec fn wf(&self) -> bool {
        forall|i: int, j: int|
            0 <= i < self.dependencies.len() && 0 <= j < self.dependencies.len() && i != j
                ==> #[trigger] self.dependencies@[i].name@ != #[trigger] self.dependencies@[j].name@
    }

    /// A package named `name` is declared.
    pub open spec fn declares(&self, name: Seq<char>) -> bool {
        exists|i: int| 0 <= i < self.dependencies.len() && #[trigger] self.dependencies@[i].name@ == name
    }

    /// The records among the first `n` that no import has marked, in order.
    pub open spec fn unused_upto(&self, n: int) -> Seq<PackageInfo>
        decreases n,
    {
        if n <= 0 {
            Seq::empty()
        } else {
            let prev = self.unused_upto(n - 1);
            if self.dependencies@[n - 1].is_used {
                prev
            } else {
                prev.push(self.dependencies@[n - 1])
            }
        }
    }

    /// The records that no import has marked, in order.
    pub open spec fn unused(&self) -> Seq<PackageInfo> {
        self.unused_upto(self.dependencies@.len() as int)
    }

    /// The unused records are exactly those whose flag is clear.
    pub proof fn lemma_unused_upto_members(&self, n: int)
        requires
            0 <= n <= self.dependencies@.len(),
        ensures
            forall|p: PackageInfo| #[trigger] self.unused_upto(n).contains(p) <==> exists|i: int|
                0 <= i < n && #[trigger] self.dependencies@[i] == p && !p.is_used,
        decreases n,
    {
        if n > 0 {
            self.lemma_unused_upto_members(n - 1);
            let prev = self.unused_upto(n - 1);
            let d = self.dependencies@[n - 1];
            assert forall|p: PackageInfo| #[trigger] self.unused_upto(n).contains(p) <==> exists|i: int|
                0 <= i < n && #[trigger] self.dependencies@[i] == p && !p.is_used by {
                if !d.is_used {
                    lemma_push_contains_any(prev, d, p);
                }
                if exists|i: int| 0 <= i < n && #[trigger] self.dependencies@[i] == p && !p.is_used {
                    let i = choose|i: int| 0 <= i < n && #[trigger] self.dependencies@[i] == p && !p.is_used;
                    if i < n - 1 {
                        assert(prev.contains(p));
                    }
                }
            }
        }
    }

    pub fn new() -> (r: Self)
        ensures
            r.dependencies@.len() == 0,
    {
        DependencyGraph { dependencies: Vec::new() }
    }

    /// The index of the record named `name`, if there is one.
    pub fn find(&self, name: &str) -> (r: Option<usize>)
        ensures
            r is None ==> !self.declares(name@),
            r matches Some(i) ==> i < self.dependencies.len() && self.dependencies@[i as int].name@ == name@,
    {
        let key = String::from_str(name);
        let mut i: usize = 0;
        while i < self.dependencies.len()
            invariant
                i <= self.dependencies.len(),
                key@ == name@,
                forall|j: int| 0 <= j < i ==> self.dependencies@[j].name@ != name@,
            decreases self.dependencies.len() - i,
        {
            if self.dependencies[i].name == key {
                return Some(i);
            }
            i = i + 1;
        }
        assert(!self.declares(name@)) by {
            if self.declares(name@) {
                let j = choose|j: int|
                    0 <= j < self.dependencies.len() && #[trigger] self.dependencies@[j].name@ == name@;
                assert(self.dependencies@[j].name@ != name@);
            }
        }
        None
    }

    /// Declares a package; a name that is already declared keeps its record.
    pub fn add_dependency(&mut self, name: String, version: String)
        requires
            old(self).wf(),
        ensures
            final(self).wf(),
            old(self).declares(name@) ==> *final(self) == *old(self),
            !old(self).declares(name@) ==> final(self).dependencies@ == old(self).dependencies@.push(
                PackageInfo { name, version, import_locations: final(self).dependencies@.last().import_locations, is_used: false },
            ),
            !old(self).declares(name@) ==> final(self).dependencies@.last().import_locations@.len() == 0,
    {
        match self.find(name.as_str()) {
            Some(_) => {},
            None => {
                let ghost before = self.dependencies@;
                self.dependencies.push(
                    PackageInfo { name, version, import_locations: Vec::new(), is_used: false },
                );
                assert forall|i: int, j: int|
                    0 <= i < self.dependencies.len() && 0 <= j < self.dependencies.len() && i != j
                        implies #[trigger] self.dependencies@[i].name@ != #[trigger] self.dependencies@[j].name@ by {
                    if i < before.len() && j < before.len() {
                        assert(old(self).dependencies@[i].name@ != old(self).dependencies@[j].name@);
                    } else if i < before.len() {
                        assert(before[i].name@ != self.dependencies@[j].name@);
                    } else {
                        assert(before[j].name@ != self.dependencies@[i].name@);
                    }
                }
            },
        }
    }

    /// Records that `file` imports `package`; an undeclared name is ignored.
    pub fn record_import(&mut self, package: &str, file: String)
        requires
            old(self).wf(),
        ensures
            final(self).wf(),
            final(self).dependencies@.len() == old(self).dependencies@.len(),
            forall|i: int| 0 <= i < old(self).dependencies@.len() ==> {
                let (a, b) = (old(self).dependencies@[i], #[trigger] final(self).dependencies@[i]);
                if a.name@ == package@ {
                    &&& b.name == a.name
                    &&& b.version == a.version
                    &&& b.import_locations@ == a.import_locations@.push(file)
                    &&& b.is_used
                } else {
                    b == a
                }
            },
    {
        match self.find(package) {
            Some(i) => {
                let ghost before = self.dependencies@;
                let mut dep = self.dependencies[i].copy();
                dep.import_locations.push(file);
                dep.is_used = true;
                self.dependencies.set(i, dep);
                assert(self.dependencies@[i as int].name@ == package@);
                assert forall|j: int| 0 <= j < before.len() && j != i implies before[j].name@ != package@ by {
                    assert(old(self).dependencies@[j].name@ != old(self).dependencies@[i as int].name@);
                }
                assert forall|a: int, b: int|
                    0 <= a < self.dependencies.len() && 0 <= b < self.dependencies.len() && a != b
                        implies #[trigger] self.dependencies@[a].name@ != #[trigger] self.dependencies@[b].name@ by {
                    assert(old(self).dependencies@[a].name@ != old(self).dependencies@[b].name@);
                }
            },
            None => {},
        }
    }

    /// The records that no import has marked, in order.
    pub fn unused_dependencies(&self) -> (r: Vec<PackageInfo>)
        ensures
            r@.len() == self.unused().len(),
            forall|k: int| 0 <= k < r@.len() ==> #[trigger] r@[k].agrees(&self.unused()[k]),
    {
        let mut r: Vec<PackageInfo> = Vec::new();
        let mut i: usize = 0;
        while i < self.dependencies.len()
            invariant
                i <= self.dependencies.len(),
                r@.len() == self.unused_upto(i as int).len(),
                forall|k: int| 0 <= k < r@.len() ==> #[trigger] r@[k].agrees(&self.unused_upto(i as int)[k]),
            decreases self.dependencies.len() - i,
        {
            if !self.dependencies[i].is_used {
                r.push(self.dependencies[i].copy());
            }
            assert forall|k: int| 0 <= k < r@.len() implies #[trigger] r@[k].agrees(&self.unused_upto(i + 1)[k]) by {
                assert(self.unused_upto(i + 1) == if self.dependencies@[i as int].is_used {
                    self.unused_upto(i as int)
                } else {
                    self.unused_upto(i as int).push(self.dependencies@[i as int])
                });
            }
            i = i + 1;
        }
        r
    }
}


impl FileImportGraph {
    /// Every walk of `self` is a walk of `g` when `g` has the same entry
    /// points and at least the same edges.
    pub proof fn lemma_walks_carry_over(&self, g: &FileImportGraph, w: Seq<Seq<char>>)
        requires
            forall|p: Seq<char>| self.is_entry(p) ==> #[trigger] g.is_entry(p),
            forall|a: Seq<char>, b: Seq<char>| self.has_edge(a, b) ==> #[trigger] g.has_edge(a, b),
            self.is_walk(w),
        ensures
            g.is_walk(w),
    {
        assert forall|i: int| 0 <= i < w.len() - 1 implies g.has_edge(#[trigger] w[i], w[i + 1]) by {
            assert(self.has_edge(w[i], w[i + 1]));
        }
    }

    /// Adding an import edge out of a reachable file makes its target
    /// reachable, and keeps every reachable file reachable.
    pub proof fn lemma_added_edge_reaches(&self, g: &FileImportGraph, edge: ImportEdge)
        requires
            g.files@ == self.files@,
            g.imports@ == self.imports@.push(edge),
            self.reachable(edge.from@),
        ensures
            g.reachable(edge.to@),
            forall|p: Seq<char>| self.reachable(p) ==> #[trigger] g.reachable(p),
    {
        assert forall|a: Seq<char>, b: Seq<char>| self.has_edge(a, b) implies #[trigger] g.has_edge(a, b) by {
            let i = choose|i: int|
                0 <= i < self.imports.len() && #[trigger] self.imports@[i].from@ == a && self.imports@[i].to@ == b;
            assert(g.imports@[i] == self.imports@[i]);
        }
        assert forall|p: Seq<char>| self.is_entry(p) implies #[trigger] g.is_entry(p) by {
            let i = choose|i: int|
                0 <= i < self.files.len() && #[trigger] self.files@[i].path@ == p && self.files@[i].is_entry_point;
            assert(g.files@[i] == self.files@[i]);
        }
        assert forall|p: Seq<char>| self.reachable(p) implies #[trigger] g.reachable(p) by {
            let w = choose|w: Seq<Seq<char>>| #[trigger] self.is_walk(w) && w.last() == p;
            self.lemma_walks_carry_over(g, w);
        }
        assert(g.imports@[self.imports@.len() as int] == edge);
        assert(g.has_edge(edge.from@, edge.to@));
        g.lemma_edge_reachable(edge.from@, edge.to@);
    }

    /// A path that is no entry point and that no import edge leads to is
    /// not reachable.
    pub proof fn lemma_cut_off_unreachable(&self, x: Seq<char>)
        requires
            !self.is_entry(x),
            forall|i: int| 0 <= i < self.imports.len() ==> #[trigger] self.imports@[i].to@ != x,
        ensures
            !self.reachable(x),
    {
        if self.reachable(x) {
            let w = choose|w: Seq<Seq<char>>| #[trigger] self.is_walk(w) && w.last() == x;
            if w.len() > 1 {
                assert(self.has_edge(w[w.len() - 2], w[w.len() - 1]));
                let i = choose|i: int|
                    0 <= i < self.imports.len() && #[trigger] self.imports@[i].from@ == w[w.len() - 2]
                        && self.imports@[i].to@ == w[w.len() - 1];
            }
        }
    }

    /// The reachable set depends only on which vertices and edges the graph
    /// holds, not on the order in which they were added.
    pub proof fn lemma_order_free(&self, g: &FileImportGraph)
        requires
            forall|i: int| 0 <= i < self.files.len() ==> exists|j: int|
                0 <= j < g.files.len() && #[trigger] g.files@[j] == #[trigger] self.files@[i],
            forall|j: int| 0 <= j < g.files.len() ==> exists|i: int|
                0 <= i < self.files.len() && #[trigger] g.files@[j] == #[trigger] self.files@[i],
            forall|i: int| 0 <= i < self.imports.len() ==> exists|j: int|
                0 <= j < g.imports.len() && #[trigger] g.imports@[j] == #[trigger] self.imports@[i],
            forall|j: int| 0 <= j < g.imports.len() ==> exists|i: int|
                0 <= i < self.imports.len() && #[trigger] g.imports@[j] == #[trigger] self.imports@[i],
        ensures
            forall|p: Seq<char>| #[trigger] self.reachable(p) == g.reachable(p),
    {
        assert forall|a: Seq<char>, b: Seq<char>| self.has_edge(a, b) implies #[trigger] g.has_edge(a, b) by {
            let i = choose|i: int|
                0 <= i < self.imports.len() && #[trigger] self.imports@[i].from@ == a && self.imports@[i].to@ == b;
            let j = choose|j: int| 0 <= j < g.imports.len() && #[trigger] g.imports@[j] == self.imports@[i];
        }
        assert forall|a: Seq<char>, b: Seq<char>| g.has_edge(a, b) implies #[trigger] self.has_edge(a, b) by {
            let j = choose|j: int|
                0 <= j < g.imports.len() && #[trigger] g.imports@[j].from@ == a && g.imports@[j].to@ == b;
            let i = choose|i: int| 0 <= i < self.imports.len() && g.imports@[j] == #[trigger] self.imports@[i];
        }
        assert forall|p: Seq<char>| self.is_entry(p) implies #[trigger] g.is_entry(p) by {
            let i = choose|i: int|
                0 <= i < self.files.len() && #[trigger] self.files@[i].path@ == p && self.files@[i].is_entry_point;
            let j = choose|j: int| 0 <= j < g.files.len() && #[trigger] g.files@[j] == self.files@[i];
        }
        assert forall|p: Seq<char>| g.is_entry(p) implies #[trigger] self.is_entry(p) by {
            let j = choose|j: int|
                0 <= j < g.files.len() && #[trigger] g.files@[j].path@ == p && g.files@[j].is_entry_point;
            let i = choose|i: int| 0 <= i < self.files.len() && g.files@[j] == #[trigger] self.files@[i];
        }
        assert forall|p: Seq<char>| #[trigger] self.reachable(p) == g.reachable(p) by {
            if self.reachable(p) {
                let w = choose|w: Seq<Seq<char>>| #[trigger] self.is_walk(w) && w.last() == p;
                self.lemma_walks_carry_over(g, w);
            }
            if g.reachable(p) {
                let w = choose|w: Seq<Seq<char>>| #[trigger] g.is_walk(w) && w.last() == p;
                g.lemma_walks_carry_over(self, w);
            }
        }
    }
}

} // verus!
