//! A file-system path held as plain values: the root it starts from (empty
//! for a relative path, `/` or a drive prefix for an absolute one) and its
//! normal components.  The application converts `std::path::PathBuf` to and
//! from this type at the edge.
use vstd::prelude::*;

verus! {

/// The mathematical value of a path.
#[verifier::ext_equal]
pub struct PathView {
    pub root: Seq<char>,
    pub parts: Seq<Seq<char>>,
}

pub open spec fn strings_view(v: Seq<String>) -> Seq<Seq<char>> {
    v.map_values(|s: String| s@)
}

/// A path: a root and a list of components.
#[derive(Debug, PartialEq, Eq, Hash)]
pub struct FsPath {
    pub root: String,
    pub parts: Vec<String>,
}

impl View for FsPath {
    type V = PathView;

    open spec fn view(&self) -> PathView {
        PathView { root: self.root@, parts: strings_view(self.parts@) }
    }
}

/// `base` is a component-wise prefix of `p` (as `Path::starts_with`).
pub open spec fn spec_starts_with(p: PathView, base: PathView) -> bool {
    &&& p.root == base.root
    &&& base.parts.len() <= p.parts.len()
    &&& p.parts.subrange(0, base.parts.len() as int) == base.parts
}

/// `p` with the components of `rel` appended; an absolute `rel` replaces `p`
/// (as `Path::join`).
pub open spec fn spec_join(p: PathView, rel: PathView) -> PathView {
    if rel.root.len() > 0 {
        rel
    } else {
        PathView { root: p.root, parts: p.parts + rel.parts }
    }
}

/// `p` with one more component.
pub open spec fn spec_child(p: PathView, name: Seq<char>) -> PathView {
    PathView { root: p.root, parts: p.parts.push(name) }
}

/// The parent of `p`: `None` for a bare root or an empty path.
pub open spec fn spec_parent(p: PathView) -> Option<PathView> {
    if p.parts.len() == 0 {
        None
    } else {
        Some(PathView { root: p.root, parts: p.parts.drop_last() })
    }
}

/// The last component, unless the path ends in `..` or has none.
pub open spec fn spec_file_name(p: PathView) -> Option<Seq<char>> {
    if p.parts.len() == 0 || p.parts.last() == seq!['.', '.'] {
        None
    } else {
        Some(p.parts.last())
    }
}

/// What remains of `p` after `base`, as a relative path.
pub open spec fn spec_strip_prefix(p: PathView, base: PathView) -> Option<PathView> {
    if spec_starts_with(p, base) {
        Some(PathView { root: Seq::empty(), parts: p.parts.skip(base.parts.len() as int) })
    } else {
        None
    }
}

/// The extension of a file name: what follows its last `.`, unless that `.`
/// is the first character.
pub open spec fn spec_extension(name: Seq<char>) -> Option<Seq<char>> {
    if exists|i: int| 0 < i < name.len() && name[i] == '.' {
        let k = choose|i: int|
            0 < i < name.len() && name[i] == '.' && forall|j: int|
                i < j < name.len() ==> name[j] != '.';
        Some(name.skip(k + 1))
    } else {
        None
    }
}

/// The text of a path as shown to the user: the root, then the components
/// separated by `/`.
pub open spec fn spec_display(p: PathView) -> Seq<char> {
    p.root + join_parts(p.parts)
}

pub open spec fn join_parts(parts: Seq<Seq<char>>) -> Seq<char>
    decreases parts.len(),
{
    if parts.len() == 0 {
        Seq::empty()
    } else if parts.len() == 1 {
        parts[0]
    } else {
        join_parts(parts.drop_last()) + seq!['/'] + parts.last()
    }
}

/// A copy of a list of strings.
pub fn clone_strings(v: &Vec<String>) -> (r: Vec<String>)
    ensures
        r@ == v@,
{
    let mut r: Vec<String> = Vec::new();
    let mut i: usize = 0;
    while i < v.len()
        invariant
            i <= v.len(),
            r@ == v@.subrange(0, i as int),
        decreases v.len() - i,
    {
        r.push(v[i].clone());
        i = i + 1;
    }
    assert(r@ == v@);
    r
}

/// Whether two lists of strings are equal.
pub fn strings_equal(a: &Vec<String>, b: &Vec<String>) -> (r: bool)
    ensures
        r == (strings_view(a@) == strings_view(b@)),
{
    if a.len() != b.len() {
        return false;
    }
    let mut i: usize = 0;
    while i < a.len()
        invariant
            i <= a.len(),
            a.len() == b.len(),
            forall|j: int| 0 <= j < i ==> a@[j]@ == b@[j]@,
        decreases a.len() - i,
    {
        if a[i] != b[i] {
            assert(strings_view(a@)[i as int] != strings_view(b@)[i as int]);
            return false;
        }
        i = i + 1;
    }
    assert(strings_view(a@) =~= strings_view(b@));
    true
}

impl Clone for FsPath {
    fn clone(&self) -> (r: Self)
        ensures
            r@ == self@,
    {
        FsPath { root: self.root.clone(), parts: clone_strings(&self.parts) }
    }
}

impl FsPath {
    pub fn new(root: String, parts: Vec<String>) -> (r: FsPath)
        ensures
            r@ == (PathView { root: root@, parts: strings_view(parts@) }),
    {
        FsPath { root, parts }
    }

    /// Whether two paths have the same root and components.
    pub fn same(&self, other: &FsPath) -> (r: bool)
        ensures
            r == (self@ == other@),
    {
        if self.root != other.root {
            return false;
        }
        strings_equal(&self.parts, &other.parts)
    }

    /// This path with one more component, `name`.
    pub fn child(&self, name: &str) -> (r: FsPath)
        ensures
            r@ == spec_child(self@, name@),
    {
        let mut parts = clone_strings(&self.parts);
        parts.push(String::from_str(name));
        let r = FsPath { root: self.root.clone(), parts };
        assert(r@.parts =~= self@.parts.push(name@));
        r
    }

    /// `rel` appended to this path (`rel` itself when it is absolute).
    pub fn join(&self, rel: &FsPath) -> (r: FsPath)
        ensures
            r@ == spec_join(self@, rel@),
    {
        if rel.root.as_str().unicode_len() > 0 {
            return rel.clone();
        }
        let mut parts = clone_strings(&self.parts);
        let mut i: usize = 0;
        while i < rel.parts.len()
            invariant
                i <= rel.parts.len(),
                parts@ == self.parts@ + rel.parts@.subrange(0, i as int),
            decreases rel.parts.len() - i,
        {
            parts.push(rel.parts[i].clone());
            i = i + 1;
        }
        assert(parts@ =~= self.parts@ + rel.parts@);
        let r = FsPath { root: self.root.clone(), parts };
        assert(r@.parts =~= self@.parts + rel@.parts);
        r
    }

    /// The path without its last component.
    pub fn parent(&self) -> (r: Option<FsPath>)
        ensures
            r matches Some(p) ==> spec_parent(self@) == Some(p@),
            r is None <==> spec_parent(self@) is None,
    {
        let n = self.parts.len();
        if n == 0 {
            return None;
        }
        let mut parts: Vec<String> = Vec::new();
        let mut i: usize = 0;
        while i < n - 1
            invariant
                n == self.parts.len(),
                n > 0,
                i <= n - 1,
                parts@ == self.parts@.subrange(0, i as int),
            decreases n - 1 - i,
        {
            parts.push(self.parts[i].clone());
            i = i + 1;
        }
        let r = FsPath { root: self.root.clone(), parts };
        assert(r@.parts =~= self@.parts.drop_last());
        Some(r)
    }

    /// Whether `base` is a component-wise prefix of this path.
    pub fn starts_with(&self, base: &FsPath) -> (r: bool)
        ensures
            r == spec_starts_with(self@, base@),
    {
        if self.root != base.root {
            return false;
        }
        if base.parts.len() > self.parts.len() {
            return false;
        }
        let mut i: usize = 0;
        while i < base.parts.len()
            invariant
                i <= base.parts.len() <= self.parts.len(),
                forall|j: int| 0 <= j < i ==> self.parts@[j]@ == base.parts@[j]@,
            decreases base.parts.len() - i,
        {
            if self.parts[i] != base.parts[i] {
                assert(self@.parts.subrange(0, base@.parts.len() as int)[i as int]
                    != base@.parts[i as int]);
                return false;
            }
            i = i + 1;
        }
        assert(self@.parts.subrange(0, base@.parts.len() as int) =~= base@.parts);
        true
    }

    /// The components of this path after those of `base`, as a relative
    /// path; `None` when `base` is not a prefix.
    pub fn strip_prefix(&self, base: &FsPath) -> (r: Option<FsPath>)
        ensures
            r matches Some(p) ==> spec_strip_prefix(self@, base@) == Some(p@),
            r is None <==> spec_strip_prefix(self@, base@) is None,
    {
        if !self.starts_with(base) {
            return None;
        }
        let mut parts: Vec<String> = Vec::new();
        let mut i: usize = base.parts.len();
        while i < self.parts.len()
            invariant
                base.parts.len() <= i <= self.parts.len(),
                parts@ == self.parts@.subrange(base.parts.len() as int, i as int),
            decreases self.parts.len() - i,
        {
            parts.push(self.parts[i].clone());
            i = i + 1;
        }
        let r = FsPath { root: String::new(), parts };
        assert(r@.parts =~= self@.parts.skip(base@.parts.len() as int));
        assert(r@.root =~= Seq::<char>::empty());
        Some(r)
    }

    /// The last component, unless it is `..` or there is none.
    pub fn file_name(&self) -> (r: Option<String>)
        ensures
            r matches Some(s) ==> spec_file_name(self@) == Some(s@),
            r is None <==> spec_file_name(self@) is None,
    {
        let n = self.parts.len();
        if n == 0 {
            return None;
        }
        let last = &self.parts[n - 1];
        if is_dot_dot(last.as_str()) {
            return None;
        }
        Some(last.clone())
    }

    /// The path as text: its root, then its components separated by `/`.
    pub fn display(&self) -> (r: String)
        ensures
            r@ == spec_display(self@),
    {
        let mut out = self.root.clone();
        let mut i: usize = 0;
        while i < self.parts.len()
            invariant
                i <= self.parts.len(),
                out@ == self@.root + join_parts(self@.parts.subrange(0, i as int)),
            decreases self.parts.len() - i,
        {
            let ghost before = self@.parts.subrange(0, i as int);
            let ghost after = self@.parts.subrange(0, i + 1);
            assert(after.drop_last() =~= before);
            if i > 0 {
                out.append("/");
                proof {
                    reveal_strlit("/");
                }
            }
            out.append(self.parts[i].as_str());
            proof {
                if i == 0 {
                    assert(join_parts(before) =~= Seq::<char>::empty());
                }
            }
            assert(out@ =~= self@.root + join_parts(after));
            i = i + 1;
        }
        assert(self@.parts.subrange(0, self.parts.len() as int) =~= self@.parts);
        out
    }
}

/// Whether a component is exactly `..`.
pub fn is_dot_dot(s: &str) -> (r: bool)
    ensures
        r == (s@ == seq!['.', '.']),
{
    let n = s.unicode_len();
    if n != 2 {
        return false;
    }
    let r = s.get_char(0) == '.' && s.get_char(1) == '.';
    assert(r ==> s@ =~= seq!['.', '.']);
    r
}

/// Whether the extension of file name `name` is `ext`.
pub fn has_extension(name: &str, ext: &str) -> (r: bool)
    ensures
        r == (spec_extension(name@) == Some(ext@)),
{
    let n = name.unicode_len();
    // find the last '.'
    let mut k: usize = n;
    let mut found = false;
    let mut i: usize = n;
    while i > 0 && !found
        invariant
            i <= n,
            n == name@.len(),
            !found ==> forall|j: int| i <= j < n ==> name@[j] != '.',
            found ==> 0 <= k < n && name@[k as int] == '.' && forall|j: int|
                k < j < n ==> name@[j] != '.',
        decreases i,
    {
        i = i - 1;
        if name.get_char(i) == '.' {
            found = true;
            k = i;
        }
    }
    if !found || k == 0 {
        proof {
            if !found {
                assert(!exists|i: int| 0 < i < name@.len() && name@[i] == '.');
            } else {
                assert(!exists|i: int| 0 < i < name@.len() && name@[i] == '.') by {
                    if exists|i: int| 0 < i < name@.len() && name@[i] == '.' {
                        let w = choose|i: int| 0 < i < name@.len() && name@[i] == '.';
                        assert(k < w);
                    }
                }
            }
        }
        return false;
    }
    proof {
        assert(0 < k < name@.len() && name@[k as int] == '.');
        let c = choose|i: int|
            0 < i < name@.len() && name@[i] == '.' && forall|j: int|
                i < j < name@.len() ==> name@[j] != '.';
        assert(c == k) by {
            if c < k {
                assert(name@[k as int] != '.');
            } else if c > k {
            }
        }
        assert(spec_extension(name@) == Some(name@.skip(k + 1)));
    }
    let tail = name.substring_char(k + 1, n);
    assert(name@.skip(k + 1) =~= tail@);
    let m = ext.unicode_len();
    if tail.unicode_len() != m {
        assert(tail@.len() != ext@.len());
        assert(tail@ != ext@);
        return false;
    }
    let mut j: usize = 0;
    while j < m
        invariant
            j <= m,
            m == ext@.len(),
            tail@.len() == m,
            spec_extension(name@) == Some(tail@),
            forall|q: int| 0 <= q < j ==> tail@[q] == ext@[q],
        decreases m - j,
    {
        if tail.get_char(j) != ext.get_char(j) {
            assert(tail@[j as int] != ext@[j as int]);
            return false;
        }
        j = j + 1;
    }
    assert(tail@ =~= ext@);
    assert(name@.skip(k + 1) =~= tail@);
    true
}

} // verus!
