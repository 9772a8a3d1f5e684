use vstd::prelude::*;
use vstd::string::*;

verus! {

/// A path as the sequence of its components.
pub type PathSpec = Seq<Seq<char>>;

/// The view of a path held as a vector of components.
pub open spec fn path_view(p: Vec<String>) -> PathSpec {
    p@.map_values(|c: String| c@)
}

/// The views of a list of paths.
pub open spec fn paths_view(v: Vec<Vec<String>>) -> Seq<PathSpec> {
    v@.map_values(|p: Vec<String>| path_view(p))
}

/// The folder that holds a path: all components but the last. A path of one
/// component lies in the empty folder.
pub open spec fn parent(p: PathSpec) -> PathSpec {
    if p.len() == 0 {
        p
    } else {
        p.drop_last()
    }
}

/// Whether `base` is a leading run of components of `p`.
pub open spec fn has_prefix(p: PathSpec, base: PathSpec) -> bool {
    base.len() <= p.len() && p.subrange(0, base.len() as int) == base
}

/// Whether a component is the name of a file or directory: not empty, not
/// `.` or `..`, and free of `/`.
pub open spec fn is_file_name(c: Seq<char>) -> bool {
    &&& c.len() > 0
    &&& c != seq!['.']
    &&& c != seq!['.', '.']
    &&& !c.contains('/')
}

/// Whether a path ends with the name of a file or directory.
pub open spec fn names_a_file(p: PathSpec) -> bool {
    p.len() > 0 && is_file_name(p.last())
}

/// Whether the characters of `s` end with those of `suffix`.
pub open spec fn ends_with(s: Seq<char>, suffix: Seq<char>) -> bool {
    suffix.len() <= s.len() && s.subrange(s.len() - suffix.len(), s.len() as int) == suffix
}

/// The ending that marks a disc-image index file.
pub open spec fn cue_suffix() -> Seq<char> {
    seq!['.', 'c', 'u', 'e']
}

/// The components joined with `/`, as a path is written.
pub open spec fn join(p: PathSpec) -> Seq<char>
    decreases p.len(),
{
    if p.len() == 0 {
        Seq::empty()
    } else if p.len() == 1 {
        p[0]
    } else {
        join(p.drop_last()) + seq!['/'] + p.last()
    }
}

/// Writes a path as a string, its components separated by `/`.
pub fn path_to_string(p: &Vec<String>) -> (r: String)
    ensures
        r@ == join(path_view(*p)),
{
    let mut s = String::new();
    let mut i: usize = 0;
    while i < p.len()
        invariant
            i <= p@.len(),
            s@ == join(path_view(*p).subrange(0, i as int)),
        decreases p@.len() - i,
    {
        let ghost pv = path_view(*p);
        assert(pv.subrange(0, i + 1).drop_last() =~= pv.subrange(0, i as int));
        if i > 0 {
            let sep = "/";
            proof {
                reveal_strlit("/");
            }
            s.append(sep);
        }
        s.append(p[i].as_str());
        i = i + 1;
    }
    assert(path_view(*p).subrange(0, p@.len() as int) =~= path_view(*p));
    s
}

/// Pushing a component onto a path pushes its view.
proof fn lemma_push_view(r: Seq<String>, c: String)
    ensures
        r.push(c).map_values(|s: String| s@) =~= r.map_values(|s: String| s@).push(c@),
{
}

/// A copy of a path.
pub fn copy_path(p: &Vec<String>) -> (r: Vec<String>)
    ensures
        path_view(r) == path_view(*p),
{
    let mut r: Vec<String> = Vec::new();
    let mut i: usize = 0;
    while i < p.len()
        invariant
            i <= p@.len(),
            path_view(r) =~= path_view(*p).subrange(0, i as int),
        decreases p@.len() - i,
    {
        let c = p[i].clone();
        proof {
            lemma_push_view(r@, c);
        }
        r.push(c);
        i = i + 1;
    }
    r
}

/// Whether two paths have the same components.
pub fn same_path(a: &Vec<String>, b: &Vec<String>) -> (r: bool)
    ensures
        r == (path_view(*a) == path_view(*b)),
{
    if a.len() != b.len() {
        assert(path_view(*a).len() != path_view(*b).len());
        return false;
    }
    let mut i: usize = 0;
    while i < a.len()
        invariant
            i <= a@.len(),
            a@.len() == b@.len(),
            path_view(*a).subrange(0, i as int) =~= path_view(*b).subrange(0, i as int),
        decreases a@.len() - i,
    {
        if a[i] != b[i] {
            assert(path_view(*a)[i as int] != path_view(*b)[i as int]);
            return false;
        }
        i = i + 1;
    }
    assert(path_view(*a) =~= path_view(*a).subrange(0, i as int));
    assert(path_view(*b) =~= path_view(*b).subrange(0, i as int));
    true
}

/// The folder that holds `p`.
pub fn parent_of(p: &Vec<String>) -> (r: Vec<String>)
    ensures
        path_view(r) == parent(path_view(*p)),
{
    let n: usize = if p.len() == 0 { 0 } else { p.len() - 1 };
    let mut r: Vec<String> = Vec::new();
    let mut i: usize = 0;
    while i < n
        invariant
            n <= p@.len(),
            n == parent(path_view(*p)).len(),
            i <= n,
            path_view(r) =~= path_view(*p).subrange(0, i as int),
        decreases n - i,
    {
        let c = p[i].clone();
        proof {
            lemma_push_view(r@, c);
        }
        r.push(c);
        i = i + 1;
    }
    assert(parent(path_view(*p)) =~= path_view(*p).subrange(0, n as int));
    r
}

/// The components of `p` past `base`, where `base` leads `p`.
pub fn strip_prefix(p: &Vec<String>, base: &Vec<String>) -> (r: Option<Vec<String>>)
    ensures
        r is Some <==> has_prefix(path_view(*p), path_view(*base)),
        r matches Some(q) ==> path_view(q) == path_view(*p).skip(base@.len() as int),
{
    if base.len() > p.len() {
        return None;
    }
    let mut i: usize = 0;
    while i < base.len()
        invariant
            base@.len() <= p@.len(),
            i <= base@.len(),
            path_view(*p).subrange(0, i as int) =~= path_view(*base).subrange(0, i as int),
        decreases base@.len() - i,
    {
        if p[i] != base[i] {
            assert(path_view(*p).subrange(0, base@.len() as int)[i as int] != path_view(*base)[i as int]);
            return None;
        }
        i = i + 1;
    }
    assert(path_view(*base) =~= path_view(*base).subrange(0, i as int));
    let mut r: Vec<String> = Vec::new();
    let mut j: usize = base.len();
    while j < p.len()
        invariant
            base@.len() <= j <= p@.len(),
            path_view(r) =~= path_view(*p).subrange(base@.len() as int, j as int),
        decreases p@.len() - j,
    {
        let c = p[j].clone();
        proof {
            lemma_push_view(r@, c);
        }
        r.push(c);
        j = j + 1;
    }
    Some(r)
}

/// Whether `p` ends with the name of a file or directory.
pub fn has_file_name(p: &Vec<String>) -> (r: bool)
    ensures
        r == names_a_file(path_view(*p)),
{
    if p.len() == 0 {
        return false;
    }
    let c = p[p.len() - 1].as_str();
    let ghost cv = path_view(*p).last();
    assert(cv == c@);
    let n = c.unicode_len();
    if n == 0 {
        return false;
    }
    if n == 1 && c.get_char(0) == '.' {
        assert(c@ =~= seq!['.']);
        return false;
    }
    if n == 2 && c.get_char(0) == '.' && c.get_char(1) == '.' {
        assert(c@ =~= seq!['.', '.']);
        return false;
    }
    assert(c@ != seq!['.']) by {
        if n == 1 {
            assert(seq!['.'][0] == '.');
        }
    }
    assert(c@ != seq!['.', '.']) by {
        if n == 2 {
            assert(seq!['.', '.'][0] == '.' && seq!['.', '.'][1] == '.');
        }
    }
    let mut i: usize = 0;
    while i < n
        invariant
            i <= n,
            n == c@.len(),
            p@.len() > 0,
            c@ == path_view(*p).last(),
            forall|k: int| 0 <= k < i ==> c@[k] != '/',
        decreases n - i,
    {
        if c.get_char(i) == '/' {
            assert(c@[i as int] == '/');
            return false;
        }
        i = i + 1;
    }
    true
}

/// Whether a file name ends with `.cue`.
pub fn is_cue_name(name: &String) -> (r: bool)
    ensures
        r == ends_with(name@, cue_suffix()),
{
    let s = name.as_str();
    let n = s.unicode_len();
    if n < 4 {
        return false;
    }
    let r = s.get_char(n - 4) == '.' && s.get_char(n - 3) == 'c' && s.get_char(n - 2) == 'u'
        && s.get_char(n - 1) == 'e';
    assert(r ==> s@.subrange(n - 4, n as int) =~= cue_suffix());
    assert(ends_with(name@, cue_suffix()) ==> s@.subrange(n - 4, n as int)[0] == '.'
        && s@.subrange(n - 4, n as int)[1] == 'c' && s@.subrange(n - 4, n as int)[2] == 'u'
        && s@.subrange(n - 4, n as int)[3] == 'e');
    r
}

} // verus!
