//! Path and text manipulation for the scanner: recognising descriptor
//! paths, deriving the sibling asset path, removing a leading byte-order
//! mark, and stripping a project-root prefix.
//!
//! Paths are plain strings with `/` as the separator.

use vstd::prelude::*;

verus! {

use vstd::string::StrSliceExecFns;

/// Whether the path names a descriptor file: it ends in the descriptor
/// suffix `.meta`, and the dot of the suffix does not begin the file name
/// (a file named exactly `.meta` has no extension, only a hidden name).
pub open spec fn spec_is_descriptor_path(s: Seq<char>) -> bool {
    &&& s.len() >= 6
    &&& s[s.len() - 5] == '.'
    &&& s[s.len() - 4] == 'm'
    &&& s[s.len() - 3] == 'e'
    &&& s[s.len() - 2] == 't'
    &&& s[s.len() - 1] == 'a'
    &&& s[s.len() - 6] != '/'
}

/// The candidate asset path of a descriptor: the descriptor path with the
/// suffix removed.
pub open spec fn spec_asset_path(s: Seq<char>) -> Seq<char>
    recommends
        spec_is_descriptor_path(s),
{
    s.subrange(0, s.len() - 5)
}

pub fn is_descriptor_path(path: &str) -> (r: bool)
    ensures
        r == spec_is_descriptor_path(path@),
{
    let n: usize = path.unicode_len();
    if n < 6 {
        return false;
    }
    path.get_char(n - 5) == '.' && path.get_char(n - 4) == 'm' && path.get_char(n - 3) == 'e'
        && path.get_char(n - 2) == 't' && path.get_char(n - 1) == 'a' && path.get_char(n - 6)
        != '/'
}

pub fn asset_path_of(path: &str) -> (r: String)
    requires
        spec_is_descriptor_path(path@),
    ensures
        r@ == spec_asset_path(path@),
{
    let n: usize = path.unicode_len();
    path.substring_char(0, n - 5).to_owned()
}

/// The sequence with every leading occurrence of `c` removed.
pub open spec fn spec_drop_leading(s: Seq<char>, c: char) -> Seq<char>
    decreases s.len(),
{
    if s.len() > 0 && s[0] == c {
        spec_drop_leading(s.subrange(1, s.len() as int), c)
    } else {
        s
    }
}

/// The text with every leading byte-order mark removed.
pub open spec fn spec_strip_bom(s: Seq<char>) -> Seq<char> {
    spec_drop_leading(s, '\u{feff}')
}

/// Dropping leading `c`s keeps exactly the suffix that starts at the first
/// position not holding `c`.
proof fn lemma_drop_leading_at(s: Seq<char>, c: char, i: int)
    requires
        0 <= i <= s.len(),
        forall|j: int| 0 <= j < i ==> s[j] == c,
        i < s.len() ==> s[i] != c,
    ensures
        spec_drop_leading(s, c) == s.subrange(i, s.len() as int),
    decreases i,
{
    if i == 0 {
        assert(s.subrange(0, s.len() as int) =~= s);
    } else {
        let t = s.subrange(1, s.len() as int);
        lemma_drop_leading_at(t, c, i - 1);
        assert(t.subrange(i - 1, t.len() as int) =~= s.subrange(i, s.len() as int));
    }
}

/// What remains after dropping leading `c`s is a suffix of the input, and
/// every character in front of it is `c`.
proof fn lemma_drop_leading_suffix(s: Seq<char>, c: char)
    ensures
        spec_drop_leading(s, c).len() <= s.len(),
        spec_drop_leading(s, c) == s.subrange(
            s.len() - spec_drop_leading(s, c).len(),
            s.len() as int,
        ),
        forall|j: int| 0 <= j < s.len() - spec_drop_leading(s, c).len() ==> s[j] == c,
    decreases s.len(),
{
    if s.len() > 0 && s[0] == c {
        let t = s.subrange(1, s.len() as int);
        lemma_drop_leading_suffix(t, c);
        let d = spec_drop_leading(s, c);
        assert(t.subrange(t.len() - d.len(), t.len() as int) =~= s.subrange(
            s.len() - d.len(),
            s.len() as int,
        ));
        assert forall|j: int| 0 <= j < s.len() - d.len() implies s[j] == c by {
            if j >= 1 {
                assert(t[j - 1] == s[j]);
            }
        }
    } else {
        assert(s.subrange(s.len() - s.len(), s.len() as int) =~= s);
    }
}

pub fn strip_bom(content: &str) -> (r: String)
    ensures
        r@ == spec_strip_bom(content@),
{
    let n: usize = content.unicode_len();
    let mut i: usize = 0;
    while i < n && content.get_char(i) == '\u{feff}'
        invariant
            i <= n,
            n == content@.len(),
            forall|j: int| 0 <= j < i ==> content@[j] == '\u{feff}',
        decreases n - i,
    {
        i = i + 1;
    }
    proof {
        lemma_drop_leading_at(content@, '\u{feff}', i as int);
    }
    content.substring_char(i, n).to_owned()
}

/// The root with trailing separators removed.
pub open spec fn spec_trim_trailing_slashes(s: Seq<char>) -> Seq<char>
    decreases s.len(),
{
    if s.len() > 0 && s[s.len() - 1] == '/' {
        spec_trim_trailing_slashes(s.subrange(0, s.len() - 1))
    } else {
        s
    }
}

/// Trimming trailing separators keeps exactly the prefix that ends at the
/// last position not holding a separator.
proof fn lemma_trim_trailing_at(s: Seq<char>, i: int)
    requires
        0 <= i <= s.len(),
        forall|j: int| i <= j < s.len() ==> s[j] == '/',
        i > 0 ==> s[i - 1] != '/',
    ensures
        spec_trim_trailing_slashes(s) == s.subrange(0, i),
    decreases s.len(),
{
    if s.len() > 0 && s[s.len() - 1] == '/' {
        let t = s.subrange(0, s.len() - 1);
        lemma_trim_trailing_at(t, i);
        assert(t.subrange(0, i) =~= s.subrange(0, i));
    } else {
        assert(i == s.len());
        assert(s.subrange(0, s.len() as int) =~= s);
    }
}

/// Root-prefix stripping over the library's path model.  The root, less
/// its trailing separators, must either be empty (nothing to strip), equal
/// the whole path, or be followed in the path by a separator; the
/// remainder is returned without its leading separators.
pub open spec fn spec_strip_root(path: Seq<char>, root: Seq<char>) -> Option<Seq<char>> {
    let t = spec_trim_trailing_slashes(root);
    if t.len() == 0 {
        Some(path)
    } else if path == t {
        Some(Seq::<char>::empty())
    } else if path.len() > t.len() && path.subrange(0, t.len() as int) == t && path[t.len() as int]
        == '/' {
        Some(spec_drop_leading(path.subrange(t.len() as int, path.len() as int), '/'))
    } else {
        None
    }
}

pub fn strip_root(path: &str, root: &str) -> (r: Option<String>)
    ensures
        r matches Some(s) ==> spec_strip_root(path@, root@) == Some(s@),
        r is None ==> spec_strip_root(path@, root@) is None,
{
    let n: usize = path.unicode_len();
    let rn: usize = root.unicode_len();

    // Trim the root's trailing separators.
    let mut e: usize = rn;
    while e > 0 && root.get_char(e - 1) == '/'
        invariant
            e <= rn,
            rn == root@.len(),
            forall|j: int| e <= j < rn ==> root@[j] == '/',
        decreases e,
    {
        e = e - 1;
    }
    proof {
        lemma_trim_trailing_at(root@, e as int);
    }

    if e == 0 {
        return Some(path.to_owned());
    }
    if n < e {
        return None;
    }

    // Compare the trimmed root with the path's first characters.
    let mut k: usize = 0;
    while k < e && path.get_char(k) == root.get_char(k)
        invariant
            k <= e,
            e <= n,
            e <= rn,
            n == path@.len(),
            rn == root@.len(),
            forall|j: int| 0 <= j < k ==> path@[j] == root@[j],
        decreases e - k,
    {
        k = k + 1;
    }
    if k < e {
        proof {
            assert(path@[k as int] != root@[k as int]);
            assert(spec_trim_trailing_slashes(root@)[k as int] == root@[k as int]);
        }
        return None;
    }
    proof {
        assert(path@.subrange(0, e as int) =~= root@.subrange(0, e as int));
    }

    if n == e {
        let empty = String::new();
        proof {
            assert(path@ =~= root@.subrange(0, e as int));
        }
        return Some(empty);
    }
    if path.get_char(e) != '/' {
        return None;
    }

    // Drop the separators that follow the root.
    let mut d: usize = e;
    while d < n && path.get_char(d) == '/'
        invariant
            e <= d <= n,
            n == path@.len(),
            forall|j: int| e <= j < d ==> path@[j] == '/',
        decreases n - d,
    {
        d = d + 1;
    }
    proof {
        let rest = path@.subrange(e as int, n as int);
        lemma_drop_leading_at(rest, '/', d - e);
        assert(rest.subrange(d - e, rest.len() as int) =~= path@.subrange(d as int, n as int));
    }
    Some(path.substring_char(d, n).to_owned())
}

/// When stripping succeeds, the trimmed root is a prefix of the path, the
/// result is a suffix of it, and only separators stand between the two.
pub proof fn lemma_strip_root_decomposition(path: Seq<char>, root: Seq<char>, s: Seq<char>)
    requires
        spec_strip_root(path, root) == Some(s),
    ensures
        spec_trim_trailing_slashes(root).len() + s.len() <= path.len(),
        path.subrange(0, spec_trim_trailing_slashes(root).len() as int)
            == spec_trim_trailing_slashes(root),
        s == path.subrange(path.len() - s.len(), path.len() as int),
        forall|j: int|
            spec_trim_trailing_slashes(root).len() <= j < path.len() - s.len() ==> path[j] == '/',
{
    let t = spec_trim_trailing_slashes(root);
    if t.len() == 0 {
        assert(path.subrange(0, 0) =~= t);
        assert(path.subrange(0, path.len() as int) =~= path);
    } else if path == t {
        assert(path.subrange(0, t.len() as int) =~= t);
        assert(path.subrange(path.len() as int, path.len() as int) =~= s);
    } else {
        let rest = path.subrange(t.len() as int, path.len() as int);
        lemma_drop_leading_suffix(rest, '/');
        assert(rest.subrange(rest.len() - s.len(), rest.len() as int) =~= path.subrange(
            path.len() - s.len(),
            path.len() as int,
        ));
        assert forall|j: int| t.len() <= j < path.len() - s.len() implies path[j] == '/' by {
            assert(rest[j - t.len()] == path[j]);
        }
    }
}

} // verus!
