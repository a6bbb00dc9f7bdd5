//! Vault-relative paths, written with `/` separators.
use vstd::prelude::*;
use crate::text::{
    chars_of, ends_with, ends_with_in, replace_char, replace_char_exec, string_of_range,
    strip_trailing, trim, trim_bounds,
};

verus! {

/// `s` without its leading `c` characters (`trim_start_matches(c)`).
pub open spec fn strip_leading(s: Seq<char>, c: char) -> Seq<char>
    decreases s.len(),
{
    if s.len() > 0 && s[0] == c {
        strip_leading(s.drop_first(), c)
    } else {
        s
    }
}

/// A user-supplied path made vault-relative: trimmed, `\` turned into `/`,
/// and leading `/` removed.
pub open spec fn normalized_path(p: Seq<char>) -> Seq<char> {
    strip_leading(replace_char(trim(p), '\\', '/'), '/')
}

/// `.md`
pub open spec fn md_suffix() -> Seq<char> {
    seq!['.', 'm', 'd']
}

/// `s` has a `..` component between `/` separators.
pub open spec fn has_parent_component(s: Seq<char>) -> bool {
    exists|i: int| #[trigger] is_parent_component_at(s, i)
}

/// A `..` component starts at `i`.
pub open spec fn is_parent_component_at(s: Seq<char>, i: int) -> bool {
    &&& 0 <= i
    &&& i + 2 <= s.len()
    &&& s[i] == '.'
    &&& s[i + 1] == '.'
    &&& (i == 0 || s[i - 1] == '/')
    &&& (i + 2 == s.len() || s[i + 2] == '/')
}

/// A path that may be used inside the vault: not absolute and without `..`.
pub open spec fn stays_inside(s: Seq<char>) -> bool {
    !(s.len() > 0 && s[0] == '/') && !has_parent_component(s)
}

/// Why a path was refused.
#[derive(Debug, Clone, Copy, PartialEq, Eq, Structural)]
pub enum PathError {
    /// The path does not name a `.md` file.
    NotMarkdown,
    /// The path is absolute or climbs out with `..`.
    OutsideVault,
}

/// The message of a path error.
pub open spec fn path_error_message(e: PathError) -> Seq<char> {
    match e {
        PathError::NotMarkdown => "path must point to a Markdown .md file"@,
        PathError::OutsideVault => "path must stay inside the vault"@,
    }
}

impl PathError {
    /// The message shown to the user.
    pub fn message(&self) -> (r: String)
        ensures
            r@ == path_error_message(*self),
    {
        match self {
            PathError::NotMarkdown => String::from_str("path must point to a Markdown .md file"),
            PathError::OutsideVault => String::from_str("path must stay inside the vault"),
        }
    }
}

/// What `check_markdown_path` answers for a path.
pub open spec fn markdown_path_result(p: Seq<char>) -> Result<Seq<char>, PathError> {
    let n = normalized_path(p);
    if !ends_with(n, md_suffix()) {
        Err(PathError::NotMarkdown)
    } else if !stays_inside(n) {
        Err(PathError::OutsideVault)
    } else {
        Ok(n)
    }
}

/// Normalizes a vault-relative path.
pub fn normalize_relative_path(path: &str) -> (r: String)
    ensures
        r@ == normalized_path(path@),
{
    let v = chars_of(path);
    let (a, b) = trim_bounds(&v, 0, v.len());
    assert(v@.subrange(0, v@.len() as int) =~= v@);
    let t = string_of_range(&v, a, b);
    let tv = chars_of(t.as_str());
    let w = replace_char_exec(&tv, '\\', '/');
    let mut k: usize = 0;
    assert(w@.skip(0) =~= w@);
    while k < w.len() && w[k] == '/'
        invariant
            k <= w.len(),
            strip_leading(w@, '/') == strip_leading(w@.skip(k as int), '/'),
        decreases w.len() - k,
    {
        assert(w@.skip(k as int).drop_first() =~= w@.skip(k + 1));
        k = k + 1;
    }
    assert(w@.skip(k as int) =~= w@.subrange(k as int, w@.len() as int));
    assert(w@.skip(0) =~= w@);
    string_of_range(&w, k, w.len())
}

/// Whether the vault-relative path `s` is absolute or has a `..` component.
pub fn stays_inside_vault(s: &str) -> (r: bool)
    ensures
        r == stays_inside(s@),
{
    let v = chars_of(s);
    if v.len() > 0 && v[0] == '/' {
        return false;
    }
    let mut i: usize = 0;
    while v.len() >= 2 && i <= v.len() - 2
        invariant
            i <= v.len(),
            v@ == s@,
            forall|j: int| 0 <= j < i ==> !is_parent_component_at(v@, j),
        decreases v.len() - i,
    {
        if v[i] == '.' && v[i + 1] == '.' && (i == 0 || v[i - 1] == '/') && (i + 2 == v.len()
            || v[i + 2] == '/') {
            assert(is_parent_component_at(v@, i as int));
            return false;
        }
        i = i + 1;
    }
    assert forall|j: int| !is_parent_component_at(v@, j) by {
        if 0 <= j < i {
        }
    }
    true
}

/// Normalizes `relative_path` and checks that it names a Markdown file inside the vault.
pub fn check_markdown_path(relative_path: &str) -> (r: Result<String, PathError>)
    ensures
        match r {
            Ok(n) => markdown_path_result(relative_path@) == Ok::<Seq<char>, PathError>(n@),
            Err(e) => markdown_path_result(relative_path@) == Err::<Seq<char>, PathError>(e),
        },
{
    let n = normalize_relative_path(relative_path);
    let nv = chars_of(n.as_str());
    let md: Vec<char> = vec!['.', 'm', 'd'];
    assert(nv@.subrange(0, nv@.len() as int) =~= nv@);
    if !ends_with_in(&nv, 0, nv.len(), &md) {
        return Err(PathError::NotMarkdown);
    }
    if !stays_inside_vault(n.as_str()) {
        return Err(PathError::OutsideVault);
    }
    Ok(n)
}

/// Index of the last `/` in `s`, if any.
pub open spec fn last_slash(s: Seq<char>) -> Option<int>
    decreases s.len(),
{
    if s.len() == 0 {
        None
    } else if s.last() == '/' {
        Some(s.len() - 1)
    } else {
        last_slash(s.drop_last())
    }
}

/// The last `/`-separated component of `s`.
pub open spec fn last_component(s: Seq<char>) -> Seq<char> {
    match last_slash(s) {
        Some(k) => s.skip(k + 1),
        None => s,
    }
}

/// Index of the last `.` in `s`, if any.
pub open spec fn last_dot(s: Seq<char>) -> Option<int>
    decreases s.len(),
{
    if s.len() == 0 {
        None
    } else if s.last() == '.' {
        Some(s.len() - 1)
    } else {
        last_dot(s.drop_last())
    }
}

/// The file name of a path, as `Path::file_name` gives it: trailing `/` and
/// `.` components are skipped; a path that ends in `..`, or that has no
/// component left, has none.
pub open spec fn file_name(s: Seq<char>) -> Option<Seq<char>>
    decreases s.len(),
{
    let t = strip_trailing(s, '/');
    if t.len() == 0 {
        None
    } else {
        let f = last_component(t);
        if f == seq!['.'] {
            proof {
                lemma_strip_trailing_len(s);
            }
            file_name(t.drop_last())
        } else if f == seq!['.', '.'] {
            None
        } else {
            Some(f)
        }
    }
}

/// The stem of a file name: the name without its extension; a name whose only
/// dot is its first character has no extension.
pub open spec fn name_stem(f: Seq<char>) -> Seq<char> {
    match last_dot(f) {
        Some(k) => if k == 0 {
            f
        } else {
            f.take(k)
        },
        None => f,
    }
}

/// The extension of a file name, without the dot, if it has one.
pub open spec fn name_extension(f: Seq<char>) -> Option<Seq<char>> {
    match last_dot(f) {
        Some(k) => if k == 0 {
            None
        } else {
            Some(f.skip(k + 1))
        },
        None => None,
    }
}

/// The file stem of a path (`Path::file_stem`).
pub open spec fn file_stem(s: Seq<char>) -> Option<Seq<char>> {
    match file_name(s) {
        Some(f) => Some(name_stem(f)),
        None => None,
    }
}

/// The path has extension `ext` (`Path::extension() == Some(ext)`).
pub open spec fn has_extension(s: Seq<char>, ext: Seq<char>) -> bool {
    match file_name(s) {
        Some(f) => name_extension(f) == Some(ext),
        None => false,
    }
}

/// Position of the last occurrence of `c` in `v[0..hi]`.
fn last_index_of(v: &Vec<char>, c: char, hi: usize) -> (r: Option<usize>)
    requires
        hi <= v.len(),
    ensures
        match r {
            Some(k) => k < hi && last_slash_like(v@.take(hi as int), c) == Some(k as int),
            None => last_slash_like(v@.take(hi as int), c) is None,
        },
{
    let mut j: usize = hi;
    while j > 0
        invariant
            j <= hi <= v.len(),
            last_slash_like(v@.take(hi as int), c) == last_slash_like(v@.take(j as int), c),
        decreases j,
    {
        assert(v@.take(j as int).last() == v@[j - 1]);
        assert(v@.take(j as int).drop_last() =~= v@.take(j - 1));
        if v[j - 1] == c {
            return Some(j - 1);
        }
        j = j - 1;
    }
    None
}

/// Index of the last `c` in `s`, if any.
pub open spec fn last_slash_like(s: Seq<char>, c: char) -> Option<int>
    decreases s.len(),
{
    if s.len() == 0 {
        None
    } else if s.last() == c {
        Some(s.len() - 1)
    } else {
        last_slash_like(s.drop_last(), c)
    }
}

proof fn lemma_last_slash_like_found(s: Seq<char>, c: char)
    ensures
        last_slash_like(s, c) matches Some(k) ==> 0 <= k < s.len() && s[k] == c,
    decreases s.len(),
{
    if s.len() > 0 && s.last() != c {
        lemma_last_slash_like_found(s.drop_last(), c);
    }
}

proof fn lemma_last_slash_like(s: Seq<char>)
    ensures
        last_slash_like(s, '/') == last_slash(s),
        last_slash_like(s, '.') == last_dot(s),
    decreases s.len(),
{
    if s.len() > 0 {
        lemma_last_slash_like(s.drop_last());
    }
}

/// Start of the last `/`-separated component of `v`.
fn last_component_start(v: &Vec<char>) -> (r: usize)
    ensures
        r <= v.len(),
        v@.skip(r as int) == last_component(v@),
{
    assert(v@.take(v@.len() as int) =~= v@);
    proof {
        lemma_last_slash_like(v@);
    }
    match last_index_of(v, '/', v.len()) {
        Some(k) => k + 1,
        None => {
            assert(v@.skip(0) =~= v@);
            0
        },
    }
}

/// `s` without its trailing `/` is `s` itself or shorter.
pub proof fn lemma_strip_trailing_len(s: Seq<char>)
    ensures
        strip_trailing(s, '/').len() <= s.len(),
    decreases s.len(),
{
    if s.len() > 0 && s.last() == '/' {
        lemma_strip_trailing_len(s.drop_last());
    }
}

/// The bounds `[start, end)` of the file name of `v`, if it has one.
fn file_name_bounds(v: &Vec<char>) -> (r: Option<(usize, usize)>)
    ensures
        match r {
            Some((a, b)) => a < b <= v.len() && file_name(v@) == Some(v@.subrange(a as int, b as int)),
            None => file_name(v@) is None,
        },
{
    let mut hi: usize = v.len();
    assert(v@.take(hi as int) =~= v@);
    while hi > 0
        invariant
            hi <= v.len(),
            file_name(v@) == file_name(v@.take(hi as int)),
        decreases hi,
    {
        let ghost s = v@.take(hi as int);
        assert(s.last() == v@[hi - 1]);
        assert(s.drop_last() =~= v@.take(hi - 1));
        proof {
            lemma_strip_trailing_len(s);
            lemma_strip_trailing_len(s.drop_last());
        }
        if v[hi - 1] == '/' {
            assert(strip_trailing(s, '/') == strip_trailing(s.drop_last(), '/'));
            hi = hi - 1;
        } else {
            assert(strip_trailing(s, '/') == s);
            proof {
                lemma_last_slash_like(s);
                lemma_last_slash_like_found(s, '/');
            }
            let start: usize = match last_index_of(v, '/', hi) {
                Some(k) => k + 1,
                None => 0,
            };
            assert(last_component(s) =~= v@.subrange(start as int, hi as int));
            if hi - start == 1 && v[start] == '.' {
                assert(last_component(s) =~= seq!['.']);
                hi = hi - 1;
            } else if hi - start == 2 && v[start] == '.' && v[start + 1] == '.' {
                assert(last_component(s) =~= seq!['.', '.']);
                return None;
            } else {
                proof {
                    let f = last_component(s);
                    if f == seq!['.'] {
                        assert(f[0] == v@[start as int]);
                    }
                    if f == seq!['.', '.'] {
                        assert(f[0] == v@[start as int]);
                        assert(f[1] == v@[start + 1]);
                    }
                }
                return Some((start, hi));
            }
        }
    }
    assert(v@.take(0) =~= Seq::<char>::empty());
    None
}

/// The name of `v` within `[a, b)` and the position of its last dot, if any.
fn last_dot_in(v: &Vec<char>, a: usize, b: usize) -> (r: Option<usize>)
    requires
        a <= b <= v.len(),
    ensures
        match r {
            Some(k) => a <= k < b && last_dot(v@.subrange(a as int, b as int)) == Some(k - a),
            None => last_dot(v@.subrange(a as int, b as int)) is None,
        },
{
    let ghost f = v@.subrange(a as int, b as int);
    let mut j: usize = b;
    assert(f.take(f.len() as int) =~= f);
    while j > a
        invariant
            a <= j <= b <= v.len(),
            f == v@.subrange(a as int, b as int),
            last_dot(f) == last_dot(f.take(j - a)),
        decreases j,
    {
        let ghost t = f.take(j - a);
        assert(t.last() == v@[j - 1]);
        assert(t.drop_last() =~= f.take(j - 1 - a));
        if v[j - 1] == '.' {
            return Some(j - 1);
        }
        j = j - 1;
    }
    assert(f.take(0) =~= Seq::<char>::empty());
    None
}

/// The file stem of a vault-relative path (`Path::file_stem`), if it has one.
pub fn file_stem_of(path: &str) -> (r: Option<String>)
    ensures
        match r {
            Some(x) => file_stem(path@) == Some(x@),
            None => file_stem(path@) is None,
        },
{
    let v = chars_of(path);
    match file_name_bounds(&v) {
        None => None,
        Some((a, b)) => {
            let ghost f = v@.subrange(a as int, b as int);
            match last_dot_in(&v, a, b) {
                Some(k) => {
                    if k == a {
                        Some(string_of_range(&v, a, b))
                    } else {
                        assert(v@.subrange(a as int, k as int) =~= f.take(k - a));
                        Some(string_of_range(&v, a, k))
                    }
                },
                None => Some(string_of_range(&v, a, b)),
            }
        },
    }
}

/// Whether `path` has the extension `ext` (given without the dot).
pub fn path_has_extension(path: &str, ext: &str) -> (r: bool)
    ensures
        r == has_extension(path@, ext@),
{
    let v = chars_of(path);
    match file_name_bounds(&v) {
        None => false,
        Some((a, b)) => {
            let ghost f = v@.subrange(a as int, b as int);
            match last_dot_in(&v, a, b) {
                Some(k) => {
                    if k == a {
                        false
                    } else {
                        assert(v@.subrange(k + 1, b as int) =~= f.skip(k + 1 - a));
                        let found = string_of_range(&v, k + 1, b);
                        crate::text::str_eq(found.as_str(), ext)
                    }
                },
                None => false,
            }
        },
    }
}

/// The last `/`-separated component of a path.
pub fn last_component_string(path: &str) -> (r: String)
    ensures
        r@ == last_component(path@),
{
    let v = chars_of(path);
    let start = last_component_start(&v);
    assert(v@.skip(start as int) =~= v@.subrange(start as int, v@.len() as int));
    string_of_range(&v, start, v.len())
}

/// Directories that vault walks leave out: Git's and the agent's own state.
pub fn skips_directory(name: &str) -> (r: bool)
    ensures
        r == (name@ == ".git"@ || name@ == ".knowledge-agent"@),
{
    crate::text::str_eq(name, ".git") || crate::text::str_eq(name, ".knowledge-agent")
}

} // verus!
