//! The naming rules of the bootstrap: which paths count as script sources,
//! and how a path turns into the name its tier registers or runs it under.
use vstd::prelude::*;
use vstd::string::*;
use crate::BootstrapError;

verus! {

// Paths in the embedded tree are the relative, '/'-separated paths that the
// tree provider hands out: no trailing separator, no "." or ".." components.
// A file whose name ends in the recognized ".js" extension (with a nonempty
// part before it) is a script source; every other file is skipped.

/// Index of the first character of the path's file name: one past the last
/// '/' in the path, or 0 when the path has no separator.
pub open spec fn name_start(s: Seq<char>) -> int
    decreases s.len(),
{
    if s.len() == 0 {
        0
    } else if s[s.len() - 1] == '/' {
        s.len() as int
    } else {
        name_start(s.take(s.len() - 1))
    }
}

/// The file name of a path: everything after the last '/'.
pub open spec fn file_name_of(s: Seq<char>) -> Seq<char> {
    s.subrange(name_start(s), s.len() as int)
}

/// Whether the path names a script source: its file name carries the
/// recognized ".js" extension after a nonempty stem.
pub open spec fn is_source_path(s: Seq<char>) -> bool {
    let name = file_name_of(s);
    &&& name.len() > 3
    &&& name[name.len() - 3] == '.'
    &&& name[name.len() - 2] == 'j'
    &&& name[name.len() - 1] == 's'
}

/// Whether the whole path ends in the recognized ".js" extension; unlike
/// `is_source_path` this asks nothing of what comes before it.
pub open spec fn ends_with_source_suffix(s: Seq<char>) -> bool {
    &&& s.len() >= 3
    &&& s[s.len() - 3] == '.'
    &&& s[s.len() - 2] == 'j'
    &&& s[s.len() - 1] == 's'
}

/// The path's separators, each turned into the namespace delimiter ':'.
pub open spec fn replace_separators(s: Seq<char>) -> Seq<char> {
    Seq::new(s.len(), |i: int| if s[i] == '/' { ':' } else { s[i] })
}

/// The specifier a nested-tier file is registered under: a fixed prefix
/// followed by the file's stem, its directory path dropped entirely.
pub open spec fn spec_nested_specifier(s: Seq<char>) -> Seq<char> {
    "jsmodule_"@ + s.subrange(name_start(s), s.len() - 3)
}

/// The name an initializer-directory file is evaluated under: the path with
/// the extension stripped and every '/' replaced by ':'.
pub open spec fn spec_global_specifier(s: Seq<char>) -> Seq<char> {
    replace_separators(s.take(s.len() - 3))
}

pub proof fn lemma_name_start_bounds(s: Seq<char>)
    ensures
        0 <= name_start(s) <= s.len(),
    decreases s.len(),
{
    if s.len() == 0 {
    } else if s[s.len() - 1] == '/' {
    } else {
        lemma_name_start_bounds(s.take(s.len() - 1));
    }
}

/// `name_start` is the unique position that sits right after a separator
/// (or at the front) with no separator anywhere after it.
pub proof fn lemma_name_start_char(s: Seq<char>, i: int)
    requires
        0 <= i <= s.len(),
        i == 0 || s[i - 1] == '/',
        forall|j: int| i <= j < s.len() ==> s[j] != '/',
    ensures
        name_start(s) == i,
    decreases s.len(),
{
    if s.len() == 0 {
    } else if s[s.len() - 1] == '/' {
        assert(i == s.len());
    } else {
        assert(i < s.len());
        lemma_name_start_char(s.take(s.len() - 1), i);
    }
}

/// A script source path in particular ends in the recognized extension.
pub proof fn lemma_source_path_has_suffix(s: Seq<char>)
    requires
        is_source_path(s),
    ensures
        ends_with_source_suffix(s),
{
    lemma_name_start_bounds(s);
    let name = file_name_of(s);
    assert(name[name.len() - 3] == s[s.len() - 3]);
    assert(name[name.len() - 2] == s[s.len() - 2]);
    assert(name[name.len() - 1] == s[s.len() - 1]);
}

/// Position of the first character of the file name of `path`.
pub fn find_name_start(path: &str) -> (r: usize)
    ensures
        r as int == name_start(path@),
{
    let n = path.unicode_len();
    let mut i = n;
    while i > 0
        invariant
            i <= n,
            n as int == path@.len(),
            forall|j: int| i <= j < path@.len() ==> path@[j] != '/',
        decreases i,
    {
        if path.get_char(i - 1) == '/' {
            proof {
                lemma_name_start_char(path@, i as int);
            }
            return i;
        }
        i = i - 1;
    }
    proof {
        lemma_name_start_char(path@, 0);
    }
    0
}

/// Whether the path names a script source with the recognized extension.
pub fn is_source_file(path: &str) -> (r: bool)
    ensures
        r == is_source_path(path@),
{
    let n = path.unicode_len();
    let start = find_name_start(path);
    proof {
        lemma_name_start_bounds(path@);
    }
    if n - start <= 3 {
        return false;
    }
    path.get_char(n - 3) == '.' && path.get_char(n - 2) == 'j' && path.get_char(n - 1) == 's'
}

/// Derives the specifier a nested-tier file is registered under. The
/// directory part of the path is ignored, so two source files that share a
/// file name derive the same specifier wherever they live in the tree.
pub fn nested_specifier(path: &str) -> (r: Result<String, BootstrapError>)
    ensures
        r is Ok <==> is_source_path(path@),
        r is Ok ==> r->Ok_0@ == spec_nested_specifier(path@),
        r is Err ==> r->Err_0 == BootstrapError::UnsupportedPath,
{
    if !is_source_file(path) {
        return Err(BootstrapError::UnsupportedPath);
    }
    let n = path.unicode_len();
    let start = find_name_start(path);
    proof {
        lemma_name_start_bounds(path@);
    }
    let stem = path.substring_char(start, n - 3);
    let mut out = String::from_str("jsmodule_");
    out.append(stem);
    Ok(out)
}

/// Derives the name an initializer-directory file is evaluated under:
/// the ".js" suffix stripped, '/' turned into ':'.
pub fn global_specifier(path: &str) -> (r: Result<String, BootstrapError>)
    ensures
        r is Ok <==> ends_with_source_suffix(path@),
        r is Ok ==> r->Ok_0@ == spec_global_specifier(path@),
        r is Err ==> r->Err_0 == BootstrapError::MissingSuffix,
{
    let n = path.unicode_len();
    if n < 3 || !(path.get_char(n - 3) == '.' && path.get_char(n - 2) == 'j' && path.get_char(
        n - 1,
    ) == 's') {
        return Err(BootstrapError::MissingSuffix);
    }
    let body = path.substring_char(0, n - 3);
    let mut out = String::new();
    let mut i: usize = 0;
    while i < n - 3
        invariant
            i <= n - 3,
            n as int == path@.len(),
            n >= 3,
            body@ == path@.take(n - 3),
            out@ == replace_separators(body@.take(i as int)),
        decreases n - 3 - i,
    {
        let c = body.get_char(i);
        if c == '/' {
            proof {
                reveal_strlit(":");
            }
            out.append(":");
        } else {
            out.append(body.substring_char(i, i + 1));
        }
        i = i + 1;
        proof {
            assert(out@ =~= replace_separators(body@.take(i as int)));
        }
    }
    proof {
        assert(body@.take((n - 3) as int) =~= body@);
    }
    Ok(out)
}

} // verus!
