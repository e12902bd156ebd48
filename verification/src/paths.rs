//! Path strings: extensions, absoluteness, joining and best-effort resolution.

use vstd::prelude::*;

verus! {

/// A path is absolute when it begins with the separator `/`.
pub open spec fn is_absolute(path: Seq<char>) -> bool {
    path.len() > 0 && path[0] == '/'
}

/// Whether `path` begins with `/`.
pub fn is_absolute_path(path: &str) -> (r: bool)
    ensures
        r == is_absolute(path@),
{
    path.unicode_len() > 0 && path.get_char(0) == '/'
}

/// The final component of a path: the characters after the last `/`, or the
/// whole string when no `/` occurs.  Empty when the path ends with `/`.
pub open spec fn final_component(path: Seq<char>) -> Seq<char>
    decreases path.len(),
{
    if path.len() == 0 {
        path
    } else if path.last() == '/' {
        Seq::empty()
    } else {
        final_component(path.drop_last()).push(path.last())
    }
}

/// The position, within a file name, of the dot that separates its extension:
/// the last `.` at index 1 or later.  A dot at index 0 marks a hidden file and
/// separates no extension.
pub open spec fn extension_dot(name: Seq<char>) -> Option<int>
    decreases name.len(),
{
    if name.len() <= 1 {
        None::<int>
    } else if name.last() == '.' {
        Some(name.len() - 1)
    } else {
        extension_dot(name.drop_last())
    }
}

/// The extension of a path: the part of its final component after the
/// extension dot, or nothing when the component has none.
pub open spec fn extension_of(path: Seq<char>) -> Option<Seq<char>> {
    let name = final_component(path);
    match extension_dot(name) {
        Some(d) => Some(name.subrange(d + 1, name.len() as int)),
        None => None::<Seq<char>>,
    }
}

/// The extensions recognized as markdown documents, exactly and
/// case-sensitively: `md` and `markdown`.
pub open spec fn has_markdown_ext(path: Seq<char>) -> bool {
    ||| extension_of(path) == Some(seq!['m', 'd'])
    ||| extension_of(path) == Some(seq!['m', 'a', 'r', 'k', 'd', 'o', 'w', 'n'])
}

/// When no `/` occurs at or after position `k`, and `k` sits just past a `/`
/// (or at the start), the final component is exactly the tail from `k`.
proof fn lemma_final_component_tail(path: Seq<char>, k: int)
    requires
        0 <= k <= path.len(),
        k == 0 || path[k - 1] == '/',
        forall|j: int| k <= j < path.len() ==> path[j] != '/',
    ensures
        final_component(path) == path.subrange(k, path.len() as int),
    decreases path.len(),
{
    if path.len() == 0 {
        assert(final_component(path) =~= path.subrange(k, path.len() as int));
    } else if k == path.len() {
        assert(path.last() == '/');
        assert(final_component(path) =~= path.subrange(k, path.len() as int));
    } else {
        assert(path.last() != '/');
        lemma_final_component_tail(path.drop_last(), k);
        assert(final_component(path) == path.drop_last().subrange(
            k,
            path.drop_last().len() as int,
        ).push(path.last()));
        assert(final_component(path) =~= path.subrange(k, path.len() as int));
    }
}

/// A last dot at index 1 or later is the extension dot.
proof fn lemma_extension_dot_at(name: Seq<char>, d: int)
    requires
        1 <= d < name.len(),
        name[d] == '.',
        forall|j: int| d < j < name.len() ==> name[j] != '.',
    ensures
        extension_dot(name) == Some(d),
    decreases name.len(),
{
    if d == name.len() - 1 {
        assert(name.last() == '.');
    } else {
        assert(name.last() != '.');
        lemma_extension_dot_at(name.drop_last(), d);
    }
}

/// A name with no dot at index 1 or later has no extension dot.
proof fn lemma_extension_dot_none(name: Seq<char>)
    requires
        forall|j: int| 1 <= j < name.len() ==> name[j] != '.',
    ensures
        extension_dot(name) is None,
    decreases name.len(),
{
    if name.len() <= 1 {
    } else {
        assert(name.last() != '.');
        lemma_extension_dot_none(name.drop_last());
    }
}

/// Whether the extension of `path` is exactly `md` or `markdown`.
pub fn has_markdown_extension(path: &str) -> (r: bool)
    ensures
        r == has_markdown_ext(path@),
{
    let n = path.unicode_len();
    let mut comp_start: usize = 0;
    let mut i: usize = 0;
    while i < n
        invariant
            n == path@.len(),
            0 <= comp_start <= i <= n,
            comp_start == 0 || path@[comp_start - 1] == '/',
            forall|j: int| comp_start <= j < i ==> path@[j] != '/',
        decreases n - i,
    {
        if path.get_char(i) == '/' {
            comp_start = i + 1;
        }
        i += 1;
    }
    let ghost name = path@.subrange(comp_start as int, n as int);
    proof {
        lemma_final_component_tail(path@, comp_start as int);
    }
    let mut dot: usize = 0;
    let mut has_dot = false;
    let mut i: usize = comp_start;
    while i < n
        invariant
            n == path@.len(),
            comp_start <= i <= n,
            has_dot ==> comp_start < dot < i && path@[dot as int] == '.' && forall|j: int|
                dot < j < i ==> path@[j] != '.',
            !has_dot ==> forall|j: int| comp_start < j < i ==> path@[j] != '.',
        decreases n - i,
    {
        if i > comp_start && path.get_char(i) == '.' {
            dot = i;
            has_dot = true;
        }
        i += 1;
    }
    if !has_dot {
        proof {
            assert(forall|j: int| 1 <= j < name.len() ==> name[j] == path@[comp_start + j]
                && name[j] != '.');
            lemma_extension_dot_none(name);
        }
        return false;
    }
    proof {
        lemma_extension_dot_at(name, dot - comp_start);
    }
    let ghost ext = name.subrange(dot - comp_start + 1, name.len() as int);
    assert(extension_of(path@) == Some(ext));
    assert(forall|j: int| 0 <= j < ext.len() ==> ext[j] == path@[dot + 1 + j]);
    let ext_len = n - dot - 1;
    assert(ext.len() == ext_len);
    if ext_len == 2 {
        let r = path.get_char(dot + 1) == 'm' && path.get_char(dot + 2) == 'd';
        proof {
            if r {
                assert(ext =~= seq!['m', 'd']);
            } else {
                assert(ext != seq!['m', 'd']);
                assert(ext != seq!['m', 'a', 'r', 'k', 'd', 'o', 'w', 'n']);
            }
        }
        r
    } else if ext_len == 8 {
        let r = path.get_char(dot + 1) == 'm' && path.get_char(dot + 2) == 'a' && path.get_char(
            dot + 3,
        ) == 'r' && path.get_char(dot + 4) == 'k' && path.get_char(dot + 5) == 'd'
            && path.get_char(dot + 6) == 'o' && path.get_char(dot + 7) == 'w' && path.get_char(
            dot + 8,
        ) == 'n';
        proof {
            if r {
                assert(ext =~= seq!['m', 'a', 'r', 'k', 'd', 'o', 'w', 'n']);
            } else {
                assert(ext != seq!['m', 'a', 'r', 'k', 'd', 'o', 'w', 'n']);
                assert(ext != seq!['m', 'd']);
            }
        }
        r
    } else {
        proof {
            assert(ext != seq!['m', 'd']);
            assert(ext != seq!['m', 'a', 'r', 'k', 'd', 'o', 'w', 'n']);
        }
        false
    }
}

/// The view of an optional borrowed string.
pub open spec fn str_opt_view(s: Option<&str>) -> Option<Seq<char>> {
    match s {
        Some(c) => Some(c@),
        None => None::<Seq<char>>,
    }
}

/// The view of an optional owned string.
pub open spec fn string_opt_view(s: &Option<String>) -> Option<Seq<char>> {
    match s {
        Some(c) => Some(c@),
        None => None::<Seq<char>>,
    }
}

/// `rel` appended to the directory `cwd`, with exactly one separator between
/// them.
pub open spec fn join_paths(cwd: Seq<char>, rel: Seq<char>) -> Seq<char> {
    if cwd.len() > 0 && cwd.last() == '/' {
        cwd + rel
    } else {
        cwd + seq!['/'] + rel
    }
}

/// Joins `rel` onto the directory `cwd`.
pub fn join_path(cwd: &str, rel: &str) -> (r: String)
    ensures
        r@ == join_paths(cwd@, rel@),
{
    let mut out = cwd.to_owned();
    let clen = cwd.unicode_len();
    if !(clen > 0 && cwd.get_char(clen - 1) == '/') {
        out.append("/");
        proof {
            reveal_strlit("/");
            assert(out@ =~= cwd@ + seq!['/']);
        }
    }
    out.append(rel);
    out
}

/// What a path resolves to before canonicalization: an absolute path is kept
/// as given; a relative one is joined to the working directory when one is
/// known, and kept as given otherwise.
pub open spec fn pre_resolved(path: Seq<char>, cwd: Option<Seq<char>>) -> Seq<char> {
    if is_absolute(path) {
        path
    } else {
        match cwd {
            Some(c) => join_paths(c, path),
            None => path,
        }
    }
}

/// Makes `path` absolute against `cwd` where possible, without consulting the
/// file system.
pub fn pre_resolve(path: &str, cwd: Option<&str>) -> (r: String)
    ensures
        r@ == pre_resolved(path@, str_opt_view(cwd)),
{
    if is_absolute_path(path) {
        path.to_owned()
    } else {
        match cwd {
            Some(c) => join_path(c, path),
            None => path.to_owned(),
        }
    }
}

/// What resolution returns: the canonical form when the file system produced
/// one for the pre-resolved path, and the pre-resolved path itself otherwise.
pub open spec fn resolved(
    path: Seq<char>,
    cwd: Option<Seq<char>>,
    canonical: Option<Seq<char>>,
) -> Seq<char> {
    match canonical {
        Some(c) => c,
        None => pre_resolved(path, cwd),
    }
}

/// Resolves `path` to an absolute string.  `canonical` is the outcome of the
/// caller's attempt to canonicalize the pre-resolved path; on failure (`None`)
/// the pre-resolved path stands, so some string is always returned.
pub fn resolve_absolute(path: &str, cwd: Option<&str>, canonical: Option<String>) -> (r: String)
    ensures
        r@ == resolved(path@, str_opt_view(cwd), string_opt_view(&canonical)),
{
    match canonical {
        Some(c) => c,
        None => pre_resolve(path, cwd),
    }
}

/// Pre-resolution yields an absolute path whenever the input is absolute or a
/// working directory is known and absolute.
pub proof fn lemma_pre_resolved_absolute(path: Seq<char>, cwd: Option<Seq<char>>)
    requires
        is_absolute(path) || (cwd matches Some(c) && is_absolute(c)),
    ensures
        is_absolute(pre_resolved(path, cwd)),
{
    if !is_absolute(path) {
        let c = cwd->Some_0;
        assert(join_paths(c, path)[0] == c[0]);
    }
}

/// Pre-resolution is idempotent when the working directory, if known, is
/// absolute: resolving an already-resolved path changes nothing.
pub proof fn lemma_pre_resolve_idempotent(path: Seq<char>, cwd: Option<Seq<char>>)
    requires
        cwd matches Some(c) ==> is_absolute(c),
    ensures
        pre_resolved(pre_resolved(path, cwd), cwd) == pre_resolved(path, cwd),
{
    if is_absolute(path) {
    } else {
        match cwd {
            Some(c) => {
                lemma_pre_resolved_absolute(path, cwd);
            },
            None => {
            },
        }
    }
}

/// An already-absolute path whose canonical form is itself resolves to that
/// very string, with or without the file system's help.
pub proof fn lemma_resolve_absolute_idempotent(path: Seq<char>, cwd: Option<Seq<char>>)
    requires
        is_absolute(path),
    ensures
        resolved(path, cwd, Some(path)) == path,
        resolved(path, cwd, None) == path,
{
}

} // verus!
