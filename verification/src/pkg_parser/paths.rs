//! Archive paths as strings, read the way `std::path::Path` reads them on
//! Unix: components are separated by `/`, repeated separators and `.`
//! components count for nothing (a leading `.` and a leading `/` excepted),
//! and trailing ones are set aside. The file name is the last component
//! unless that is `.`, `..` or the root; its extension follows its last `.`
//! (a leading dot starts no extension).
use vstd::prelude::*;

verus! {

/// The index of the last `c` in `s`.
pub open spec fn last_index_of(s: Seq<char>, c: char) -> Option<int>
    decreases s.len(),
{
    if s.len() == 0 {
        None
    } else if s.last() == c {
        Some(s.len() - 1)
    } else {
        last_index_of(s.drop_last(), c)
    }
}

/// Where `p` ends once trailing separators and trailing `.` components are
/// set aside; a leading `/` (the root) or a lone leading `.` stays.
pub open spec fn trimmed_end(p: Seq<char>) -> int
    decreases p.len(),
{
    if p.len() >= 2 && (p.last() == '/' || (p.last() == '.' && p[p.len() - 2] == '/')) {
        trimmed_end(p.drop_last())
    } else {
        p.len() as int
    }
}

/// Where the last component of `path` starts: just after the last `/`
/// before its trimmed end, or at 0.
pub open spec fn last_component_start(path: Seq<char>) -> int {
    match last_index_of(path.subrange(0, trimmed_end(path)), '/') {
        Some(i) => i + 1,
        None => 0,
    }
}

/// The span `(start, end)` of the file name: the last component, when it
/// is neither empty (the root), `.` nor `..`.
pub open spec fn file_name_span(path: Seq<char>) -> Option<(int, int)> {
    let e = trimmed_end(path);
    let s = last_component_start(path);
    let name = path.subrange(s, e);
    if name.len() == 0 || name == seq!['.'] || name == seq!['.', '.'] {
        None
    } else {
        Some((s, e))
    }
}

/// The position of the dot that starts the file name's extension: its last
/// dot, unless that is its first character.
pub open spec fn extension_dot(path: Seq<char>) -> Option<int> {
    match file_name_span(path) {
        None => None,
        Some((s, e)) => match last_index_of(path.subrange(s, e), '.') {
            Some(d) => if d > 0 {
                Some(s + d)
            } else {
                None
            },
            None => None,
        },
    }
}

/// Where the file name's stem ends: at its extension's dot, or at the end
/// of the file name.
pub open spec fn stem_end(path: Seq<char>) -> int {
    match extension_dot(path) {
        Some(d) => d,
        None => trimmed_end(path),
    }
}

/// The extension of the file name (empty when it has none).
pub open spec fn path_extension(path: Seq<char>) -> Seq<char> {
    match extension_dot(path) {
        Some(d) => path.subrange(d + 1, trimmed_end(path)),
        None => seq![],
    }
}

/// The file name without its extension (empty when there is no file name).
pub open spec fn path_stem(path: Seq<char>) -> Seq<char> {
    match file_name_span(path) {
        Some((s, _)) => path.subrange(s, stem_end(path)),
        None => seq![],
    }
}

/// The path cut right after the file name's stem, followed by `.` and `ext`
/// when `ext` is not empty; a path without a file name stays as it is.
pub open spec fn path_with_extension(path: Seq<char>, ext: Seq<char>) -> Seq<char> {
    match file_name_span(path) {
        None => path,
        Some(_) => if ext.len() == 0 {
            path.subrange(0, stem_end(path))
        } else {
            path.subrange(0, stem_end(path)) + seq!['.'] + ext
        },
    }
}

/// Where the parent of a path with a file name ends (its trailing
/// separators and `.` components set aside); the whole path when there is no
/// file name.
pub open spec fn parent_end(path: Seq<char>) -> int {
    match file_name_span(path) {
        Some((s, _)) => trimmed_end(path.subrange(0, s)),
        None => path.len() as int,
    }
}

/// `name` appended to `base` as a further component: a `/` goes between
/// them unless `base` is empty or ends in one; an absolute `name` replaces
/// `base`.
pub open spec fn pushed(base: Seq<char>, name: Seq<char>) -> Seq<char> {
    if name.len() > 0 && name[0] == '/' {
        name
    } else if base.len() > 0 && base.last() != '/' {
        base + seq!['/'] + name
    } else {
        base + name
    }
}

/// The path with its file name replaced by `name`: `name` pushed onto the
/// parent, or onto the whole path when it has no file name.
pub open spec fn path_with_file_name(path: Seq<char>, name: Seq<char>) -> Seq<char> {
    pushed(path.subrange(0, parent_end(path)), name)
}

/// `c` lower-cased if it is an ASCII capital letter.
pub open spec fn ascii_lower(c: char) -> char {
    if 'A' <= c <= 'Z' {
        ((c as int) + 32) as char
    } else {
        c
    }
}

/// `s` with its ASCII capital letters lower-cased.
pub open spec fn ascii_lowercase(s: Seq<char>) -> Seq<char> {
    Seq::new(s.len(), |i: int| ascii_lower(s[i]))
}

/// The file name extension, lower-cased in ASCII.
pub open spec fn lower_extension(path: Seq<char>) -> Seq<char> {
    ascii_lowercase(path_extension(path))
}

/// `p` lies in the directory of `path`: it starts with the parent of
/// `path`.
pub open spec fn in_directory_of(p: Seq<char>, path: Seq<char>) -> bool {
    let d = parent_end(path);
    d <= p.len() && p.subrange(0, d) == path.subrange(0, d)
}

proof fn lemma_last_index_bounds(s: Seq<char>, c: char)
    ensures
        last_index_of(s, c) matches Some(i) ==> 0 <= i < s.len() && s[i] == c && forall|j: int|
            i < j < s.len() ==> s[j] != c,
        last_index_of(s, c) is None ==> forall|j: int| 0 <= j < s.len() ==> s[j] != c,
    decreases s.len(),
{
    if s.len() > 0 && s.last() != c {
        lemma_last_index_bounds(s.drop_last(), c);
        assert forall|j: int| 0 <= j < s.len() - 1 implies s[j] == s.drop_last()[j] by {}
    }
}

proof fn lemma_trimmed_end_bounds(p: Seq<char>)
    ensures
        0 <= trimmed_end(p) <= p.len(),
        p.len() > 0 ==> trimmed_end(p) > 0,
    decreases p.len(),
{
    if p.len() >= 2 && (p.last() == '/' || (p.last() == '.' && p[p.len() - 2] == '/')) {
        lemma_trimmed_end_bounds(p.drop_last());
    }
}

/// The parent ends before the file name, which lies within the path, and
/// the stem ends within the file name, which holds no `/`.
pub proof fn lemma_name_bounds(path: Seq<char>)
    ensures
        0 <= parent_end(path) <= path.len(),
        file_name_span(path) matches Some((s, e)) ==> {
            &&& 0 <= parent_end(path) <= s < stem_end(path) <= e <= path.len()
            &&& extension_dot(path) matches Some(d) ==> d < e
            &&& forall|j: int| s <= j < e ==> path[j] != '/'
        },
{
    lemma_trimmed_end_bounds(path);
    let e = trimmed_end(path);
    let pre = path.subrange(0, e);
    lemma_last_index_bounds(pre, '/');
    let s = last_component_start(path);
    if let Some((s, e)) = file_name_span(path) {
        assert forall|j: int| s <= j < e implies path[j] != '/' by {
            assert(pre[j] == path[j]);
        }
        lemma_trimmed_end_bounds(path.subrange(0, s));
        lemma_last_index_bounds(path.subrange(s, e), '.');
    }
}

/// Replacing the extension, or the file name by a relative name, keeps a
/// path in its directory.
pub proof fn lemma_renames_stay_in_directory(path: Seq<char>, ext: Seq<char>, name: Seq<char>)
    requires
        name.len() == 0 || name[0] != '/',
    ensures
        in_directory_of(path, path),
        in_directory_of(path_with_extension(path, ext), path),
        in_directory_of(path_with_file_name(path, name), path),
{
    lemma_name_bounds(path);
    let d = parent_end(path);
    let base = path.subrange(0, d);
    let e = stem_end(path);
    if file_name_span(path) is Some {
        assert(path.subrange(0, e).subrange(0, d) =~= base);
        assert((path.subrange(0, e) + seq!['.'] + ext).subrange(0, d) =~= base);
    }
    assert((base + seq!['/'] + name).subrange(0, d) =~= base);
    assert((base + name).subrange(0, d) =~= base);
}

/// The index of the last `c` in `s` within `lo..hi`.
fn rfind_in(s: &str, c: char, lo: usize, hi: usize) -> (r: Option<usize>)
    requires
        lo <= hi <= s@.len(),
    ensures
        match last_index_of(s@.subrange(lo as int, hi as int), c) {
            Some(d) => r == Some((lo + d) as usize),
            None => r is None,
        },
        r matches Some(i) ==> lo <= i < hi,
{
    let mut i = hi;
    while i > lo
        invariant
            hi <= s@.len(),
            lo <= i <= hi,
            last_index_of(s@.subrange(lo as int, hi as int), c) == last_index_of(
                s@.subrange(lo as int, i as int),
                c,
            ),
        decreases i,
    {
        let ch = s.get_char(i - 1);
        let ghost sub = s@.subrange(lo as int, i as int);
        assert(sub.last() == ch);
        assert(sub.drop_last() =~= s@.subrange(lo as int, i - 1));
        if ch == c {
            return Some(i - 1);
        }
        i -= 1;
    }
    assert(s@.subrange(lo as int, i as int).len() == 0);
    None
}

/// The trimmed end of the first `k` characters of `s`.
fn trim_end_of(s: &str, k: usize) -> (r: usize)
    requires
        k <= s@.len(),
    ensures
        r == trimmed_end(s@.subrange(0, k as int)),
{
    let mut i = k;
    while i >= 2
        invariant
            k <= s@.len(),
            i <= k,
            trimmed_end(s@.subrange(0, k as int)) == trimmed_end(s@.subrange(0, i as int)),
        decreases i,
    {
        let c = s.get_char(i - 1);
        let b = s.get_char(i - 2);
        let ghost sub = s@.subrange(0, i as int);
        assert(sub.last() == c && sub[i - 2] == b);
        assert(sub.drop_last() =~= s@.subrange(0, i - 1));
        if c == '/' || (c == '.' && b == '/') {
            i -= 1;
        } else {
            return i;
        }
    }
    i
}

/// The span of the file name, and the dot of its extension if it has one.
fn name_bounds(path: &str) -> (r: Option<(usize, usize, Option<usize>)>)
    ensures
        match file_name_span(path@) {
            None => r is None,
            Some((s, e)) => r matches Some((rs, re, dot)) && rs == s && re == e && match extension_dot(
                path@,
            ) {
                Some(d) => dot == Some(d as usize),
                None => dot is None,
            },
        },
{
    let ghost p = path@;
    let n = path.unicode_len();
    assert(p.subrange(0, n as int) =~= p);
    let e = trim_end_of(path, n);
    proof {
        lemma_trimmed_end_bounds(p);
        assert(p.subrange(0, e as int) =~= p.subrange(0, e as int).subrange(0, e as int));
        lemma_last_index_bounds(p.subrange(0, e as int), '/');
    }
    let s: usize = match rfind_in(path, '/', 0, e) {
        Some(i) => i + 1,
        None => 0,
    };
    assert(s == last_component_start(p));
    let ghost name = p.subrange(s as int, e as int);
    let len = e - s;
    if len == 0 {
        return None;
    }
    if len == 1 && path.get_char(s) == '.' {
        assert(name =~= seq!['.']);
        return None;
    }
    if len == 2 && path.get_char(s) == '.' && path.get_char(s + 1) == '.' {
        assert(name =~= seq!['.', '.']);
        return None;
    }
    proof {
        if name == seq!['.'] {
            assert(name[0] == '.');
        }
        if name == seq!['.', '.'] {
            assert(name[0] == '.' && name[1] == '.');
        }
    }
    proof {
        lemma_last_index_bounds(name, '.');
    }
    let dot = match rfind_in(path, '.', s, e) {
        Some(d) => if d > s {
            Some(d)
        } else {
            None
        },
        None => None,
    };
    Some((s, e, dot))
}

/// Whether the file name's extension, lower-cased in ASCII, is `lit` (a
/// lower-case ASCII word).
pub fn extension_is(path: &str, lit: &str) -> (r: bool)
    ensures
        r == (lower_extension(path@) == lit@),
{
    let m = lit.unicode_len();
    let n = path.unicode_len();
    proof {
        lemma_name_bounds(path@);
    }
    let (from, to): (usize, usize) = match name_bounds(path) {
        Some((_, e, Some(d))) => (d + 1, e),
        _ => (0, 0),
    };
    assert(path_extension(path@) =~= path@.subrange(from as int, to as int));
    if to - from != m {
        return false;
    }
    let mut k: usize = 0;
    while k < m
        invariant
            m == lit@.len(),
            from + m == to <= path@.len(),
            path_extension(path@) == path@.subrange(from as int, to as int),
            k <= m,
            forall|q: int| 0 <= q < k ==> ascii_lower(path@[from + q]) == lit@[q],
        decreases m - k,
    {
        let c = path.get_char(from + k);
        let l = lit.get_char(k);
        let same = if 'A' <= c && c <= 'Z' {
            (c as u32) + 32 == (l as u32)
        } else {
            c == l
        };
        if !same {
            assert(ascii_lower(path@[from + k]) != lit@[k as int]);
            assert(lower_extension(path@).len() == m);
            assert(lower_extension(path@)[k as int] == ascii_lower(path@[from + k]));
            return false;
        }
        k += 1;
    }
    assert(lower_extension(path@) =~= lit@);
    true
}

/// The file name without its extension (empty when there is no file name).
pub fn file_stem(path: &str) -> (r: &str)
    ensures
        r@ == path_stem(path@),
{
    proof {
        lemma_name_bounds(path@);
    }
    match name_bounds(path) {
        None => {
            proof {
                reveal_strlit("");
            }
            ""
        },
        Some((s, e, dot)) => {
            let end = match dot {
                Some(d) => d,
                None => e,
            };
            path.substring_char(s, end)
        },
    }
}

/// The path with the file name's extension replaced by `ext` (removed when
/// `ext` is empty), as `Path::set_extension` does.
pub fn with_extension(path: &str, ext: &str) -> (r: String)
    ensures
        r@ == path_with_extension(path@, ext@),
{
    proof {
        lemma_name_bounds(path@);
    }
    match name_bounds(path) {
        None => String::from_str(path),
        Some((_, e, dot)) => {
            let end = match dot {
                Some(d) => d,
                None => e,
            };
            let mut out = String::from_str(path.substring_char(0, end));
            if ext.unicode_len() > 0 {
                proof {
                    reveal_strlit(".");
                }
                out.append(".");
                out.append(ext);
            }
            out
        },
    }
}

/// The path with its file name replaced by `name`, as
/// `Path::with_file_name` does.
pub fn with_file_name(path: &str, name: &str) -> (r: String)
    ensures
        r@ == path_with_file_name(path@, name@),
{
    proof {
        lemma_name_bounds(path@);
    }
    let n = path.unicode_len();
    let parent = match name_bounds(path) {
        Some((s, _, _)) => trim_end_of(path, s),
        None => n,
    };
    if name.unicode_len() > 0 && name.get_char(0) == '/' {
        return String::from_str(name);
    }
    let mut out = String::from_str(path.substring_char(0, parent));
    if parent > 0 && path.get_char(parent - 1) != '/' {
        proof {
            reveal_strlit("/");
        }
        out.append("/");
    }
    out.append(name);
    out
}

} // verus!
