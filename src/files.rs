//! Telling the files the agent watches apart by their names.
use vstd::prelude::*;
use crate::paths::is_separator;

verus! {

/// `k` is the dot that starts the extension of the last component of `s`: the
/// last dot, not first in its component, with no separator after it.
pub open spec fn is_ext_dot(s: Seq<char>, k: int) -> bool {
    &&& 1 <= k < s.len()
    &&& s[k] == '.'
    &&& !is_separator(s[k - 1])
    &&& forall|j: int| k < j < s.len() ==> s[j] != '.' && !is_separator(s[j])
}

/// Index of the dot that starts the extension of `path`, if it has one.
pub fn extension_dot(path: &str) -> (r: Option<usize>)
    ensures
        match r {
            Some(k) => is_ext_dot(path@, k as int),
            None => forall|k: int| !is_ext_dot(path@, k),
        },
{
    let n = path.unicode_len();
    let mut j: usize = n;
    while j > 0
        invariant
            j <= n,
            n == path@.len(),
            forall|i: int| j <= i < n ==> path@[i] != '.' && !is_separator(path@[i]),
        decreases j,
    {
        let c = path.get_char(j - 1);
        if c == '/' || c == '\\' {
            return None;
        }
        if c == '.' {
            let k = j - 1;
            if k >= 1 {
                let b = path.get_char(k - 1);
                if b != '/' && b != '\\' {
                    return Some(k);
                }
            }
            return None;
        }
        j -= 1;
    }
    None
}

/// `c` in lower case, for ASCII letters.
pub open spec fn ascii_lower(c: char) -> char {
    if 'A' <= c <= 'Z' {
        (((c as u8) + 32) as u8) as char
    } else {
        c
    }
}

/// `s` read from `from` on equals `target`, ignoring ASCII case.
pub open spec fn tail_matches(s: Seq<char>, from: int, target: Seq<char>) -> bool {
    s.len() - from == target.len() && forall|i: int|
        0 <= i < target.len() ==> ascii_lower(s[from + i]) == target[i]
}

fn lower_char(c: char) -> (r: char)
    ensures
        r == ascii_lower(c),
{
    if 'A' <= c && c <= 'Z' {
        ((c as u8) + 32) as char
    } else {
        c
    }
}

fn tail_equals(s: &str, from: usize, target: &str) -> (r: bool)
    requires
        from <= s@.len(),
    ensures
        r == tail_matches(s@, from as int, target@),
{
    let n = s.unicode_len();
    let m = target.unicode_len();
    if n - from != m {
        return false;
    }
    let mut i: usize = 0;
    while i < m
        invariant
            n == s@.len(),
            m == target@.len(),
            n - from == m,
            i <= m,
            forall|q: int| 0 <= q < i ==> ascii_lower(s@[from + q]) == target@[q],
        decreases m - i,
    {
        if lower_char(s.get_char(from + i)) != target.get_char(i) {
            return false;
        }
        i += 1;
    }
    true
}

/// `path` names a screenshot: its extension is `jpg`, `jpeg` or `png` in any
/// case.
pub open spec fn is_screenshot_name(path: Seq<char>) -> bool {
    exists|k: int|
        is_ext_dot(path, k) && (tail_matches(path, k + 1, "jpg"@) || tail_matches(
            path,
            k + 1,
            "jpeg"@,
        ) || tail_matches(path, k + 1, "png"@))
}

/// Whether `path`, a regular file when `is_file` holds, is a screenshot the
/// game wrote.
pub fn is_screenshot_file(path: &str, is_file: bool) -> (r: bool)
    ensures
        r == (is_file && is_screenshot_name(path@)),
{
    if !is_file {
        return false;
    }
    let n = path.unicode_len();
    match extension_dot(path) {
        Some(k) => {
            assert(k < n);
            let r = tail_equals(path, k + 1, "jpg") || tail_equals(path, k + 1, "jpeg")
                || tail_equals(path, k + 1, "png");
            proof {
                if !r {
                    assert forall|q: int| is_ext_dot(path@, q) implies q == k by {
                        if q < k {
                            assert(path@[k as int] == '.');
                        } else if q > k {
                            assert(path@[q] == '.');
                        }
                    }
                }
            }
            r
        },
        None => false,
    }
}

/// The name of the file the addon saves its database to.
pub open spec fn sv_file_name() -> Seq<char> {
    "DeathLogger.lua"@
}

/// `path` ends with a separator followed by `name`, or is `name` itself.
pub open spec fn ends_with_name(path: Seq<char>, name: Seq<char>) -> bool {
    &&& path.len() >= name.len()
    &&& path.subrange(path.len() - name.len(), path.len() as int) == name
    &&& (path.len() == name.len() || is_separator(path[path.len() - name.len() - 1]))
}

/// Whether `path` is a saved-variables file of the addon.
pub fn is_saved_variables_file(path: &str) -> (r: bool)
    ensures
        r == ends_with_name(path@, sv_file_name()),
{
    let name = "DeathLogger.lua";
    proof {
        reveal_strlit("DeathLogger.lua");
    }
    let n = path.unicode_len();
    let m = name.unicode_len();
    if n < m {
        return false;
    }
    let mut i: usize = 0;
    while i < m
        invariant
            n == path@.len(),
            m == name@.len(),
            name@ == sv_file_name(),
            m <= n,
            i <= m,
            forall|q: int| 0 <= q < i ==> path@[n - m + q] == name@[q],
        decreases m - i,
    {
        if path.get_char(n - m + i) != name.get_char(i) {
            proof {
                assert(path@.subrange(n - m, n as int)[i as int] != name@[i as int]);
                assert(path@.subrange(n - m, n as int) != name@);
                assert(name@ == sv_file_name());
            }
            return false;
        }
        i += 1;
    }
    assert(path@.subrange(n - m, n as int) =~= name@);
    assert(name@ == sv_file_name());
    if n == m {
        return true;
    }
    let c = path.get_char(n - m - 1);
    c == '/' || c == '\\'
}

} // verus!
