//! Path-string handling in the Windows style.
//!
//! The host application renders every path the way Windows does: backslash
//! separators, drive letters, UNC prefixes.  These helpers normalise and
//! combine such paths as plain text, so the rest of the crate never depends
//! on the platform the binary happens to run on.

use vstd::prelude::*;

verus! {

/// A path separator: the native backslash or the foreign forward slash.
pub open spec fn is_sep(c: char) -> bool {
    c == '\\' || c == '/'
}

/// Forward slashes rewritten to backslashes.
pub open spec fn to_backslashes(s: Seq<char>) -> Seq<char> {
    s.map_values(|c: char| if c == '/' { '\\' } else { c })
}

/// Doubled backslashes collapsed to one, in a single left-to-right pass.
pub open spec fn collapsed(s: Seq<char>) -> Seq<char>
    decreases s.len(),
{
    if s.len() >= 2 && s[0] == '\\' && s[1] == '\\' {
        seq!['\\'] + collapsed(s.skip(2))
    } else if s.len() >= 1 {
        seq![s[0]] + collapsed(s.skip(1))
    } else {
        Seq::empty()
    }
}

/// Windows normal form: slashes become backslashes, and doubled backslashes
/// collapse, except for the two that introduce a UNC path.
pub open spec fn normalized(s: Seq<char>) -> Seq<char> {
    let t = to_backslashes(s);
    if t.len() >= 2 && t[0] == '\\' && t[1] == '\\' {
        seq!['\\', '\\'] + collapsed(t.skip(2))
    } else {
        collapsed(t)
    }
}

/// A drive-letter path (`C:\...`) or a UNC path (`\\server\...`).
pub open spec fn is_windows_absolute(s: Seq<char>) -> bool {
    (s.len() >= 3 && s[1] == ':') || (s.len() >= 2 && s[0] == '\\' && s[1] == '\\')
}

fn backslashify(s: &str) -> (r: String)
    ensures
        r@ == to_backslashes(s@),
{
    let len = s.unicode_len();
    let mut out = String::new();
    let mut i: usize = 0;
    proof {
        assert(out@ =~= to_backslashes(s@).subrange(0, 0));
    }
    while i < len
        invariant
            len == s@.len(),
            i <= len,
            out@ == to_backslashes(s@).subrange(0, i as int),
        decreases len - i,
    {
        let c = s.get_char(i);
        if c == '/' {
            out.append("\\");
            proof {
                reveal_strlit("\\");
                assert(out@ =~= to_backslashes(s@).subrange(0, i + 1));
            }
        } else {
            let piece = s.substring_char(i, i + 1);
            out.append(piece);
            proof {
                assert(out@ =~= to_backslashes(s@).subrange(0, i + 1));
            }
        }
        i = i + 1;
    }
    proof {
        assert(to_backslashes(s@).subrange(0, len as int) =~= to_backslashes(s@));
    }
    out
}

fn collapse_from(s: &str, from: usize) -> (r: String)
    requires
        from <= s@.len(),
    ensures
        r@ == collapsed(s@.skip(from as int)),
{
    let len = s.unicode_len();
    let mut out = String::new();
    let mut i: usize = from;
    proof {
        assert(out@ + collapsed(s@.skip(from as int)) =~= collapsed(s@.skip(from as int)));
    }
    while i < len
        invariant
            len == s@.len(),
            from <= i <= len,
            collapsed(s@.skip(from as int)) == out@ + collapsed(s@.skip(i as int)),
        decreases len - i,
    {
        let ghost pre = out@;
        let ghost sub = s@.skip(i as int);
        proof {
            assert(sub[0] == s@[i as int]);
            if i + 1 < len {
                assert(sub[1] == s@[i + 1]);
            }
        }
        if i + 1 < len && s.get_char(i) == '\\' && s.get_char(i + 1) == '\\' {
            out.append("\\");
            proof {
                reveal_strlit("\\");
                assert(sub.skip(2) =~= s@.skip(i + 2));
                assert(collapsed(sub) == seq!['\\'] + collapsed(s@.skip(i + 2)));
                assert(out@ + collapsed(s@.skip(i + 2)) =~= pre + collapsed(sub));
            }
            i = i + 2;
        } else {
            let piece = s.substring_char(i, i + 1);
            out.append(piece);
            proof {
                assert(sub.skip(1) =~= s@.skip(i + 1));
                assert(collapsed(sub) == seq![s@[i as int]] + collapsed(s@.skip(i + 1)));
                assert(piece@ =~= seq![s@[i as int]]);
                assert(out@ + collapsed(s@.skip(i + 1)) =~= pre + collapsed(sub));
            }
            i = i + 1;
        }
    }
    proof {
        assert(s@.skip(len as int) =~= Seq::<char>::empty());
        assert(out@ + collapsed(s@.skip(len as int)) =~= out@);
    }
    out
}

/// Normalise a path to the Windows form: forward slashes become
/// backslashes, and accidental doubled backslashes collapse, while the
/// leading pair of a UNC path is preserved.
pub fn normalize_path(path: &str) -> (r: String)
    ensures
        r@ == normalized(path@),
{
    let nb = backslashify(path);
    let len = nb.as_str().unicode_len();
    if len >= 2 && nb.as_str().get_char(0) == '\\' && nb.as_str().get_char(1) == '\\' {
        let mut out = String::new();
        out.append("\\\\");
        let tail = collapse_from(nb.as_str(), 2);
        out.append(tail.as_str());
        proof {
            reveal_strlit("\\\\");
            assert(out@ =~= seq!['\\', '\\'] + collapsed(to_backslashes(path@).skip(2)));
        }
        out
    } else {
        let r = collapse_from(nb.as_str(), 0);
        proof {
            assert(nb@.skip(0) =~= nb@);
        }
        r
    }
}

/// The normalised path as an owned string.
pub fn to_native_path_string(path: &str) -> (r: String)
    ensures
        r@ == normalized(path@),
{
    normalize_path(path)
}

/// Whether a path is absolute in the Windows sense: rooted at a drive
/// letter or at a UNC server prefix.
pub fn is_absolute_path(path: &str) -> (r: bool)
    ensures
        r == is_windows_absolute(path@),
{
    let len = path.unicode_len();
    if len >= 3 && path.get_char(1) == ':' {
        return true;
    }
    if len >= 2 && path.get_char(0) == '\\' && path.get_char(1) == '\\' {
        return true;
    }
    false
}

/// What joining two paths produces: both are normalised; an absolute
/// second path replaces the first, an empty side yields the other, and
/// otherwise a single separator stands between them.
pub open spec fn joined(b: Seq<char>, p: Seq<char>) -> Seq<char> {
    let nb = normalized(b);
    let np = normalized(p);
    if is_windows_absolute(np) || nb.len() == 0 {
        np
    } else if np.len() == 0 {
        nb
    } else if nb.last() == '\\' {
        nb + np
    } else {
        nb + seq!['\\'] + np
    }
}

/// Join two paths with the Windows separator.
pub fn join_paths(base: &str, path: &str) -> (r: String)
    ensures
        r@ == joined(base@, path@),
{
    let nb = normalize_path(base);
    let np = normalize_path(path);
    if is_absolute_path(np.as_str()) || nb.as_str().unicode_len() == 0 {
        return np;
    }
    if np.as_str().unicode_len() == 0 {
        return nb;
    }
    let nblen = nb.as_str().unicode_len();
    let mut out = nb;
    if out.as_str().get_char(nblen - 1) != '\\' {
        out.append("\\");
    }
    out.append(np.as_str());
    proof {
        reveal_strlit("\\");
        assert(out@ =~= joined(base@, path@));
    }
    out
}

/// The path separator used throughout this crate.
pub fn get_separator() -> (c: char)
    ensures
        c == '\\',
{
    '\\'
}

/// The normalised path, ending in exactly the separator it may have lacked.
pub open spec fn with_trailing_sep(s: Seq<char>) -> Seq<char> {
    let n = normalized(s);
    if n.len() > 0 && n.last() == '\\' {
        n
    } else {
        n + seq!['\\']
    }
}

/// Normalise a path and append the separator unless it is already there.
pub fn ensure_trailing_separator(path: &str) -> (r: String)
    ensures
        r@ == with_trailing_sep(path@),
{
    let mut out = normalize_path(path);
    let len = out.as_str().unicode_len();
    if len == 0 || out.as_str().get_char(len - 1) != '\\' {
        out.append("\\");
        proof {
            reveal_strlit("\\");
            assert(out@ =~= with_trailing_sep(path@));
        }
    }
    out
}

/// Convert a Unix-style path to the Windows style.
pub fn from_unix_path(path: &str) -> (r: String)
    ensures
        r@ == to_backslashes(path@),
{
    backslashify(path)
}

/// A Windows-style path is already in the native form; it is returned
/// unchanged.
pub fn from_windows_path(path: &str) -> (r: String)
    ensures
        r@ == path@,
{
    path.to_owned()
}

/// Start of the file name: the position after the last separator.
pub open spec fn file_name_start(s: Seq<char>) -> int
    decreases s.len(),
{
    if s.len() == 0 {
        0
    } else if is_sep(s.last()) {
        s.len() as int
    } else {
        file_name_start(s.drop_last())
    }
}

/// Position of the last `.` at or after `from`, or `-1` if there is none.
pub open spec fn last_dot_after(s: Seq<char>, from: int) -> int
    decreases s.len(),
{
    if s.len() == 0 || s.len() <= from {
        -1
    } else if s.last() == '.' {
        s.len() - 1
    } else {
        last_dot_after(s.drop_last(), from)
    }
}

/// The extension of the file name, as `std::path::Path` reads it: the text
/// after the final dot of the last path component, unless that dot begins
/// the component or the component is empty.
pub open spec fn extension_of(s: Seq<char>) -> Option<Seq<char>> {
    let start = file_name_start(s);
    let dot = last_dot_after(s, start);
    if dot > start {
        Some(s.subrange(dot + 1, s.len() as int))
    } else {
        None
    }
}

proof fn lemma_file_name_start_is(s: Seq<char>, k: int)
    requires
        0 <= k <= s.len(),
        k > 0 ==> is_sep(s[k - 1]),
        forall|j: int| k <= j < s.len() ==> !is_sep(s[j]),
    ensures
        file_name_start(s) == k,
    decreases s.len(),
{
    if s.len() > 0 && !is_sep(s.last()) {
        assert(k < s.len());
        lemma_file_name_start_is(s.drop_last(), k);
    }
}

proof fn lemma_last_dot_is(s: Seq<char>, from: int, d: int)
    requires
        from >= 0,
        d == -1 || (from <= d < s.len() && s[d] == '.'),
        d == -1 ==> forall|j: int| from <= j < s.len() ==> s[j] != '.',
        forall|j: int| d < j < s.len() && j >= from ==> s[j] != '.',
    ensures
        last_dot_after(s, from) == d,
    decreases s.len(),
{
    if s.len() > from && s.last() != '.' {
        lemma_last_dot_is(s.drop_last(), from, d);
    }
}

/// The extension of a path's file name, lower-case-insensitively intact.
pub fn file_extension(path: &str) -> (r: Option<String>)
    ensures
        match r {
            Some(e) => extension_of(path@) == Some(e@),
            None => extension_of(path@) is None,
        },
{
    let len = path.unicode_len();
    let mut start: usize = len;
    while start > 0 && !is_sep_char(path.get_char(start - 1))
        invariant
            len == path@.len(),
            start <= len,
            forall|j: int| start <= j < len ==> !is_sep(path@[j]),
        decreases start,
    {
        start = start - 1;
    }
    proof {
        lemma_file_name_start_is(path@, start as int);
    }
    let mut i: usize = len;
    let mut dot_found = false;
    let mut dot: usize = 0;
    while i > start
        invariant_except_break
            len == path@.len(),
            start <= i <= len,
            !dot_found,
            forall|j: int| i <= j < len ==> path@[j] != '.',
        ensures
            len == path@.len(),
            !dot_found ==> forall|j: int| start <= j < len ==> path@[j] != '.',
            dot_found ==> start <= dot < len && path@[dot as int] == '.' && forall|j: int|
                dot < j < len ==> path@[j] != '.',
        decreases i,
    {
        if path.get_char(i - 1) == '.' {
            dot = i - 1;
            dot_found = true;
            break;
        }
        i = i - 1;
    }
    if dot_found && dot > start {
        proof {
            lemma_last_dot_is(path@, start as int, dot as int);
        }
        Some(path.substring_char(dot + 1, len).to_owned())
    } else {
        proof {
            if dot_found {
                lemma_last_dot_is(path@, start as int, dot as int);
            } else {
                lemma_last_dot_is(path@, start as int, -1);
            }
        }
        None
    }
}

fn is_sep_char(c: char) -> (r: bool)
    ensures
        r == is_sep(c),
{
    c == '\\' || c == '/'
}

} // verus!
