//! Decisions behind the file-permission helpers.
//!
//! Whether a path is worth probing for admin access, and which file names
//! count as executable, are questions about text alone; they are answered
//! here.  The actual access probes and ACL commands run outside the
//! library.

use vstd::prelude::*;
use crate::strutil::{fold, has_prefix};
use crate::strutil::{str_starts_with_ignore_case, eq_ignore_case};

verus! {

/// Whether a path lies under one of the system directories that
/// ordinarily require administrator access to modify, compared without
/// regard to letter case.
pub open spec fn is_admin_protected(s: Seq<char>) -> bool {
    has_prefix(fold(s), fold("c:\\windows"@)) || has_prefix(fold(s), fold("c:\\program files"@))
        || has_prefix(fold(s), fold("c:\\program files (x86)"@)) || has_prefix(
        fold(s),
        fold("c:\\programdata"@),
    )
}

/// Test a path against the admin-protected system directories.
pub fn is_admin_protected_path(path: &str) -> (r: bool)
    ensures
        r == is_admin_protected(path@),
{
    str_starts_with_ignore_case(path, "c:\\windows") || str_starts_with_ignore_case(
        path,
        "c:\\program files",
    ) || str_starts_with_ignore_case(path, "c:\\program files (x86)")
        || str_starts_with_ignore_case(path, "c:\\programdata")
}

/// Whether an extension names a directly executable file type, compared
/// without regard to letter case.
pub open spec fn is_executable_ext(e: Seq<char>) -> bool {
    fold(e) == fold("exe"@) || fold(e) == fold("bat"@) || fold(e) == fold("cmd"@) || fold(e)
        == fold("com"@) || fold(e) == fold("scr"@) || fold(e) == fold("msi"@)
}

/// Test a file extension against the executable file types.
pub fn is_executable_extension(ext: &str) -> (r: bool)
    ensures
        r == is_executable_ext(ext@),
{
    eq_ignore_case(ext, "exe") || eq_ignore_case(ext, "bat") || eq_ignore_case(ext, "cmd")
        || eq_ignore_case(ext, "com") || eq_ignore_case(ext, "scr") || eq_ignore_case(ext, "msi")
}

} // verus!
