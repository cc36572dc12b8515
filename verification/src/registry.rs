//! The registry values behind system integration.
//!
//! Registering a file association or URL protocol writes a handful of
//! registry values whose text is computed from the extension and the
//! executable path.  That text is built and specified here; the registry
//! writes themselves run outside the library.

use vstd::prelude::*;

verus! {

/// The extension with its leading dot, added when missing.
pub open spec fn dotted(s: Seq<char>) -> Seq<char> {
    if s.len() > 0 && s[0] == '.' {
        s
    } else {
        seq!['.'] + s
    }
}

/// Ensure a file extension starts with a dot.
pub fn ensure_dot_prefix(ext: &str) -> (r: String)
    ensures
        r@ == dotted(ext@),
{
    let len = ext.unicode_len();
    if len > 0 && ext.get_char(0) == '.' {
        ext.to_owned()
    } else {
        let mut out = String::new();
        out.append(".");
        out.append(ext);
        proof {
            reveal_strlit(".");
            assert(out@ =~= dotted(ext@));
        }
        out
    }
}

/// The shell `open` command line for a handler: the quoted executable
/// followed by the quoted document placeholder.
pub open spec fn shell_command(exe: Seq<char>) -> Seq<char> {
    seq!['"'] + exe + seq!['"', ' ', '"', '%', '1', '"']
}

/// Build the shell `open` command value for an executable.
pub fn shell_open_command(exe: &str) -> (r: String)
    ensures
        r@ == shell_command(exe@),
{
    let mut out = String::new();
    out.append("\"");
    out.append(exe);
    out.append("\" \"%1\"");
    proof {
        reveal_strlit("\"");
        reveal_strlit("\" \"%1\"");
        assert(out@ =~= shell_command(exe@));
    }
    out
}

/// The default-icon value: the executable path with icon index zero.
pub open spec fn icon_value(exe: Seq<char>) -> Seq<char> {
    exe + seq![',', '0']
}

/// Build the default-icon value for an executable.
pub fn default_icon_value(exe: &str) -> (r: String)
    ensures
        r@ == icon_value(exe@),
{
    let mut out = String::new();
    out.append(exe);
    out.append(",0");
    proof {
        reveal_strlit(",0");
        assert(out@ =~= icon_value(exe@));
    }
    out
}

} // verus!
