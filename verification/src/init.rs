//! `omni init`: which halves of a host's hook-and-MCP install a set of flags
//! asks for.
use vstd::prelude::*;

verus! {

/// Which halves of the install a flag set asks for, as `(hooks, mcp)`.
///
/// On this host the hooks are what shortens output and the MCP server is a
/// convenience whose tool definitions sit in the prefix of every request, so
/// one without the other is a preference somebody can hold. Asking for both,
/// by naming the host, `--all`, or both halves, gets both, and so does naming
/// neither half; naming one half gets that half alone.
pub fn install_halves(names_host: bool, is_all: bool, is_hook: bool, is_mcp: bool) -> (r: (
    bool,
    bool,
))
    ensures
        r == if names_host || is_all || (is_hook && is_mcp) || (!is_hook && !is_mcp) {
            (true, true)
        } else {
            (is_hook, is_mcp)
        },
{
    if names_host || is_all || (is_hook && is_mcp) || (!is_hook && !is_mcp) {
        return (true, true);
    }
    (is_hook, is_mcp)
}

} // verus!
