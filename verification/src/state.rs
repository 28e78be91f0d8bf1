//! The state root, spelled out: the exact path Herdr builds for a plugin id.

use vstd::prelude::*;

use crate::herdr::{expand_tilde, expand_tilde_spec};
use crate::paths::{join, join_spec};

verus! {

pub open spec fn root_spec(home: Seq<char>) -> Seq<char> {
    join_spec(
        expand_tilde_spec(seq!['~'], home),
        ".local/state/herdr/plugins/herdr-dev"@,
    )
}

/// The plugin's state directory under `home`.
pub fn root(home: &str) -> (r: String)
    ensures
        r@ == root_spec(home@),
{
    proof {
        reveal_strlit("~");
        assert("~"@ =~= seq!['~']);
    }
    let home_dir = expand_tilde("~", home);
    join(home_dir.as_str(), ".local/state/herdr/plugins/herdr-dev")
}

pub fn socket_path(root: &str) -> (r: String)
    ensures
        r@ == join_spec(root@, "daemon.sock"@),
{
    join(root, "daemon.sock")
}

pub fn lock_path(root: &str) -> (r: String)
    ensures
        r@ == join_spec(root@, "daemon.lock"@),
{
    join(root, "daemon.lock")
}

} // verus!
