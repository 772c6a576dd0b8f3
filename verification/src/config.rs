//! Where the blockchains and their tags live under the root directory.

use vstd::prelude::*;

verus! {

/// Name of the directory holding the blockchains' blocks, epochs and
/// tags.
pub const BLOCKCHAINS_DIRECTORY: &'static str = "blockchains";

/// Name of the tag pointing at the local tip.
pub const LOCAL_BLOCKCHAIN_TIP_TAG: &'static str = "tip";

/// The directory all blockchains lie under.
pub fn blockchains_directory(root_dir: &str) -> (r: String)
    ensures
        r@ == root_dir@ + "/blockchains"@,
{
    let mut out = String::new();
    out.append(root_dir);
    out.append("/blockchains");
    out
}

/// The directory of one blockchain under the root directory.
pub fn directory(root_dir: &str, name: &str) -> (r: String)
    ensures
        r@ == root_dir@ + "/blockchains/"@ + name@,
{
    let mut out = String::new();
    out.append(root_dir);
    out.append("/blockchains/");
    out.append(name);
    out
}

/// The tag under which a remote peer's tip is kept.
pub fn mk_remote_tag(remote: &str) -> (r: String)
    ensures
        r@ == "remote/"@ + remote@,
{
    let mut out = String::new();
    out.append("remote/");
    out.append(remote);
    out
}

} // verus!
