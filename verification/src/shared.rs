//! Where the vaults are kept.

use vstd::prelude::*;

use crate::path::{join, joined};

verus! {

/// The name of the folder of the vaults.
pub open spec fn vaults() -> Seq<char> {
    seq!['v', 'a', 'u', 'l', 't', 's']
}

/// The folder of the vaults: the folder `vaults` in the folder of the
/// program.
pub fn vault_folder(exe_folder: &str) -> (folder: String)
    ensures
        folder@ == joined(exe_folder@, vaults()),
{
    proof {
        reveal_strlit("vaults");
        assert("vaults"@ =~= vaults());
    }
    join(exe_folder, "vaults")
}

} // verus!
