//! The tab strip.
use vstd::prelude::*;

use crate::text::same;

verus! {

/// Whether a tab stands for no single host.
pub open spec fn reserved_tab(name: Seq<char>) -> bool {
    name == "All"@ || name == "Consolidated"@ || name == "Users"@ || name == "Topology"@
}

pub fn is_reserved_tab(name: &str) -> (r: bool)
    ensures
        r == reserved_tab(name@),
{
    same(name, "All") || same(name, "Consolidated") || same(name, "Users") || same(
        name,
        "Topology",
    )
}

} // verus!
