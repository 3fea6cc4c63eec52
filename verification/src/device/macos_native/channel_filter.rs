//! Which channels the subscription asks for. Each group's description is cut
//! down to the channels something reads, by the same rules that the readers use,
//! so nothing that is read is dropped.
use vstd::prelude::*;
use vstd::string::*;

use crate::device::macos_native::energy::{classify_energy_channel, rail_of};
use crate::device::macos_native::ioreport::{classify_cpu_channel, cluster_of};
use crate::text::same;

verus! {

/// The channel groups that are subscribed to.
#[derive(Debug, Clone, Copy, PartialEq, Eq, Structural)]
pub enum ChannelGroup {
    Energy,
    Cpu,
    Gpu,
}

/// Whether a channel of a group is subscribed to.
pub open spec fn keeps(group: ChannelGroup, name: Seq<char>) -> bool {
    match group {
        ChannelGroup::Energy => rail_of(name) is Some,
        ChannelGroup::Cpu => cluster_of(name) is Some,
        ChannelGroup::Gpu => name == "GPUPH"@,
    }
}

/// Energy Model channels that feed a rail. Everything the energy tracker sums
/// passes, also what a package channel may override, because the tracker
/// decides which of them count only once it has seen the whole sample.
pub fn keep_energy_channel(name: &str) -> (r: bool)
    ensures
        r == (rail_of(name@) is Some),
{
    classify_energy_channel(name).is_some()
}

/// CPU performance-state channels that name a cluster.
pub fn keep_cpu_channel(name: &str) -> (r: bool)
    ensures
        r == (cluster_of(name@) is Some),
{
    classify_cpu_channel(name).is_some()
}

/// The one GPU performance-state channel the metrics read.
pub fn keep_gpu_channel(name: &str) -> (r: bool)
    ensures
        r == (name@ == "GPUPH"@),
{
    same(name, "GPUPH")
}

impl ChannelGroup {
    /// Whether a channel of this group is subscribed to.
    pub fn keep(self, name: &str) -> (r: bool)
        ensures
            r == keeps(self, name@),
    {
        match self {
            ChannelGroup::Energy => keep_energy_channel(name),
            ChannelGroup::Cpu => keep_cpu_channel(name),
            ChannelGroup::Gpu => keep_gpu_channel(name),
        }
    }
}

/// Whether the channel at place `i` has a name and is kept.
pub open spec fn accepted(names: Seq<Option<String>>, group: ChannelGroup, i: int) -> bool {
    match names[i] {
        Some(n) => keeps(group, n@),
        None => false,
    }
}

/// The places of the kept channels among the first `n`, in order.
pub open spec fn kept_places(names: Seq<Option<String>>, group: ChannelGroup, n: nat) -> Seq<usize>
    decreases n,
{
    if n == 0 {
        seq![]
    } else {
        let before = kept_places(names, group, (n - 1) as nat);
        if accepted(names, group, n - 1) {
            before.push((n - 1) as usize)
        } else {
            before
        }
    }
}

/// The channels of a group's description that stay in it, by their places.
/// `names` holds what each channel is called, nothing for one that is no channel
/// description.
///
/// `None` where no channel is accepted: then the description stays as it is,
/// because on hardware whose channel names nobody has recorded yet an empty
/// group could leave nothing to subscribe to.
pub fn retain_channels(names: &Vec<Option<String>>, group: ChannelGroup) -> (r: Option<Vec<usize>>)
    ensures
        ({
            let kept = kept_places(names@, group, names@.len());
            match r {
                Some(v) => v@ == kept && kept.len() > 0,
                None => kept.len() == 0,
            }
        }),
{
    let mut kept: Vec<usize> = Vec::new();
    let mut i: usize = 0;
    while i < names.len()
        invariant
            i <= names@.len(),
            kept@ == kept_places(names@, group, i as nat),
        decreases names@.len() - i,
    {
        if let Some(name) = &names[i] {
            if group.keep(name.as_str()) {
                kept.push(i);
            }
        }
        i = i + 1;
    }
    if kept.len() == 0 {
        None
    } else {
        Some(kept)
    }
}

/// A channel is kept exactly when something reads it.
pub proof fn nothing_that_is_read_is_dropped(
    names: Seq<Option<String>>,
    group: ChannelGroup,
    n: nat,
    i: usize,
)
    requires
        n <= names.len() <= usize::MAX,
    ensures
        kept_places(names, group, n).contains(i) <==> i < n && accepted(names, group, i as int),
    decreases n,
{
    let r = kept_places(names, group, n);
    if n > 0 {
        let before = kept_places(names, group, (n - 1) as nat);
        nothing_that_is_read_is_dropped(names, group, (n - 1) as nat, i);
        if accepted(names, group, n - 1) {
            assert(r == before.push((n - 1) as usize));
            if before.contains(i) {
                let k = choose|k: int| 0 <= k < before.len() && before[k] == i;
                assert(r[k] == i);
            }
            if i == n - 1 {
                assert(r[before.len() as int] == i);
            }
            if r.contains(i) {
                let k = choose|k: int| 0 <= k < r.len() && r[k] == i;
                if k < before.len() {
                    assert(before[k] == i);
                }
            }
        }
    }
}

} // verus!
