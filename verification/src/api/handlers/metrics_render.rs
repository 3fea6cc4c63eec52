//! The body of the `/metrics` endpoint.
use vstd::prelude::*;
use vstd::string::*;

use crate::api::metrics::items_text;
use crate::api::metrics::probes::{no_probes_publish_nothing, probe_items, ProbeMetricExporter};
use crate::probes::{any_links, any_locks, probes_of, HostProbes, ProbesModel};

verus! {

/// The body: what the shared renderer wrote, then the host probes.
pub open spec fn body(rendered: Seq<char>, hosts: Seq<ProbesModel>) -> Seq<char> {
    rendered + items_text(probe_items(hosts))
}

/// Appends the host probes to what the shared renderer wrote. They stand
/// outside it because they exist only where the server was started with them.
pub fn metrics_body(rendered: String, host_probes: &Vec<HostProbes>) -> (r: String)
    ensures
        r@ == body(rendered@, probes_of(host_probes@)),
{
    let mut text: String = rendered;
    let exporter = ProbeMetricExporter::new(host_probes);
    let probes: String = exporter.export_metrics();
    text.append(probes.as_str());
    text
}

/// Without probes the body is exactly what the shared renderer wrote, so that
/// it is the same as that of a snapshot.
pub proof fn without_probes_the_body_is_as_rendered(rendered: Seq<char>, hosts: Seq<ProbesModel>)
    requires
        !any_links(hosts),
        !any_locks(hosts),
    ensures
        body(rendered, hosts) == rendered,
{
    no_probes_publish_nothing(hosts);
    assert(body(rendered, hosts) == rendered);
}

} // verus!
