//! What the counters of this node have in common.

use vstd::prelude::*;
use vstd::string::StringExecFns;

verus! {

/// The prefix of the name of every counter.
pub const NAMESPACE: &'static str = "zo";

/// The labels that every counter of a node carries: its cluster, its
/// instance and its role, in this order.
pub fn create_const_labels(cluster_name: &str, instance_name: &str, node_role: &str) -> (r: Vec<(String, String)>)
    ensures
        r.len() == 3,
        r[0].0@ == "cluster"@ && r[0].1@ == cluster_name@,
        r[1].0@ == "instance"@ && r[1].1@ == instance_name@,
        r[2].0@ == "role"@ && r[2].1@ == node_role@,
{
    let mut labels: Vec<(String, String)> = Vec::new();
    labels.push((String::from_str("cluster"), String::from_str(cluster_name)));
    labels.push((String::from_str("instance"), String::from_str(instance_name)));
    labels.push((String::from_str("role"), String::from_str(node_role)));
    labels
}

/// The path under which the counters are shown: `/metrics` below the base
/// of the node's addresses.
pub fn metrics_endpoint(base_uri: &str) -> (r: String)
    ensures
        r@ == base_uri@ + "/metrics"@,
{
    let mut path = String::from_str(base_uri);
    path.append("/metrics");
    path
}

} // verus!
