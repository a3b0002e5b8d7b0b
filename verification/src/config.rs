//! The configuration of the gossip protocol and of the transport flows.

use vstd::prelude::*;

verus! {

/// The configuration of the gossip protocol, as the registry holds it for
/// a subnet.
#[derive(Clone, Copy, Debug, PartialEq, Eq, Structural)]
pub struct GossipConfig {
    /// How many artifacts are downloaded from one peer at a time.
    pub max_artifact_streams_per_peer: u32,
    /// After how many milliseconds a request times out.
    pub max_chunk_wait_ms: u32,
    /// From how many peers the same artifact is requested at a time.
    pub max_duplicity: u32,
    /// The largest chunk, in bytes.
    pub max_chunk_size: u32,
    /// How many received identifiers are remembered for each peer.
    pub receive_check_cache_size: u32,
    /// Period of the re-evaluation of priorities, in milliseconds.
    pub pfn_evaluation_period_ms: u32,
    /// Period of the polling of the registry, in milliseconds.
    pub registry_poll_period_ms: u32,
    /// Period of the retransmission requests, in milliseconds.
    pub retransmission_request_ms: u32,
}

/// The configuration that is used where the registry holds none.
pub open spec fn spec_default_gossip_config() -> GossipConfig {
    GossipConfig {
        max_artifact_streams_per_peer: 20,
        max_chunk_wait_ms: 15_000,
        max_duplicity: 1,
        max_chunk_size: 4096,
        receive_check_cache_size: 5000,
        pfn_evaluation_period_ms: 3_000,
        registry_poll_period_ms: 3_000,
        retransmission_request_ms: 60_000,
    }
}

/// The configuration that is used where the registry holds none.
pub fn build_default_gossip_config() -> (config: GossipConfig)
    ensures
        config == spec_default_gossip_config(),
{
    GossipConfig {
        max_artifact_streams_per_peer: 20,
        max_chunk_wait_ms: 15_000,
        max_duplicity: 1,
        max_chunk_size: 4096,
        receive_check_cache_size: 5000,
        pfn_evaluation_period_ms: 3_000,
        registry_poll_period_ms: 3_000,
        retransmission_request_ms: 60_000,
    }
}

/// The configuration that a registry lookup yields: the one that the
/// registry holds, and the default if the lookup failed, the registry has
/// no record of the subnet or the record holds no gossip configuration.
pub open spec fn spec_fetch_gossip_config<E>(
    lookup: Result<Option<Option<GossipConfig>>, E>,
) -> GossipConfig {
    match lookup {
        Ok(Some(Some(config))) => config,
        _ => spec_default_gossip_config(),
    }
}

/// Chooses the gossip configuration from the answer of the registry to a
/// lookup at its latest version.
pub fn fetch_gossip_config<E>(lookup: Result<Option<Option<GossipConfig>>, E>) -> (config:
    GossipConfig)
    ensures
        config == spec_fetch_gossip_config(lookup),
{
    if let Ok(Some(Some(gossip_config))) = lookup {
        gossip_config
    } else {
        build_default_gossip_config()
    }
}

/// A flow of the transport layer, as configured.
#[derive(Clone, Copy, Debug, PartialEq, Eq, Structural)]
pub struct FlowConfig {
    pub flow_tag: u32,
    pub server_port: u16,
    pub queue_size: usize,
}

/// The tag of a flow of the transport layer.
#[derive(Clone, Copy, Debug, PartialEq, Eq, Structural)]
pub struct FlowTag(pub u32);

/// The tags of the configured flows, in order.
pub open spec fn spec_flow_tags(flows: Seq<FlowConfig>) -> Seq<FlowTag> {
    Seq::new(flows.len(), |i: int| FlowTag(flows[i].flow_tag))
}

/// The tags of the configured flows, in order.
pub fn flow_tags(flows: &Vec<FlowConfig>) -> (tags: Vec<FlowTag>)
    ensures
        tags@ == spec_flow_tags(flows@),
{
    let mut tags: Vec<FlowTag> = Vec::new();
    let mut i: usize = 0;
    while i < flows.len()
        invariant
            i <= flows.len(),
            tags@.len() == i,
            forall|k: int| 0 <= k < i ==> tags@[k] == FlowTag(flows@[k].flow_tag),
        decreases flows.len() - i,
    {
        tags.push(FlowTag(flows[i].flow_tag));
        i += 1;
    }
    assert(tags@ =~= spec_flow_tags(flows@));
    tags
}

} // verus!
