//! The construction of the networking stack of a node.

use crate::artifact::ArtifactTag;
use crate::artifact::NodeId;
use crate::config::fetch_gossip_config;
use crate::config::flow_tags;
use crate::config::spec_fetch_gossip_config;
use crate::config::spec_flow_tags;
use crate::config::FlowConfig;
use crate::config::GossipConfig;
use crate::gossip::GossipView;
use crate::lifecycle::LifecycleView;
use crate::lifecycle::RunState;
use crate::pool::cache_of;
use crate::pool::Artifact;
use crate::pool::ConsensusPoolCache;
use crate::processor::ProcessorFactory;
use crate::runner::IngressEventHandler;
use crate::runner::P2P;
use crate::setup::compatible;
use crate::setup::pool_at_start;
use crate::setup::setup_artifact_manager;
use crate::setup::spec_registry;
use crate::setup::ArtifactPoolConfig;
use crate::setup::KindFactories;
use crate::setup::P2PStateSyncClient;
use crate::setup::PersistedPools;
use crate::setup::StackError;
use vstd::prelude::*;

verus! {

/// The configuration of the transport layer, as far as this layer reads
/// it.
#[derive(Debug)]
pub struct TransportConfig {
    pub p2p_flows: Vec<FlowConfig>,
}

/// The function constructs the networking stack of the node `node_id`: the
/// handler of ingress messages, the runner and the consensus pool cache.
///
/// The caller has registered the event handler with the transport layer
/// and has looked the gossip configuration up in the registry; it hands in
/// what each of the two answered.
///
/// The construction fails with `TransportRegistrationFailed` if the
/// transport layer refused the registration, and else with
/// `PersistentPoolIncompatible` if the persisted pools are of another
/// replica version. Otherwise the kinds are registered as
/// `setup_artifact_manager` says, over pools that start from what was
/// persisted; the gossip layer uses the configuration of the registry, or
/// the default where the registry has none; and nothing runs yet.
pub fn create_networking_stack<F: ProcessorFactory, E>(
    transport_config: &TransportConfig,
    artifact_pool_config: &ArtifactPoolConfig,
    node_id: NodeId,
    transport_registration: Result<(), String>,
    gossip_config_lookup: Result<Option<Option<GossipConfig>>, E>,
    persisted: &PersistedPools,
    state_sync_client: P2PStateSyncClient<F>,
    factories: KindFactories<F>,
    catch_up_package: Artifact,
) -> (result: Result<(IngressEventHandler, P2P<F>, ConsensusPoolCache), StackError>)
    requires
        state_sync_client.wf(),
    ensures
        transport_registration matches Err(detail) ==> (result matches Err(
            StackError::TransportRegistrationFailed(d),
        ) && d@ == detail@),
        transport_registration.is_ok() && !compatible(
            persisted.replica_version,
            artifact_pool_config.replica_version@,
        ) ==> (result matches Err(e) && e is PersistentPoolIncompatible),
        transport_registration.is_ok() && compatible(
            persisted.replica_version,
            artifact_pool_config.replica_version@,
        ) ==> (result matches Ok((handler, p2p, cache)) && {
            let consensus = pool_at_start(
                ArtifactTag::ConsensusArtifact,
                *persisted,
                catch_up_package@,
            );
            let config = spec_fetch_gossip_config(gossip_config_lookup);
            &&& handler.node_id == node_id
            &&& handler.throttler.capacity == artifact_pool_config.ingress_pool_max_count
            &&& p2p.wf()
            &&& p2p.spec_node_id() == node_id
            &&& p2p.spec_gossip_config() == config
            &&& p2p.spec_flow_tags() == spec_flow_tags(transport_config.p2p_flows@)
            &&& p2p@.registry == spec_registry(
                state_sync_client.spec_kind(),
                state_sync_client.spec_alone(),
                *persisted,
                catch_up_package@,
            )
            &&& p2p@.gossip == (GossipView {
                peers: Seq::empty(),
                offers: Seq::empty(),
                requests: Seq::empty(),
                origins: Seq::empty(),
                timeout_ms: config.max_chunk_wait_ms as u64,
                stopped: false,
            })
            &&& p2p@.lifecycle == (LifecycleView { state: RunState::Created, tasks: 0 })
            &&& cache@ == cache_of(consensus, catch_up_package@)
        }),
{
    let p2p_flow_tags = flow_tags(&transport_config.p2p_flows);
    let gossip_config = fetch_gossip_config(gossip_config_lookup);
    match transport_registration {
        Err(detail) => {
            return Err(StackError::TransportRegistrationFailed(detail));
        },
        Ok(()) => {},
    }
    // Now we setup the Artifact Pools and the manager.
    let (artifact_manager, consensus_pool_cache, ingress_throttle) = match setup_artifact_manager(
        artifact_pool_config,
        persisted,
        catch_up_package,
        state_sync_client,
        factories,
    ) {
        Err(e) => {
            return Err(e);
        },
        Ok(parts) => parts,
    };
    let p2p = P2P::new(node_id, artifact_manager, gossip_config, p2p_flow_tags);
    let ingress_handler = IngressEventHandler::new(ingress_throttle, node_id);
    Ok((ingress_handler, p2p, consensus_pool_cache))
}

} // verus!
