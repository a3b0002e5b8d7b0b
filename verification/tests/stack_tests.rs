use ic_p2p::artifact::{Advert, ArtifactTag, CryptoHash};
use ic_p2p::config::{build_default_gossip_config, FlowConfig, FlowTag, GossipConfig};
use ic_p2p::lifecycle::{RunState, TimerAction};
use ic_p2p::manager::DispatchError;
use ic_p2p::pool::{Artifact, ArtifactPool, Mutation};
use ic_p2p::processor::{
    ArtifactProcessor, Diagnostic, Outcome, ProcessOutput, ProcessorInput, Ready,
};
use ic_p2p::runner::{IngressError, IngressEventHandler, P2P};
use ic_p2p::setup::{
    ensure_persistent_pool_replica_version_compatibility, init_artifact_pools, is_persisted,
    setup_artifact_manager, ArtifactPoolConfig, KindFactories, P2PStateSyncClient, PersistedPools,
    StackError,
};
use ic_p2p::stack::{create_networking_stack, TransportConfig};

const ALL_TAGS: [ArtifactTag; 6] = [
    ArtifactTag::CertificationArtifact,
    ArtifactTag::ConsensusArtifact,
    ArtifactTag::DkgArtifact,
    ArtifactTag::FileTreeSyncArtifact,
    ArtifactTag::IngressArtifact,
    ArtifactTag::StateSyncArtifact,
];

fn artifact(id: &str, content: &[u8]) -> Artifact {
    Artifact { id: id.to_string(), content: content.to_vec() }
}

fn advert(id: &str) -> Advert {
    Advert {
        id: id.to_string(),
        attribute: id.to_string(),
        size: 0,
        integrity_hash: CryptoHash(id.as_bytes().to_vec()),
    }
}

/// Accepts every artifact whose content does not begin with the byte 0,
/// which stands for an invalid signature.
struct SignatureCheck;

impl ArtifactProcessor for SignatureCheck {
    fn process(&mut self, _pool: &ArtifactPool, input: &ProcessorInput) -> Outcome {
        let mut output =
            ProcessOutput { mutations: Vec::new(), adverts: Vec::new(), purges: Vec::new() };
        if let ProcessorInput::NewArtifact(a, _) = input {
            if a.content.first() == Some(&0) {
                output.mutations.push(Mutation::HandleInvalid(
                    a.id.clone(),
                    "invalid signature".to_string(),
                ));
            } else {
                output.mutations.push(Mutation::MoveToValidated(a.id.clone()));
                output.adverts.push(advert(&a.id));
            }
        }
        Ok(output)
    }
}

type Factory = Ready<SignatureCheck>;

fn factories() -> KindFactories<Factory> {
    KindFactories {
        consensus: Ready(SignatureCheck),
        ingress: Ready(SignatureCheck),
        certification: Ready(SignatureCheck),
        dkg: Ready(SignatureCheck),
    }
}

fn pool_config(max: usize) -> ArtifactPoolConfig {
    ArtifactPoolConfig { ingress_pool_max_count: max, replica_version: "0.8.0".to_string() }
}

fn nothing_persisted() -> PersistedPools {
    PersistedPools {
        replica_version: None,
        consensus: Vec::new(),
        certification: Vec::new(),
        dkg: Vec::new(),
    }
}

fn transport_config() -> TransportConfig {
    TransportConfig {
        p2p_flows: vec![FlowConfig { flow_tag: 1234, server_port: 4100, queue_size: 1024 }],
    }
}

fn stack(
    client: P2PStateSyncClient<Factory>,
    max: usize,
) -> (IngressEventHandler, P2P<Factory>) {
    let (handler, p2p, _cache) = create_networking_stack::<Factory, String>(
        &transport_config(),
        &pool_config(max),
        11,
        Ok(()),
        Ok(None),
        &nothing_persisted(),
        client,
        factories(),
        artifact("cup", b"genesis"),
    )
    .unwrap();
    (handler, p2p)
}

fn registered(p2p: &P2P<Factory>) -> Vec<ArtifactTag> {
    ALL_TAGS.iter().copied().filter(|tag| p2p.artifact_manager().is_registered(*tag)).collect()
}

#[test]
fn a_submitted_artifact_is_validated_and_broadcast_once() {
    let (handler, mut p2p) = stack(P2PStateSyncClient::TestClient(), 10);
    p2p.add_peer(1);
    p2p.add_peer(2);
    assert_eq!(handler.on_ingress_message(&mut p2p, artifact("a1", b"signed")), Ok(()));
    let done = p2p.process(ArtifactTag::IngressArtifact).unwrap().unwrap();
    assert_eq!(done.report.adverts.len(), 1);
    assert_eq!(done.sends.len(), 1);
    assert_eq!(done.sends[0].advert.id, "a1");
    assert_eq!(done.sends[0].recipients, vec![1, 2]);
    let pool = p2p.artifact_manager().client(ArtifactTag::IngressArtifact).unwrap().pool();
    assert!(pool.contains_validated(&"a1".to_string()));
    assert_eq!(pool.unvalidated_len(), 0);
    assert!(p2p.process(ArtifactTag::IngressArtifact).unwrap().is_none());
}

#[test]
fn an_artifact_with_an_invalid_signature_is_dropped() {
    let (handler, mut p2p) = stack(P2PStateSyncClient::TestClient(), 10);
    p2p.add_peer(1);
    let counts = |p2p: &P2P<Factory>| {
        let pool = p2p.artifact_manager().client(ArtifactTag::IngressArtifact).unwrap().pool();
        (pool.unvalidated_len(), pool.validated_len())
    };
    let before = counts(&p2p);
    assert_eq!(handler.on_ingress_message(&mut p2p, artifact("a1", &[0, 1, 2])), Ok(()));
    let done = p2p.process(ArtifactTag::IngressArtifact).unwrap().unwrap();
    assert!(done.sends.is_empty());
    assert!(done.report.adverts.is_empty());
    assert_eq!(counts(&p2p), before);
    assert_eq!(done.report.diagnostics.len(), 1);
    assert!(matches!(
        &done.report.diagnostics[0],
        Diagnostic::ValidationRejected { id, reason } if id == "a1" && reason == "invalid signature"
    ));
}

#[test]
fn an_artifact_from_a_peer_is_not_announced_to_that_peer() {
    let (_handler, mut p2p) = stack(P2PStateSyncClient::TestClient(), 10);
    for peer in [1, 2, 3] {
        p2p.add_peer(peer);
    }
    let tag = ArtifactTag::ConsensusArtifact;
    let request = p2p.on_advert(tag, &advert("block"), 2, 0).unwrap().unwrap();
    assert_eq!(request.peer, 2);
    assert!(p2p.on_advert(tag, &advert("block"), 3, 1).unwrap().is_none());
    assert_eq!(p2p.on_artifact(tag, artifact("block", b"b"), 2), Ok(true));
    let done = p2p.process(tag).unwrap().unwrap();
    assert_eq!(done.sends.len(), 1);
    assert_eq!(done.sends[0].recipients, vec![1, 3]);
    assert!(p2p.on_advert(tag, &advert("block"), 1, 2).unwrap().is_none());
}

#[test]
fn two_advertisers_one_request_and_one_retry() {
    let (_handler, mut p2p) = stack(P2PStateSyncClient::TestClient(), 10);
    p2p.add_peer(1);
    p2p.add_peer(2);
    assert!(p2p.run());
    let tag = ArtifactTag::DkgArtifact;
    assert_eq!(p2p.on_advert(tag, &advert("d1"), 1, 0).unwrap().unwrap().peer, 1);
    assert!(p2p.on_advert(tag, &advert("d1"), 2, 10).unwrap().is_none());
    assert!(p2p.on_timer(14_999).is_empty());
    let retries = p2p.on_timer(15_000);
    assert_eq!(retries.len(), 1);
    assert_eq!(retries[0].peer, 2);
    assert_eq!(retries[0].id, "d1");
    assert!(p2p.on_timer(15_100).is_empty());
}

#[test]
fn events_for_an_unregistered_kind_fail() {
    let (_handler, mut p2p) = stack(P2PStateSyncClient::TestClient(), 10);
    let tag = ArtifactTag::StateSyncArtifact;
    assert!(matches!(p2p.on_advert(tag, &advert("s"), 1, 0), Err(DispatchError::UnknownTag)));
    assert_eq!(p2p.on_artifact(tag, artifact("s", b"1"), 1), Err(DispatchError::UnknownTag));
    assert!(matches!(p2p.process(tag), Err(DispatchError::UnknownTag)));
    for tag in registered(&p2p) {
        let client = p2p.artifact_manager().client(tag).unwrap();
        assert_eq!(client.pending(), 0);
    }
}

#[test]
fn ingress_is_throttled_at_capacity() {
    let (handler, mut p2p) = stack(P2PStateSyncClient::TestClient(), 2);
    assert_eq!(handler.on_ingress_message(&mut p2p, artifact("i1", b"1")), Ok(()));
    assert_eq!(handler.on_ingress_message(&mut p2p, artifact("i2", b"1")), Ok(()));
    assert_eq!(
        handler.on_ingress_message(&mut p2p, artifact("i3", b"1")),
        Err(IngressError::Throttled)
    );
    assert_eq!(
        handler.on_ingress_message(&mut p2p, artifact("i4", b"1")),
        Err(IngressError::Throttled)
    );
    assert_eq!(p2p.artifact_manager().client(ArtifactTag::IngressArtifact).unwrap().pending(), 2);
    p2p.process(ArtifactTag::IngressArtifact).unwrap();
    assert_eq!(handler.on_ingress_message(&mut p2p, artifact("i3", b"1")), Ok(()));
    assert_eq!(
        handler.on_ingress_message(&mut p2p, artifact("i4", b"1")),
        Err(IngressError::Throttled)
    );
}

#[test]
fn ingress_without_an_ingress_kind_or_after_shutdown_fails() {
    let pool = ArtifactPool::new();
    let (handler, mut alone) =
        stack(P2PStateSyncClient::TestChunkingPool(pool, Ready(SignatureCheck)), 10);
    assert_eq!(
        handler.on_ingress_message(&mut alone, artifact("i", b"1")),
        Err(IngressError::UnknownTag)
    );
    let (handler, mut p2p) = stack(P2PStateSyncClient::TestClient(), 10);
    p2p.shutdown_processors();
    assert_eq!(
        handler.on_ingress_message(&mut p2p, artifact("i", b"1")),
        Err(IngressError::Closed)
    );
    assert_eq!(
        p2p.on_artifact(ArtifactTag::IngressArtifact, artifact("i", b"1"), 3),
        Err(DispatchError::Closed)
    );
}

#[test]
fn the_state_sync_client_decides_which_kinds_are_registered() {
    let (_h, test_client) = stack(P2PStateSyncClient::TestClient(), 1);
    assert_eq!(
        registered(&test_client),
        vec![
            ArtifactTag::CertificationArtifact,
            ArtifactTag::ConsensusArtifact,
            ArtifactTag::DkgArtifact,
            ArtifactTag::IngressArtifact,
        ]
    );
    let (_h, client) = stack(P2PStateSyncClient::Client(Ready(SignatureCheck)), 1);
    assert_eq!(
        registered(&client),
        vec![
            ArtifactTag::CertificationArtifact,
            ArtifactTag::ConsensusArtifact,
            ArtifactTag::DkgArtifact,
            ArtifactTag::IngressArtifact,
            ArtifactTag::StateSyncArtifact,
        ]
    );
    let mut pool = ArtifactPool::new();
    pool.insert_unvalidated(artifact("chunk", b"1"));
    let (_h, chunking) =
        stack(P2PStateSyncClient::TestChunkingPool(pool, Ready(SignatureCheck)), 1);
    assert_eq!(registered(&chunking), vec![ArtifactTag::FileTreeSyncArtifact]);
    let client = chunking.artifact_manager().client(ArtifactTag::FileTreeSyncArtifact).unwrap();
    assert!(client.pool().contains_unvalidated(&"chunk".to_string()));
}

#[test]
fn a_new_stack_has_its_parts_in_their_initial_state() {
    let custom = GossipConfig { max_chunk_wait_ms: 250, ..build_default_gossip_config() };
    let (handler, mut p2p, cache) = create_networking_stack::<Factory, String>(
        &transport_config(),
        &pool_config(5),
        42,
        Ok(()),
        Ok(Some(Some(custom))),
        &nothing_persisted(),
        P2PStateSyncClient::TestClient(),
        factories(),
        artifact("cup", b"genesis"),
    )
    .unwrap();
    assert_eq!(handler.node_id, 42);
    assert_eq!(handler.throttler.capacity, 5);
    assert_eq!(p2p.node_id(), 42);
    assert_eq!(p2p.gossip_config(), custom);
    assert_eq!(p2p.flow_tags(), &vec![FlowTag(1234)]);
    assert_eq!(p2p.lifecycle().state(), RunState::Created);
    assert!(!p2p.gossip().is_stopped());
    assert_eq!(cache.catch_up_package().id, "cup");
    assert_eq!(cache.finalized_tip().id, "cup");
    let consensus = p2p.artifact_manager().client(ArtifactTag::ConsensusArtifact).unwrap();
    assert!(consensus.pool().contains_validated(&"cup".to_string()));
    assert!(!consensus.is_started());
    p2p.add_peer(1);
    p2p.add_peer(2);
    p2p.run();
    p2p.on_advert(ArtifactTag::DkgArtifact, &advert("d"), 1, 0).unwrap();
    p2p.on_advert(ArtifactTag::DkgArtifact, &advert("d"), 2, 0).unwrap();
    assert!(p2p.on_timer(249).is_empty());
    assert_eq!(p2p.on_timer(250).len(), 1);
}

#[test]
fn a_refused_transport_registration_aborts_the_construction() {
    let result = create_networking_stack::<Factory, String>(
        &transport_config(),
        &pool_config(5),
        1,
        Err("client already registered".to_string()),
        Ok(None),
        &PersistedPools { replica_version: Some("0.7.0".to_string()), ..nothing_persisted() },
        P2PStateSyncClient::TestClient(),
        factories(),
        artifact("cup", b""),
    );
    match result {
        Err(StackError::TransportRegistrationFailed(detail)) => {
            assert_eq!(detail, "client already registered")
        }
        _ => panic!("the construction should have failed"),
    }
}

#[test]
fn pools_of_another_replica_version_abort_the_construction() {
    let result = create_networking_stack::<Factory, String>(
        &transport_config(),
        &pool_config(5),
        1,
        Ok(()),
        Ok(None),
        &PersistedPools { replica_version: Some("0.7.0".to_string()), ..nothing_persisted() },
        P2PStateSyncClient::TestClient(),
        factories(),
        artifact("cup", b""),
    );
    assert!(matches!(result, Err(StackError::PersistentPoolIncompatible)));
    let same = ensure_persistent_pool_replica_version_compatibility(
        &Some("0.8.0".to_string()),
        &"0.8.0".to_string(),
    );
    assert!(same.is_ok());
    let none = ensure_persistent_pool_replica_version_compatibility(&None, &"0.8.0".to_string());
    assert!(none.is_ok());
    let other = ensure_persistent_pool_replica_version_compatibility(
        &Some("0.8.1".to_string()),
        &"0.8.0".to_string(),
    );
    assert!(matches!(other, Err(StackError::PersistentPoolIncompatible)));
}

#[test]
fn pools_start_from_what_was_persisted() {
    let persisted = PersistedPools {
        replica_version: Some("0.8.0".to_string()),
        consensus: vec![artifact("block-1", b"1"), artifact("block-2", b"2")],
        certification: vec![artifact("cert-1", b"c")],
        dkg: vec![artifact("dealing", b"d"), artifact("dealing", b"e")],
    };
    let (ingress, consensus, certification, dkg) =
        init_artifact_pools(&persisted, &artifact("cup", b"genesis"));
    assert_eq!(ingress.validated_len() + ingress.unvalidated_len(), 0);
    assert_eq!(consensus.validated_len(), 3);
    assert_eq!(consensus.last_validated().unwrap().id, "cup");
    assert_eq!(certification.validated_len(), 1);
    assert_eq!(dkg.validated_len(), 1);
    assert_eq!(dkg.get_validated(&"dealing".to_string()).unwrap().content, b"d".to_vec());
    let (again_ingress, again, _, _) = init_artifact_pools(
        &PersistedPools {
            replica_version: None,
            consensus: vec![artifact("cup", b"persisted")],
            certification: Vec::new(),
            dkg: Vec::new(),
        },
        &artifact("cup", b"genesis"),
    );
    assert_eq!(again_ingress.unvalidated_len(), 0);
    assert_eq!(again.validated_len(), 1);
    assert_eq!(again.get_validated(&"cup".to_string()).unwrap().content, b"persisted".to_vec());
    let (manager, cache, throttler) = setup_artifact_manager(
        &pool_config(9),
        &persisted,
        artifact("cup", b"genesis"),
        P2PStateSyncClient::TestClient(),
        factories(),
    )
    .ok()
    .unwrap();
    assert_eq!(throttler.capacity, 9);
    assert_eq!(cache.finalized_tip().id, "cup");
    assert!(manager.has_artifact(ArtifactTag::ConsensusArtifact, &"block-2".to_string()));
    assert!(manager.has_artifact(ArtifactTag::CertificationArtifact, &"cert-1".to_string()));
}

#[test]
fn after_the_stop_nothing_ticks_and_nothing_is_sent() {
    let (_handler, mut p2p) = stack(P2PStateSyncClient::TestClient(), 10);
    p2p.add_peer(1);
    p2p.add_peer(2);
    let tag = ArtifactTag::ConsensusArtifact;
    assert!(p2p.run());
    assert_eq!(p2p.next_action(), TimerAction::SleepThenTick(100));
    p2p.on_advert(tag, &advert("b"), 1, 0).unwrap();
    p2p.on_advert(tag, &advert("b"), 2, 0).unwrap();
    p2p.on_artifact(tag, artifact("waiting", b"1"), 1).unwrap();
    assert_eq!(p2p.request_stop(), 1);
    assert_eq!(p2p.lifecycle().state(), RunState::Stopping);
    assert_eq!(p2p.next_action(), TimerAction::Exit);
    assert!(p2p.on_timer(1_000_000).is_empty());
    assert!(!p2p.gossip().is_stopped());
    assert!(p2p.task_exited());
    assert_eq!(p2p.lifecycle().state(), RunState::Stopped);
    assert!(p2p.gossip().is_stopped());
    assert!(!p2p.run());
    assert!(p2p.on_timer(2_000_000).is_empty());
    assert!(p2p.on_advert(tag, &advert("c"), 1, 0).unwrap().is_none());
    assert_eq!(p2p.on_artifact(tag, artifact("late", b"1"), 1), Ok(false));
    let done = p2p.process(tag).unwrap().unwrap();
    assert_eq!(done.report.adverts.len(), 1);
    assert_eq!(done.sends.len(), 1);
    assert!(done.sends[0].recipients.is_empty());
    assert_eq!(p2p.request_stop(), 0);
    assert_eq!(p2p.lifecycle().state(), RunState::Stopped);
}

#[test]
fn a_stack_that_never_ran_stops_at_once() {
    let (_handler, mut p2p) = stack(P2PStateSyncClient::TestClient(), 10);
    assert_eq!(p2p.next_action(), TimerAction::Exit);
    assert!(p2p.on_timer(5).is_empty());
    assert_eq!(p2p.request_stop(), 0);
    assert_eq!(p2p.lifecycle().state(), RunState::Stopped);
    assert!(p2p.gossip().is_stopped());
    p2p.remove_peer(3);
}

/// Counts the adverts and the ticks that it is asked to process.
struct Counter {
    seen: std::rc::Rc<std::cell::RefCell<Vec<String>>>,
}

impl ArtifactProcessor for Counter {
    fn process(&mut self, _pool: &ArtifactPool, input: &ProcessorInput) -> Outcome {
        let name = match input {
            ProcessorInput::NewArtifact(a, _) => format!("artifact {}", a.id),
            ProcessorInput::AdvertReceived(a, peer) => format!("advert {} from {}", a.id, peer),
            ProcessorInput::TimerTick => "tick".to_string(),
            ProcessorInput::Shutdown => "shutdown".to_string(),
        };
        self.seen.borrow_mut().push(name);
        Ok(ProcessOutput { mutations: Vec::new(), adverts: Vec::new(), purges: Vec::new() })
    }
}

#[test]
fn adverts_and_ticks_reach_the_processor_of_the_kind() {
    let seen = std::rc::Rc::new(std::cell::RefCell::new(Vec::new()));
    let counter = |seen: &std::rc::Rc<std::cell::RefCell<Vec<String>>>| {
        Ready(Counter { seen: seen.clone() })
    };
    let idle = std::rc::Rc::new(std::cell::RefCell::new(Vec::new()));
    let (_handler, mut p2p, _cache) = create_networking_stack::<Ready<Counter>, String>(
        &transport_config(),
        &pool_config(5),
        3,
        Ok(()),
        Ok(None),
        &nothing_persisted(),
        P2PStateSyncClient::TestClient(),
        KindFactories {
            consensus: counter(&seen),
            ingress: counter(&idle),
            certification: counter(&idle),
            dkg: counter(&idle),
        },
        artifact("cup", b""),
    )
    .ok()
    .unwrap();
    let tag = ArtifactTag::ConsensusArtifact;
    assert_eq!(p2p.submit(tag, ProcessorInput::AdvertReceived(advert("b1"), 9)), Ok(()));
    assert_eq!(p2p.submit(tag, ProcessorInput::TimerTick), Ok(()));
    assert_eq!(
        p2p.submit(ArtifactTag::StateSyncArtifact, ProcessorInput::TimerTick),
        Err(DispatchError::UnknownTag)
    );
    assert_eq!(p2p.artifact_manager().client(tag).unwrap().pending(), 2);
    assert!(p2p.process(tag).unwrap().is_some());
    assert!(p2p.process(tag).unwrap().is_some());
    assert!(p2p.process(tag).unwrap().is_none());
    assert_eq!(*seen.borrow(), vec!["advert b1 from 9".to_string(), "tick".to_string()]);
    assert!(idle.borrow().is_empty());
    assert_eq!(p2p.submit(tag, ProcessorInput::Shutdown), Ok(()));
    assert_eq!(p2p.submit(tag, ProcessorInput::TimerTick), Err(DispatchError::Closed));
}

#[test]
fn purge_and_abandon_through_the_runner() {
    let (_handler, mut p2p) = stack(P2PStateSyncClient::TestClient(), 10);
    let tag = ArtifactTag::ConsensusArtifact;
    let cup = "cup".to_string();
    assert_eq!(p2p.on_purge(ArtifactTag::StateSyncArtifact, &cup), Err(DispatchError::UnknownTag));
    assert_eq!(p2p.on_purge(tag, &cup), Ok(true));
    assert_eq!(p2p.on_purge(tag, &cup), Ok(false));
    assert!(!p2p.artifact_manager().has_artifact(tag, &cup));
    p2p.on_artifact(tag, artifact("b1", b"1"), 1).unwrap();
    p2p.on_artifact(tag, artifact("b2", b"1"), 1).unwrap();
    p2p.on_artifact(ArtifactTag::DkgArtifact, artifact("d", b"1"), 1).unwrap();
    assert_eq!(p2p.abandon(ArtifactTag::StateSyncArtifact), Err(DispatchError::UnknownTag));
    assert_eq!(p2p.abandon(tag), Ok(2));
    let consensus = p2p.artifact_manager().client(tag).unwrap();
    assert!(consensus.has_exited());
    assert_eq!(consensus.pending(), 0);
    assert_eq!(p2p.artifact_manager().client(ArtifactTag::DkgArtifact).unwrap().pending(), 1);
    assert_eq!(p2p.on_purge(tag, &cup), Err(DispatchError::Closed));
    assert_eq!(p2p.abandon(tag), Ok(0));
}

#[test]
fn events_leave_the_identity_and_the_configuration_alone() {
    let (handler, mut p2p) = stack(P2PStateSyncClient::TestClient(), 10);
    let config = p2p.gossip_config();
    p2p.add_peer(1);
    p2p.run();
    p2p.on_advert(ArtifactTag::DkgArtifact, &advert("d"), 1, 0).unwrap();
    p2p.on_timer(20_000);
    handler.on_ingress_message(&mut p2p, artifact("i", b"1")).unwrap();
    p2p.process(ArtifactTag::IngressArtifact).unwrap();
    p2p.submit(ArtifactTag::DkgArtifact, ProcessorInput::TimerTick).unwrap();
    p2p.abandon(ArtifactTag::DkgArtifact).unwrap();
    p2p.shutdown_processors();
    p2p.request_stop();
    p2p.task_exited();
    assert_eq!(p2p.node_id(), 11);
    assert_eq!(p2p.gossip_config(), config);
    assert_eq!(p2p.flow_tags(), &vec![FlowTag(1234)]);
}

#[test]
fn error_messages() {
    let refused = StackError::TransportRegistrationFailed("QueueFull".to_string());
    assert_eq!(refused.message(), "transport registration failed: QueueFull");
    let empty = StackError::TransportRegistrationFailed(String::new());
    assert_eq!(empty.message(), "transport registration failed: ");
    assert_eq!(
        StackError::PersistentPoolIncompatible.message(),
        "the persistent pools were written by another replica version"
    );
}

#[test]
fn consensus_certification_and_dkg_pools_are_persisted() {
    let persisted: Vec<ArtifactTag> =
        ALL_TAGS.iter().copied().filter(|tag| is_persisted(*tag)).collect();
    assert_eq!(
        persisted,
        vec![
            ArtifactTag::CertificationArtifact,
            ArtifactTag::ConsensusArtifact,
            ArtifactTag::DkgArtifact,
        ]
    );
}
