use ic_p2p::artifact::{
    string_bytes, Advert, ArtifactKind, ArtifactTag, CryptoHash, FileTreeSyncArtifact,
    TestArtifact, TAG_COUNT,
};
use ic_p2p::config::{
    build_default_gossip_config, fetch_gossip_config, flow_tags, FlowConfig, FlowTag, GossipConfig,
};
use ic_p2p::pool::{Artifact, ArtifactPool, ConsensusPoolCache, Mutation};
use ic_p2p::throttle::IngressThrottler;

fn message(path: &str, id: &str) -> FileTreeSyncArtifact {
    FileTreeSyncArtifact { absolute_path: path.to_string(), id: id.to_string() }
}

fn artifact(id: &str, content: &[u8]) -> Artifact {
    Artifact { id: id.to_string(), content: content.to_vec() }
}

fn same_advert(a: &Advert, b: &Advert) -> bool {
    a.id == b.id
        && a.attribute == b.attribute
        && a.size == b.size
        && a.integrity_hash.0 == b.integrity_hash.0
}

#[test]
fn test_artifact_advert_fields() {
    let advert = TestArtifact::message_to_advert(&message("/tmp/tree", "a1"));
    assert_eq!(advert.id, "a1");
    assert_eq!(advert.attribute, "a1");
    assert_eq!(advert.size, 0);
    let mut expected = vec![0x61u8, 0x31u8, 0xffu8];
    expected.extend_from_slice(b"/tmp/tree");
    assert_eq!(advert.integrity_hash.0, expected);
}

#[test]
fn test_artifact_tag_is_file_tree_sync() {
    assert_eq!(TestArtifact::tag(), ArtifactTag::FileTreeSyncArtifact);
}

#[test]
fn message_to_advert_is_deterministic() {
    let first = TestArtifact::message_to_advert(&message("/data/x", "tree-7"));
    let second = TestArtifact::message_to_advert(&message("/data/x", "tree-7"));
    assert!(same_advert(&first, &second));
}

#[test]
fn message_to_advert_tells_identifiers_apart() {
    let first = TestArtifact::message_to_advert(&message("/data/x", "tree-7"));
    let second = TestArtifact::message_to_advert(&message("/data/x", "tree-8"));
    assert_ne!(first.id, second.id);
    assert_ne!(first.integrity_hash.0, second.integrity_hash.0);
}

#[test]
fn message_to_advert_tells_contents_apart() {
    let first = TestArtifact::message_to_advert(&message("/x", "a1"));
    let second = TestArtifact::message_to_advert(&message("/y", "a1"));
    assert_eq!(first.id, second.id);
    assert_eq!(first.attribute, second.attribute);
    assert_ne!(first.integrity_hash.0, second.integrity_hash.0);
    assert_eq!(first.integrity_hash.0, vec![0x61u8, 0x31, 0xff, 0x2f, 0x78]);
    assert_eq!(second.integrity_hash.0, vec![0x61u8, 0x31, 0xff, 0x2f, 0x79]);
}

#[test]
fn integrity_hash_keeps_identifier_and_path_apart() {
    let first = TestArtifact::message_to_advert(&message("b", "a"));
    let second = TestArtifact::message_to_advert(&message("", "ab"));
    let third = TestArtifact::message_to_advert(&message("ab", ""));
    assert_eq!(first.integrity_hash.0, vec![0x61u8, 0xff, 0x62]);
    assert_eq!(second.integrity_hash.0, vec![0x61u8, 0x62, 0xff]);
    assert_eq!(third.integrity_hash.0, vec![0xffu8, 0x61, 0x62]);
}

#[test]
fn integrity_hash_does_not_depend_on_size() {
    let advert = TestArtifact::message_to_advert(&message("", ""));
    assert_eq!(advert.size, 0);
    assert_eq!(advert.integrity_hash.0, vec![0xffu8]);
    let long = TestArtifact::message_to_advert(&message("/p", "a-much-longer-identifier"));
    assert_eq!(long.size, 0);
    assert_eq!(long.integrity_hash.0.len(), 24 + 1 + 2);
}

#[test]
fn string_bytes_are_utf8() {
    assert_eq!(string_bytes(&"a1".to_string()), vec![0x61u8, 0x31u8]);
    assert_eq!(string_bytes(&"é".to_string()), vec![0xc3u8, 0xa9u8]);
    assert_eq!(string_bytes(&String::new()), Vec::<u8>::new());
}

#[test]
fn advert_clone_keeps_every_field() {
    let advert = Advert {
        id: "x".to_string(),
        attribute: "attr".to_string(),
        size: 9,
        integrity_hash: CryptoHash(vec![1, 2, 3]),
    };
    let copy = advert.clone();
    assert!(same_advert(&advert, &copy));
    assert_eq!(copy.size, 9);
}

#[test]
fn tags_and_positions_correspond() {
    let tags = [
        ArtifactTag::CertificationArtifact,
        ArtifactTag::ConsensusArtifact,
        ArtifactTag::DkgArtifact,
        ArtifactTag::FileTreeSyncArtifact,
        ArtifactTag::IngressArtifact,
        ArtifactTag::StateSyncArtifact,
    ];
    assert_eq!(tags.len(), TAG_COUNT);
    for (i, tag) in tags.iter().enumerate() {
        assert_eq!(tag.index(), i);
        assert_eq!(ArtifactTag::from_index(i), Some(*tag));
    }
    assert_eq!(ArtifactTag::from_index(TAG_COUNT), None);
    assert_eq!(ArtifactTag::from_index(usize::MAX), None);
}

#[test]
fn pool_starts_empty() {
    let pool = ArtifactPool::new();
    assert_eq!(pool.unvalidated_len(), 0);
    assert_eq!(pool.validated_len(), 0);
    assert!(!pool.contains(&"a1".to_string()));
    assert!(pool.last_validated().is_none());
}

#[test]
fn pool_stores_an_identifier_once() {
    let mut pool = ArtifactPool::new();
    assert!(pool.insert_unvalidated(artifact("a1", b"first")));
    assert!(!pool.insert_unvalidated(artifact("a1", b"second")));
    assert_eq!(pool.unvalidated_len(), 1);
    assert!(pool.contains_unvalidated(&"a1".to_string()));
    assert!(!pool.contains_validated(&"a1".to_string()));
    assert!(!pool.apply(&Mutation::AddToValidated(artifact("a1", b"third"))));
    assert_eq!(pool.validated_len(), 0);
}

#[test]
fn pool_moves_to_validated() {
    let mut pool = ArtifactPool::new();
    pool.insert_unvalidated(artifact("a1", b"one"));
    pool.insert_unvalidated(artifact("a2", b"two"));
    assert!(pool.apply(&Mutation::MoveToValidated("a1".to_string())));
    assert_eq!(pool.unvalidated_len(), 1);
    assert_eq!(pool.validated_len(), 1);
    assert!(pool.contains_validated(&"a1".to_string()));
    assert!(pool.contains_unvalidated(&"a2".to_string()));
    assert_eq!(pool.get_validated(&"a1".to_string()).unwrap().content, b"one".to_vec());
    assert!(pool.get_validated(&"a2".to_string()).is_none());
    assert!(!pool.apply(&Mutation::MoveToValidated("a1".to_string())));
    assert!(!pool.apply(&Mutation::MoveToValidated("missing".to_string())));
    assert_eq!(pool.validated_len(), 1);
}

#[test]
fn pool_removals() {
    let mut pool = ArtifactPool::new();
    pool.insert_unvalidated(artifact("u", b""));
    pool.apply(&Mutation::AddToValidated(artifact("v", b"")));
    assert!(!pool.apply(&Mutation::RemoveFromUnvalidated("v".to_string())));
    assert!(!pool.apply(&Mutation::RemoveFromValidated("u".to_string())));
    assert!(pool.apply(&Mutation::RemoveFromUnvalidated("u".to_string())));
    assert!(pool.apply(&Mutation::RemoveFromValidated("v".to_string())));
    assert_eq!(pool.unvalidated_len(), 0);
    assert_eq!(pool.validated_len(), 0);
}

#[test]
fn pool_handle_invalid_drops_the_unvalidated_artifact() {
    let mut pool = ArtifactPool::new();
    pool.insert_unvalidated(artifact("bad", b"x"));
    assert!(pool.apply(&Mutation::HandleInvalid("bad".to_string(), "why".to_string())));
    assert!(!pool.contains(&"bad".to_string()));
    assert!(!pool.apply(&Mutation::HandleInvalid("bad".to_string(), "why".to_string())));
}

#[test]
fn pool_purge_reaches_both_partitions() {
    let mut pool = ArtifactPool::new();
    pool.insert_unvalidated(artifact("u", b""));
    pool.apply(&Mutation::AddToValidated(artifact("v", b"")));
    assert!(pool.purge(&"u".to_string()));
    assert!(pool.purge(&"v".to_string()));
    assert!(!pool.purge(&"v".to_string()));
    assert_eq!(pool.unvalidated_len() + pool.validated_len(), 0);
}

#[test]
fn pool_restore_keeps_the_first_of_each_identifier() {
    let persisted = vec![artifact("a", b"1"), artifact("b", b"2"), artifact("a", b"3")];
    let pool = ArtifactPool::restore(&persisted);
    assert_eq!(pool.validated_len(), 2);
    assert_eq!(pool.unvalidated_len(), 0);
    assert_eq!(pool.get_validated(&"a".to_string()).unwrap().content, b"1".to_vec());
    assert_eq!(pool.last_validated().unwrap().id, "b");
}

#[test]
fn cache_reflects_only_validated_artifacts() {
    let mut pool = ArtifactPool::new();
    let mut cache = ConsensusPoolCache::new(artifact("cup", b"c"), &pool);
    assert_eq!(cache.catch_up_package().id, "cup");
    assert_eq!(cache.finalized_tip().id, "cup");
    pool.insert_unvalidated(artifact("block-1", b"b"));
    assert!(!cache.refresh(&pool));
    assert_eq!(cache.finalized_tip().id, "cup");
    pool.apply(&Mutation::MoveToValidated("block-1".to_string()));
    assert!(cache.refresh(&pool));
    assert_eq!(cache.finalized_tip().id, "block-1");
    assert!(!cache.refresh(&pool));
    let copy = cache.clone();
    assert_eq!(copy.finalized_tip().id, "block-1");
    assert_eq!(copy.catch_up_package().content, b"c".to_vec());
}

#[test]
fn throttler_admits_below_capacity() {
    let throttler = IngressThrottler::new(3);
    assert!(throttler.admits(0, 0));
    assert!(throttler.admits(1, 1));
    assert!(throttler.admits(2, 0));
    assert!(!throttler.admits(2, 1));
    assert!(!throttler.admits(0, 3));
    assert!(throttler.exceeds_threshold(3, 0));
    assert!(throttler.exceeds_threshold(usize::MAX, usize::MAX));
    assert!(!IngressThrottler::new(0).admits(0, 0));
}

#[test]
fn throttler_is_monotonic() {
    let throttler = IngressThrottler::new(5);
    let mut saturated = false;
    for depth in 0..12usize {
        let now = throttler.exceeds_threshold(depth / 2, depth - depth / 2);
        assert!(!saturated || now);
        saturated = now;
    }
    assert!(saturated);
    assert!(throttler.admits(2, 2));
}

#[test]
fn default_gossip_config_values() {
    let config = build_default_gossip_config();
    assert_eq!(config.max_artifact_streams_per_peer, 20);
    assert_eq!(config.max_chunk_wait_ms, 15_000);
    assert_eq!(config.max_duplicity, 1);
    assert_eq!(config.max_chunk_size, 4096);
    assert_eq!(config.receive_check_cache_size, 5000);
    assert_eq!(config.pfn_evaluation_period_ms, 3_000);
    assert_eq!(config.registry_poll_period_ms, 3_000);
    assert_eq!(config.retransmission_request_ms, 60_000);
}

#[test]
fn gossip_config_comes_from_the_registry_or_is_the_default() {
    let custom = GossipConfig { max_chunk_wait_ms: 77, ..build_default_gossip_config() };
    assert_eq!(fetch_gossip_config::<String>(Ok(Some(Some(custom)))), custom);
    assert_eq!(fetch_gossip_config::<String>(Ok(Some(None))), build_default_gossip_config());
    assert_eq!(fetch_gossip_config::<String>(Ok(None)), build_default_gossip_config());
    assert_eq!(
        fetch_gossip_config(Err("registry unreachable".to_string())),
        build_default_gossip_config()
    );
}

#[test]
fn flow_tags_follow_the_configured_flows() {
    let flows = vec![
        FlowConfig { flow_tag: 1234, server_port: 8080, queue_size: 1024 },
        FlowConfig { flow_tag: 7, server_port: 8081, queue_size: 16 },
    ];
    assert_eq!(flow_tags(&flows), vec![FlowTag(1234), FlowTag(7)]);
    assert_eq!(flow_tags(&Vec::new()), Vec::<FlowTag>::new());
}
