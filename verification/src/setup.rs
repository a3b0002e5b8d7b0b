//! The construction of the artifact pools and of the artifact manager:
//! which kinds are registered, and over which pools.

use crate::artifact::views;
use crate::artifact::ArtifactTag;
use crate::manager::ArtifactManager;
use crate::manager::RegistryView;
use crate::pool::cache_of;
use crate::pool::restored;
use crate::pool::Artifact;
use crate::pool::ArtifactPool;
use crate::pool::ArtifactView;
use crate::pool::ConsensusPoolCache;
use crate::pool::Mutation;
use crate::pool::MutationView;
use crate::pool::PoolView;
use crate::processor::ArtifactProcessorManager;
use crate::processor::ManagerView;
use crate::processor::ProcessorFactory;
use crate::throttle::IngressThrottler;
use vstd::prelude::*;
use vstd::string::StringExecFns;

verus! {

/// Why the networking stack could not be constructed.
#[derive(Debug)]
pub enum StackError {
    /// The transport layer refused the registration of the event handler;
    /// the string holds what it answered.
    TransportRegistrationFailed(String),
    /// The persisted pools were written by another replica version.
    PersistentPoolIncompatible,
}

/// What the caller of the construction is told of an error.
pub open spec fn spec_message(error: StackError) -> Seq<char> {
    match error {
        StackError::TransportRegistrationFailed(detail) => "transport registration failed: "@
            + detail@,
        StackError::PersistentPoolIncompatible =>
            "the persistent pools were written by another replica version"@,
    }
}

impl StackError {
    /// The message for the caller of the construction: what failed, and
    /// for a refused registration what the transport layer answered.
    pub fn message(&self) -> (message: String)
        ensures
            message@ == spec_message(*self),
    {
        match self {
            StackError::TransportRegistrationFailed(detail) => String::from_str(
                "transport registration failed: ",
            ).concat(detail.as_str()),
            StackError::PersistentPoolIncompatible => String::from_str(
                "the persistent pools were written by another replica version",
            ),
        }
    }
}

/// Whether the pool of a kind outlives a restart: those of the consensus,
/// certification and DKG kinds do.
pub open spec fn spec_is_persisted(tag: ArtifactTag) -> bool {
    tag is ConsensusArtifact || tag is CertificationArtifact || tag is DkgArtifact
}

/// Whether the pool of a kind outlives a restart.
pub fn is_persisted(tag: ArtifactTag) -> (persisted: bool)
    ensures
        persisted == spec_is_persisted(tag),
{
    match tag {
        ArtifactTag::ConsensusArtifact => true,
        ArtifactTag::CertificationArtifact => true,
        ArtifactTag::DkgArtifact => true,
        _ => false,
    }
}

/// The state sync client.
pub enum P2PStateSyncClient<F: ProcessorFactory> {
    /// The main client variant: the state manager is the processor of the
    /// state sync kind.
    Client(F),
    /// The test client variant: no state sync kind.
    TestClient(),
    /// The test chunking pool variant: a pool and the processor of the
    /// kind of the testing framework, which is then the only kind.
    TestChunkingPool(ArtifactPool, F),
}

impl<F: ProcessorFactory> P2PStateSyncClient<F> {
    /// The pool that the variant brings is well formed.
    pub open spec fn wf(&self) -> bool {
        match self {
            P2PStateSyncClient::TestChunkingPool(pool, _) => pool.wf(),
            _ => true,
        }
    }

    /// The tag and the pool of the kind that the variant adds, if it adds
    /// one.
    pub open spec fn spec_kind(&self) -> Option<(ArtifactTag, PoolView)> {
        match self {
            P2PStateSyncClient::Client(_) => Some(
                (ArtifactTag::StateSyncArtifact, PoolView::empty()),
            ),
            P2PStateSyncClient::TestClient() => None,
            P2PStateSyncClient::TestChunkingPool(pool, _) => Some(
                (ArtifactTag::FileTreeSyncArtifact, pool@),
            ),
        }
    }

    /// Whether the variant's kind is the only one of the stack.
    pub open spec fn spec_alone(&self) -> bool {
        self is TestChunkingPool
    }
}

/// The factories of the processors of the four kinds that every full stack
/// has.
pub struct KindFactories<F: ProcessorFactory> {
    pub consensus: F,
    pub ingress: F,
    pub certification: F,
    pub dkg: F,
}

/// The configuration of the artifact pools.
#[derive(Debug)]
pub struct ArtifactPoolConfig {
    /// How many ingress artifacts may wait before new ones are refused.
    pub ingress_pool_max_count: usize,
    /// The version of this replica, which tags what it persists.
    pub replica_version: String,
}

/// What was found of the persistent pools at startup.
#[derive(Debug)]
pub struct PersistedPools {
    /// The replica version that tags the persisted pools; `None` if
    /// nothing was persisted.
    pub replica_version: Option<String>,
    pub consensus: Vec<Artifact>,
    pub certification: Vec<Artifact>,
    pub dkg: Vec<Artifact>,
}

/// Whether pools tagged with the version `found` can be read by the
/// replica version `current`: they can if nothing was persisted and if the
/// versions are the same.
pub open spec fn compatible(found: Option<String>, current: Seq<char>) -> bool {
    found matches Some(version) ==> version@ == current
}

/// Checks the version that tags the persisted pools against this replica's
/// version. Pools of another version are not read.
pub fn ensure_persistent_pool_replica_version_compatibility(
    found: &Option<String>,
    current: &String,
) -> (result: Result<(), StackError>)
    ensures
        result.is_ok() == compatible(*found, current@),
        result matches Err(e) ==> e is PersistentPoolIncompatible,
{
    match found {
        Some(version) => {
            if *version == *current {
                Ok(())
            } else {
                Err(StackError::PersistentPoolIncompatible)
            }
        },
        None => Ok(()),
    }
}

impl PersistedPools {
    /// What was persisted of a kind; nothing of a kind that is not
    /// persisted.
    pub open spec fn spec_artifacts(&self, tag: ArtifactTag) -> Seq<ArtifactView> {
        if !spec_is_persisted(tag) {
            Seq::empty()
        } else if tag is ConsensusArtifact {
            views(self.consensus@)
        } else if tag is CertificationArtifact {
            views(self.certification@)
        } else {
            views(self.dkg@)
        }
    }
}

/// The pool of a kind at startup. The pool of a kind that is not persisted
/// starts empty, that of a persisted kind from what was persisted; the
/// consensus pool holds the catch-up package besides.
pub open spec fn pool_at_start(
    tag: ArtifactTag,
    persisted: PersistedPools,
    catch_up_package: ArtifactView,
) -> PoolView {
    if tag is ConsensusArtifact {
        consensus_pool_at_start(persisted.spec_artifacts(tag), catch_up_package)
    } else {
        restored(persisted.spec_artifacts(tag))
    }
}

/// The consensus pool at startup: what was persisted, and the catch-up
/// package unless its identifier was persisted already.
pub open spec fn consensus_pool_at_start(
    persisted: Seq<ArtifactView>,
    catch_up_package: ArtifactView,
) -> PoolView {
    restored(persisted).apply(MutationView::AddToValidated(catch_up_package))
}

/// The function initializes the artifact pools: the ingress pool, which
/// starts empty, and the consensus, certification and DKG pools, which
/// start from what was persisted.
pub fn init_artifact_pools(persisted: &PersistedPools, catch_up_package: &Artifact) -> (pools: (
    ArtifactPool,
    ArtifactPool,
    ArtifactPool,
    ArtifactPool,
))
    ensures
        pools.0.wf() && pools.1.wf() && pools.2.wf() && pools.3.wf(),
        pools.0@ == pool_at_start(ArtifactTag::IngressArtifact, *persisted, catch_up_package@),
        pools.1@ == pool_at_start(ArtifactTag::ConsensusArtifact, *persisted, catch_up_package@),
        pools.2@ == pool_at_start(
            ArtifactTag::CertificationArtifact,
            *persisted,
            catch_up_package@,
        ),
        pools.3@ == pool_at_start(ArtifactTag::DkgArtifact, *persisted, catch_up_package@),
{
    let mut consensus = ArtifactPool::restore(&persisted.consensus);
    let _ = consensus.apply(&Mutation::AddToValidated(catch_up_package.clone()));
    (
        ArtifactPool::new(),
        consensus,
        ArtifactPool::restore(&persisted.certification),
        ArtifactPool::restore(&persisted.dkg),
    )
}

/// The registry of a stack: the kind of the state sync client alone if it
/// is the test chunking pool; else the state sync kind, if there is one,
/// and the consensus, ingress, certification and DKG kinds, each over its
/// pool at startup. Every manager is fresh.
pub open spec fn spec_registry(
    state_sync: Option<(ArtifactTag, PoolView)>,
    alone: bool,
    persisted: PersistedPools,
    catch_up_package: ArtifactView,
) -> RegistryView {
    let first = match state_sync {
        Some((tag, pool)) => Map::<ArtifactTag, ManagerView>::empty().insert(
            tag,
            ManagerView::fresh(pool),
        ),
        None => Map::<ArtifactTag, ManagerView>::empty(),
    };
    if alone {
        first
    } else {
        first.insert(
            ArtifactTag::ConsensusArtifact,
            ManagerView::fresh(
                pool_at_start(ArtifactTag::ConsensusArtifact, persisted, catch_up_package),
            ),
        ).insert(
            ArtifactTag::IngressArtifact,
            ManagerView::fresh(
                pool_at_start(ArtifactTag::IngressArtifact, persisted, catch_up_package),
            ),
        ).insert(
            ArtifactTag::CertificationArtifact,
            ManagerView::fresh(
                pool_at_start(ArtifactTag::CertificationArtifact, persisted, catch_up_package),
            ),
        ).insert(
            ArtifactTag::DkgArtifact,
            ManagerView::fresh(
                pool_at_start(ArtifactTag::DkgArtifact, persisted, catch_up_package),
            ),
        )
    }
}

/// The function sets up and returns the artifact manager, the consensus
/// pool cache and the ingress throttler.
///
/// It fails, before anything is set up, if the persisted pools are of
/// another replica version. With the test chunking pool only that pool's
/// kind is registered; otherwise the state sync kind, if the client brings
/// one, and then the consensus, ingress, certification and DKG kinds.
pub fn setup_artifact_manager<F: ProcessorFactory>(
    artifact_pool_config: &ArtifactPoolConfig,
    persisted: &PersistedPools,
    catch_up_package: Artifact,
    state_sync_client: P2PStateSyncClient<F>,
    factories: KindFactories<F>,
) -> (result: Result<(ArtifactManager<F>, ConsensusPoolCache, IngressThrottler), StackError>)
    requires
        state_sync_client.wf(),
    ensures
        result.is_ok() == compatible(persisted.replica_version, artifact_pool_config.replica_version@),
        result matches Err(e) ==> e is PersistentPoolIncompatible,
        result matches Ok((manager, cache, throttler)) ==> {
            &&& manager.wf()
            &&& manager@ == spec_registry(
                state_sync_client.spec_kind(),
                state_sync_client.spec_alone(),
                *persisted,
                catch_up_package@,
            )
            &&& cache@ == cache_of(
                pool_at_start(ArtifactTag::ConsensusArtifact, *persisted, catch_up_package@),
                catch_up_package@,
            )
            &&& throttler.capacity == artifact_pool_config.ingress_pool_max_count
        },
{
    match ensure_persistent_pool_replica_version_compatibility(
        &persisted.replica_version,
        &artifact_pool_config.replica_version,
    ) {
        Err(e) => {
            return Err(e);
        },
        Ok(()) => {},
    }
    let mut manager: ArtifactManager<F> = ArtifactManager::new();
    let (ingress_pool, consensus_pool, cert_pool, dkg_pool) = init_artifact_pools(
        persisted,
        &catch_up_package,
    );
    let consensus_cache = ConsensusPoolCache::new(catch_up_package, &consensus_pool);
    let throttler = IngressThrottler::new(artifact_pool_config.ingress_pool_max_count);
    match state_sync_client {
        P2PStateSyncClient::TestChunkingPool(pool, factory) => {
            let _ = manager.register(
                ArtifactTag::FileTreeSyncArtifact,
                ArtifactProcessorManager::new(factory, pool),
            );
            return Ok((manager, consensus_cache, throttler));
        },
        P2PStateSyncClient::Client(factory) => {
            let _ = manager.register(
                ArtifactTag::StateSyncArtifact,
                ArtifactProcessorManager::new(factory, ArtifactPool::new()),
            );
        },
        P2PStateSyncClient::TestClient() => {},
    }
    let _ = manager.register(
        ArtifactTag::ConsensusArtifact,
        ArtifactProcessorManager::new(factories.consensus, consensus_pool),
    );
    let _ = manager.register(
        ArtifactTag::IngressArtifact,
        ArtifactProcessorManager::new(factories.ingress, ingress_pool),
    );
    let _ = manager.register(
        ArtifactTag::CertificationArtifact,
        ArtifactProcessorManager::new(factories.certification, cert_pool),
    );
    let _ = manager.register(
        ArtifactTag::DkgArtifact,
        ArtifactProcessorManager::new(factories.dkg, dkg_pool),
    );
    Ok((manager, consensus_cache, throttler))
}

} // verus!
