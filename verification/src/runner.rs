//! The runner of the peer-to-peer layer: the artifact manager, the gossip
//! bookkeeping and the lifecycle of the background timer in one place, and
//! the paths that events take through them.

use crate::artifact::views;
use crate::artifact::Advert;
use crate::artifact::ArtifactTag;
use crate::artifact::NodeId;
use crate::config::FlowTag;
use crate::config::GossipConfig;
use crate::gossip::AdvertSend;
use crate::gossip::Gossip;
use crate::gossip::GossipView;
use crate::gossip::Request;
use crate::lifecycle::Lifecycle;
use crate::lifecycle::LifecycleView;
use crate::lifecycle::RunState;
use crate::lifecycle::TimerAction;
use crate::lifecycle::P2P_TIMER_DURATION_MS;
use crate::manager::shut_down;
use crate::manager::ArtifactManager;
use crate::manager::DispatchError;
use crate::manager::RegistryView;
use crate::pool::Artifact;
use crate::processor::InputView;
use crate::processor::OutcomeView;
use crate::processor::PassReport;
use crate::processor::ProcessorFactory;
use crate::processor::ProcessorInput;
use crate::throttle::IngressThrottler;
use vstd::prelude::*;

verus! {

/// The state of the runner, as a mathematical value.
pub ghost struct P2PView {
    pub registry: RegistryView,
    pub gossip: GossipView,
    pub lifecycle: LifecycleView,
    /// The identity of this node.
    pub node_id: NodeId,
    /// The gossip configuration in use.
    pub gossip_config: GossipConfig,
    /// The tags of the transport flows in use.
    pub flow_tags: Seq<FlowTag>,
}

impl P2PView {
    /// The invariant: those of the gossip layer and of the lifecycle, and
    /// once the lifecycle is stopped the gossip layer is stopped too.
    pub open spec fn wf(self) -> bool {
        &&& self.gossip.wf()
        &&& self.lifecycle.wf()
        &&& self.lifecycle.state is Stopped ==> self.gossip.stopped
    }

    /// The gossip layer after the lifecycle moved on: it is stopped
    /// together with the lifecycle.
    pub open spec fn gossip_after(self, lifecycle: LifecycleView) -> GossipView {
        if lifecycle.state is Stopped {
            GossipView { stopped: true, ..self.gossip }
        } else {
            self.gossip
        }
    }

    /// The state after a stop was requested.
    pub open spec fn request_stop(self) -> P2PView {
        P2PView {
            lifecycle: self.lifecycle.request_stop(),
            gossip: self.gossip_after(self.lifecycle.request_stop()),
            ..self
        }
    }

    /// The state after a background task was joined.
    pub open spec fn task_exited(self) -> P2PView {
        P2PView {
            lifecycle: self.lifecycle.task_exited(),
            gossip: self.gossip_after(self.lifecycle.task_exited()),
            ..self
        }
    }

    /// The state after a tick of the timer at `now`: the gossip layer does
    /// its maintenance while the lifecycle is running, and nothing happens
    /// otherwise.
    pub open spec fn on_timer(self, now: u64) -> P2PView {
        if self.lifecycle.ticking() {
            P2PView { gossip: self.gossip.on_timer(now), ..self }
        } else {
            self
        }
    }

    /// After a stop was requested a tick changes nothing, once the
    /// lifecycle is stopped the gossip layer is, and a second request to
    /// stop changes nothing.
    pub proof fn lemma_stop_halts(self, now: u64)
        requires
            self.wf(),
        ensures
            self.request_stop().wf(),
            self.request_stop().on_timer(now) == self.request_stop(),
            self.task_exited().wf(),
            self.lifecycle.stop_requested() ==> self.on_timer(now) == self,
            self.lifecycle.stop_requested() ==> self.task_exited().on_timer(now)
                == self.task_exited(),
            self.request_stop().request_stop() == self.request_stop(),
    {
    }
}

/// What a pass of a kind produced and to whom its adverts go.
#[derive(Debug)]
pub struct Dissemination {
    pub report: PassReport,
    pub sends: Vec<AdvertSend>,
}

/// The runner of the peer-to-peer layer.
pub struct P2P<F: ProcessorFactory> {
    node_id: NodeId,
    artifact_manager: ArtifactManager<F>,
    gossip: Gossip,
    lifecycle: Lifecycle,
    flow_tags: Vec<FlowTag>,
    gossip_config: GossipConfig,
}

impl<F: ProcessorFactory> View for P2P<F> {
    type V = P2PView;

    closed spec fn view(&self) -> P2PView {
        P2PView {
            registry: self.artifact_manager@,
            gossip: self.gossip@,
            lifecycle: self.lifecycle@,
            node_id: self.node_id,
            gossip_config: self.gossip_config,
            flow_tags: self.flow_tags@,
        }
    }
}

impl<F: ProcessorFactory> P2P<F> {
    /// The runner's invariant.
    pub closed spec fn wf(&self) -> bool {
        &&& self.artifact_manager.wf()
        &&& self@.wf()
    }

    /// The identity of this node. No method of the runner changes it.
    pub open spec fn spec_node_id(&self) -> NodeId {
        self@.node_id
    }

    /// The gossip configuration in use. No method of the runner changes it.
    pub open spec fn spec_gossip_config(&self) -> GossipConfig {
        self@.gossip_config
    }

    /// The tags of the transport flows in use. No method of the runner
    /// changes them.
    pub open spec fn spec_flow_tags(&self) -> Seq<FlowTag> {
        self@.flow_tags
    }

    /// The state of a well-formed runner is well formed, and so is every
    /// registered manager.
    pub proof fn lemma_wf(&self, tag: ArtifactTag)
        requires
            self.wf(),
        ensures
            self@.wf(),
            self@.registry.dom().contains(tag) ==> self@.registry[tag].wf(),
    {
        if self@.registry.dom().contains(tag) {
            self.artifact_manager.lemma_wf_managers(tag);
        }
    }

    /// A runner over the artifact manager, in which nothing was started and
    /// no peer is connected. A request to a peer times out after the
    /// configured wait.
    pub fn new(
        node_id: NodeId,
        artifact_manager: ArtifactManager<F>,
        gossip_config: GossipConfig,
        flow_tags: Vec<FlowTag>,
    ) -> (p2p: Self)
        requires
            artifact_manager.wf(),
        ensures
            p2p.wf(),
            p2p@.registry == artifact_manager@,
            p2p@.gossip == (GossipView {
                peers: Seq::empty(),
                offers: Seq::empty(),
                requests: Seq::empty(),
                origins: Seq::empty(),
                timeout_ms: gossip_config.max_chunk_wait_ms as u64,
                stopped: false,
            }),
            p2p@.lifecycle == (LifecycleView { state: RunState::Created, tasks: 0 }),
            p2p.spec_node_id() == node_id,
            p2p.spec_gossip_config() == gossip_config,
            p2p.spec_flow_tags() == flow_tags@,
    {
        P2P {
            node_id,
            artifact_manager,
            gossip: Gossip::new(gossip_config.max_chunk_wait_ms as u64),
            lifecycle: Lifecycle::new(),
            flow_tags,
            gossip_config,
        }
    }

    /// The identity of this node.
    pub fn node_id(&self) -> (id: NodeId)
        ensures
            id == self.spec_node_id(),
    {
        self.node_id
    }

    /// The gossip configuration in use.
    pub fn gossip_config(&self) -> (config: GossipConfig)
        ensures
            config == self.spec_gossip_config(),
    {
        self.gossip_config
    }

    /// The tags of the transport flows in use.
    pub fn flow_tags(&self) -> (tags: &Vec<FlowTag>)
        ensures
            tags@ == self.spec_flow_tags(),
    {
        &self.flow_tags
    }

    /// The artifact manager, for readers.
    pub fn artifact_manager(&self) -> (manager: &ArtifactManager<F>)
        requires
            self.wf(),
        ensures
            manager@ == self@.registry,
            manager.wf(),
    {
        &self.artifact_manager
    }

    /// The gossip layer, for readers.
    pub fn gossip(&self) -> (gossip: &Gossip)
        ensures
            gossip@ == self@.gossip,
    {
        &self.gossip
    }

    /// The lifecycle, for readers.
    pub fn lifecycle(&self) -> (lifecycle: &Lifecycle)
        ensures
            lifecycle@ == self@.lifecycle,
    {
        &self.lifecycle
    }

    /// Connects a peer. Returns whether it was not connected before.
    pub fn add_peer(&mut self, peer: NodeId) -> (added: bool)
        requires
            old(self).wf(),
        ensures
            final(self).wf(),
            added == !old(self)@.gossip.peers.contains(peer),
            final(self)@ == (P2PView {
                gossip: GossipView {
                    peers: if added {
                        old(self)@.gossip.peers.push(peer)
                    } else {
                        old(self)@.gossip.peers
                    },
                    ..old(self)@.gossip
                },
                ..old(self)@
            }),
    {
        self.gossip.add_peer(peer)
    }

    /// Disconnects a peer.
    pub fn remove_peer(&mut self, peer: NodeId)
        requires
            old(self).wf(),
        ensures
            final(self).wf(),
            final(self)@ == (P2PView { gossip: old(self)@.gossip.remove_peer(peer), ..old(self)@ }),
    {
        self.gossip.remove_peer(peer)
    }

    /// The method asks for the timer task to be started in the background.
    /// Returns whether the caller is to start one: it is, unless a stop was
    /// requested.
    pub fn run(&mut self) -> (start: bool)
        requires
            old(self).wf(),
        ensures
            final(self).wf(),
            start == old(self)@.lifecycle.can_run(),
            final(self)@ == (P2PView { lifecycle: old(self)@.lifecycle.run(), ..old(self)@ }),
    {
        self.lifecycle.run()
    }

    /// What a timer task does next: sleep for the timer's duration and
    /// tick while the lifecycle is running, exit as soon as it is not.
    pub fn next_action(&self) -> (action: TimerAction)
        ensures
            self@.lifecycle.ticking() ==> action == TimerAction::SleepThenTick(
                P2P_TIMER_DURATION_MS,
            ),
            !self@.lifecycle.ticking() ==> action == TimerAction::Exit,
    {
        self.lifecycle.next_action()
    }

    /// A tick of the timer at `now`, in milliseconds: the maintenance of
    /// the gossip layer. Returns the requests made anew. After a stop was
    /// requested a tick does nothing.
    pub fn on_timer(&mut self, now: u64) -> (retries: Vec<Request>)
        requires
            old(self).wf(),
        ensures
            final(self).wf(),
            final(self)@ == old(self)@.on_timer(now),
            old(self)@.lifecycle.ticking() ==> views(retries@) == old(self)@.gossip.timer_retries(
                now,
            ),
            !old(self)@.lifecycle.ticking() ==> retries@.len() == 0,
    {
        match self.lifecycle.state() {
            RunState::Running => self.gossip.on_timer(now),
            _ => Vec::new(),
        }
    }

    /// Requests the stop: the timer tasks are to exit. Returns how many of
    /// them the caller is to join. If there is none the runner is stopped
    /// at once, and the gossip layer with it.
    pub fn request_stop(&mut self) -> (to_join: usize)
        requires
            old(self).wf(),
        ensures
            final(self).wf(),
            final(self)@ == old(self)@.request_stop(),
            to_join == old(self)@.lifecycle.tasks,
    {
        let to_join = self.lifecycle.request_stop();
        match self.lifecycle.state() {
            RunState::Stopped => {
                self.gossip.stop();
            },
            _ => {},
        }
        to_join
    }

    /// Takes note that a timer task was joined. With the last one the
    /// runner is stopped, and the gossip layer with it. Returns whether the
    /// runner is stopped now.
    pub fn task_exited(&mut self) -> (stopped: bool)
        requires
            old(self).wf(),
        ensures
            final(self).wf(),
            final(self)@ == old(self)@.task_exited(),
            stopped == (final(self)@.lifecycle.state is Stopped),
    {
        let stopped = self.lifecycle.task_exited();
        if stopped {
            self.gossip.stop();
        }
        assert(self@.gossip =~= old(self)@.gossip_after(self@.lifecycle));
        stopped
    }

    /// Submits a shutdown to the processor manager of every kind that is
    /// still open.
    pub fn shutdown_processors(&mut self)
        requires
            old(self).wf(),
        ensures
            final(self).wf(),
            final(self)@ == (P2PView { registry: shut_down(old(self)@.registry), ..old(self)@ }),
    {
        self.artifact_manager.shutdown_all();
    }

    /// Submits an input to the processor manager of the kind `tag`: an
    /// advert for the kind's processor, a tick, a shutdown. Fails with
    /// `UnknownTag` if no kind is registered for the tag and with `Closed`
    /// if the kind was shut down; then nothing changes. Otherwise the input
    /// is queued with that kind, and nothing else changes.
    pub fn submit(&mut self, tag: ArtifactTag, input: ProcessorInput) -> (result: Result<
        (),
        DispatchError,
    >)
        requires
            old(self).wf(),
        ensures
            final(self).wf(),
            !old(self)@.registry.dom().contains(tag) ==> result == Err::<(), DispatchError>(
                DispatchError::UnknownTag,
            ) && final(self)@ == old(self)@,
            old(self)@.registry.dom().contains(tag) && old(self)@.registry[tag].closed ==> result
                == Err::<(), DispatchError>(DispatchError::Closed) && final(self)@ == old(self)@,
            old(self)@.registry.dom().contains(tag) && !old(self)@.registry[tag].closed
                ==> result.is_ok() && final(self)@ == (P2PView {
                registry: old(self)@.registry.insert(
                    tag,
                    old(self)@.registry[tag].submit(input@),
                ),
                ..old(self)@
            }),
    {
        self.artifact_manager.submit(tag, input)
    }

    /// Removes the identifier from the pool of the kind `tag`, whichever
    /// partition holds it, and says whether the pool held it. Fails with
    /// `UnknownTag` if no kind is registered for the tag and with `Closed`
    /// if the kind was shut down; then nothing changes. Nothing but that
    /// pool changes.
    pub fn on_purge(&mut self, tag: ArtifactTag, id: &String) -> (result: Result<
        bool,
        DispatchError,
    >)
        requires
            old(self).wf(),
        ensures
            final(self).wf(),
            !old(self)@.registry.dom().contains(tag) ==> result == Err::<bool, DispatchError>(
                DispatchError::UnknownTag,
            ) && final(self)@ == old(self)@,
            old(self)@.registry.dom().contains(tag) && old(self)@.registry[tag].closed ==> result
                == Err::<bool, DispatchError>(DispatchError::Closed) && final(self)@ == old(
                self)@,
            old(self)@.registry.dom().contains(tag) && !old(self)@.registry[tag].closed ==> result
                == Ok::<bool, DispatchError>(old(self)@.registry[tag].pool.contains(id@)) && final(
                self)@ == (P2PView {
                registry: old(self)@.registry.insert(tag, old(self)@.registry[tag].purge(id@)),
                ..old(self)@
            }),
    {
        self.artifact_manager.on_purge(tag, id)
    }

    /// Gives up what waits with the kind `tag`, where draining takes longer
    /// than the owner allows: the kind's queue is emptied, the kind is
    /// closed and its loop has exited. Returns how many inputs were
    /// dropped. Fails with `UnknownTag`, and changes nothing, if no kind is
    /// registered for the tag. Nothing but that kind changes.
    pub fn abandon(&mut self, tag: ArtifactTag) -> (result: Result<usize, DispatchError>)
        requires
            old(self).wf(),
        ensures
            final(self).wf(),
            !old(self)@.registry.dom().contains(tag) ==> result == Err::<usize, DispatchError>(
                DispatchError::UnknownTag,
            ) && final(self)@ == old(self)@,
            old(self)@.registry.dom().contains(tag) ==> result == Ok::<usize, DispatchError>(
                old(self)@.registry[tag].queue.len() as usize,
            ) && final(self)@ == (P2PView {
                registry: old(self)@.registry.insert(tag, old(self)@.registry[tag].abandon()),
                ..old(self)@
            }),
    {
        self.artifact_manager.abandon(tag)
    }

    /// Hears the advert of a peer for an artifact of the kind `tag`, at
    /// time `now` in milliseconds, and returns the request to send, if the
    /// artifact is to be requested. Fails with `UnknownTag`, and changes
    /// nothing, if no kind is registered for the tag.
    ///
    /// The artifact counts as known if the kind's pool holds its
    /// identifier.
    pub fn on_advert(&mut self, tag: ArtifactTag, advert: &Advert, peer: NodeId, now: u64) -> (result:
        Result<Option<Request>, DispatchError>)
        requires
            old(self).wf(),
        ensures
            final(self).wf(),
            !old(self)@.registry.dom().contains(tag) ==> (result matches Err(e) && e
                == DispatchError::UnknownTag) && final(self)@ == old(self)@,
            old(self)@.registry.dom().contains(tag) ==> (result matches Ok(request) && {
                let known = old(self)@.registry[tag].pool.contains(advert@.id);
                &&& final(self)@ == (P2PView {
                    gossip: old(self)@.gossip.on_advert(tag, advert@, peer, known, now),
                    ..old(self)@
                })
                &&& request.is_some() == old(self)@.gossip.advert_request(
                    tag,
                    advert@,
                    peer,
                    known,
                    now,
                ).is_some()
                &&& request matches Some(r) ==> Some(r@) == old(self)@.gossip.advert_request(
                    tag,
                    advert@,
                    peer,
                    known,
                    now,
                )
            }),
    {
        if !self.artifact_manager.is_registered(tag) {
            return Err(DispatchError::UnknownTag);
        }
        let known = self.artifact_manager.has_artifact(tag, &advert.id);
        Ok(self.gossip.on_advert(tag, advert, peer, known, now))
    }

    /// Takes in an artifact of the kind `tag` that `peer` delivered, and
    /// routes it to the kind's processor manager. Returns whether it was
    /// routed: it is not after the gossip layer was stopped. Fails with
    /// `UnknownTag` if no kind is registered for the tag and with `Closed`
    /// if the kind was shut down. Unless the artifact is routed nothing
    /// changes.
    pub fn on_artifact(&mut self, tag: ArtifactTag, message: Artifact, peer: NodeId) -> (result:
        Result<bool, DispatchError>)
        requires
            old(self).wf(),
        ensures
            final(self).wf(),
            !old(self)@.registry.dom().contains(tag) ==> result == Err::<bool, DispatchError>(
                DispatchError::UnknownTag,
            ) && final(self)@ == old(self)@,
            old(self)@.registry.dom().contains(tag) && old(self)@.registry[tag].closed ==> result
                == Err::<bool, DispatchError>(DispatchError::Closed) && final(self)@ == old(self)@,
            old(self)@.registry.dom().contains(tag) && !old(self)@.registry[tag].closed && old(
                self)@.gossip.stopped ==> result == Ok::<bool, DispatchError>(false) && final(
                self)@ == old(self)@,
            old(self)@.registry.dom().contains(tag) && !old(self)@.registry[tag].closed && !old(
                self)@.gossip.stopped ==> result == Ok::<bool, DispatchError>(true) && final(self)@
                == (P2PView {
                registry: old(self)@.registry.insert(
                    tag,
                    old(self)@.registry[tag].submit(InputView::NewArtifact(message@, peer)),
                ),
                gossip: old(self)@.gossip.on_artifact(tag, message@.id, peer),
                ..old(self)@
            }),
    {
        let closed = match self.artifact_manager.client(tag) {
            None => {
                return Err(DispatchError::UnknownTag);
            },
            Some(client) => client.is_closed(),
        };
        if closed {
            return Err(DispatchError::Closed);
        }
        if self.gossip.is_stopped() {
            return Ok(false);
        }
        let _ = self.gossip.on_artifact(tag, &message.id, peer);
        let _ = self.artifact_manager.on_artifact(tag, message, peer);
        Ok(true)
    }

    /// Runs one pass of the kind `tag` and disseminates what it produced:
    /// each advert goes to every connected peer but the one that delivered
    /// the artifact, and what was purged or rejected is forgotten. Fails
    /// with `UnknownTag`, and changes nothing, if no kind is registered for
    /// the tag; returns `None`, and changes nothing, if the kind has
    /// nothing to process. No other kind is touched.
    pub fn process(&mut self, tag: ArtifactTag) -> (result: Result<
        Option<Dissemination>,
        DispatchError,
    >)
        requires
            old(self).wf(),
        ensures
            final(self).wf(),
            final(self)@.lifecycle == old(self)@.lifecycle,
            final(self).spec_node_id() == old(self).spec_node_id(),
            final(self).spec_gossip_config() == old(self).spec_gossip_config(),
            final(self).spec_flow_tags() == old(self).spec_flow_tags(),
            !old(self)@.registry.dom().contains(tag) ==> (result matches Err(e) && e
                == DispatchError::UnknownTag) && final(self)@ == old(self)@,
            old(self)@.registry.dom().contains(tag) && !old(self)@.registry[tag].can_begin() ==> (
            result matches Ok(None)) && final(self)@ == old(self)@,
            old(self)@.registry.dom().contains(tag) && old(self)@.registry[tag].can_begin() ==> (
            result matches Ok(Some(d)) && {
                &&& final(self)@.registry.dom() == old(self)@.registry.dom()
                &&& forall|other: ArtifactTag|
                    other != tag && old(self)@.registry.dom().contains(other) ==> #[trigger] final(
                        self)@.registry[other] == old(self)@.registry[other]
                &&& final(self)@.gossip == old(self)@.gossip.disseminate(tag, d.report@)
                &&& views(d.sends@) == old(self)@.gossip.sends(tag, d.report@.adverts)
                &&& exists|outcome: OutcomeView|
                    final(self)@.registry[tag] == #[trigger] old(self)@.registry[tag].pass(outcome)
                        && d.report@ == old(self)@.registry[tag].pass_report(outcome)
            }),
    {
        match self.artifact_manager.step(tag) {
            Err(_) => Err(DispatchError::UnknownTag),
            Ok(None) => Ok(None),
            Ok(Some(report)) => {
                let sends = self.gossip.on_pass_report(tag, &report);
                Ok(Some(Dissemination { report, sends }))
            },
        }
    }
}

/// Why an ingress message was not admitted.
#[derive(Clone, Copy, Debug, PartialEq, Eq, Structural)]
pub enum IngressError {
    /// Too many ingress artifacts wait already.
    Throttled,
    /// No ingress kind is registered.
    UnknownTag,
    /// The ingress kind was shut down.
    Closed,
}

/// The entry for ingress messages that users send to this node. It admits
/// a message only while the throttler lets it.
#[derive(Clone, Copy, Debug)]
pub struct IngressEventHandler {
    pub throttler: IngressThrottler,
    pub node_id: NodeId,
}

impl IngressEventHandler {
    /// The handler of the node `node_id` behind `throttler`.
    pub fn new(throttler: IngressThrottler, node_id: NodeId) -> (handler: IngressEventHandler)
        ensures
            handler.throttler == throttler,
            handler.node_id == node_id,
    {
        IngressEventHandler { throttler, node_id }
    }

    /// Admits an ingress message and routes it to the ingress kind, as an
    /// artifact that this node delivered. The message is refused with
    /// `Throttled` while the artifacts that wait, in the queue of the
    /// ingress kind and unvalidated in its pool, have reached the
    /// throttler's capacity. Unless the message is admitted nothing
    /// changes.
    pub fn on_ingress_message<F: ProcessorFactory>(&self, p2p: &mut P2P<F>, message: Artifact) -> (result:
        Result<(), IngressError>)
        requires
            old(p2p).wf(),
        ensures
            final(p2p).wf(),
            ({
                let registry = old(p2p)@.registry;
                let tag = ArtifactTag::IngressArtifact;
                if !registry.dom().contains(tag) {
                    result == Err::<(), IngressError>(IngressError::UnknownTag) && final(p2p)@
                        == old(p2p)@
                } else if self.throttler.saturated(
                    registry[tag].queue.len(),
                    registry[tag].pool.unvalidated.len(),
                ) {
                    result == Err::<(), IngressError>(IngressError::Throttled) && final(p2p)@
                        == old(p2p)@
                } else if registry[tag].closed {
                    result == Err::<(), IngressError>(IngressError::Closed) && final(p2p)@ == old(
                        p2p)@
                } else {
                    result.is_ok() && final(p2p)@ == (P2PView {
                        registry: registry.insert(
                            tag,
                            registry[tag].submit(InputView::NewArtifact(message@, self.node_id)),
                        ),
                        ..old(p2p)@
                    })
                }
            }),
    {
        let tag = ArtifactTag::IngressArtifact;
        let admitted = match p2p.artifact_manager.client(tag) {
            None => {
                return Err(IngressError::UnknownTag);
            },
            Some(client) => self.throttler.admits(client.pending(), client.pool().unvalidated_len()),
        };
        if !admitted {
            return Err(IngressError::Throttled);
        }
        match p2p.artifact_manager.on_artifact(tag, message, self.node_id) {
            Ok(()) => Ok(()),
            Err(_) => Err(IngressError::Closed),
        }
    }
}

} // verus!
