//! The registry of artifact kinds: one processor manager per tag, and the
//! dispatch of artifacts, adverts and removals to the kind that a tag names.

use crate::artifact::Advert;
use crate::artifact::ArtifactTag;
use crate::artifact::NodeId;
use crate::artifact::TAG_COUNT;
use crate::pool::Artifact;
use crate::processor::ArtifactProcessorManager;
use crate::processor::InputView;
use crate::processor::ManagerView;
use crate::processor::OutcomeView;
use crate::processor::PassReport;
use crate::processor::ProcessorFactory;
use crate::processor::ProcessorInput;
use vstd::prelude::*;

verus! {

/// Why a dispatch failed.
#[derive(Clone, Copy, Debug, PartialEq, Eq, Structural)]
pub enum DispatchError {
    /// No kind is registered for the tag.
    UnknownTag,
    /// The kind's processor manager was shut down.
    Closed,
    /// A kind is already registered for the tag.
    AlreadyRegistered,
}

/// The registry as a mathematical value: the state of the processor manager
/// of each registered tag.
pub type RegistryView = Map<ArtifactTag, ManagerView>;

/// Maps each registered tag to the processor manager of its kind, and
/// routes by tag. Each manager is addressed by exactly one tag.
pub struct ArtifactManager<F: ProcessorFactory> {
    slots: Vec<Option<ArtifactProcessorManager<F>>>,
}

impl<F: ProcessorFactory> View for ArtifactManager<F> {
    type V = RegistryView;

    closed spec fn view(&self) -> RegistryView {
        Map::new(
            |tag: ArtifactTag| self.slots@[tag.spec_index() as int].is_some(),
            |tag: ArtifactTag| self.slots@[tag.spec_index() as int].unwrap()@,
        )
    }
}

/// The registry in which every open manager got a `Shutdown` and the closed
/// ones are as they were.
pub open spec fn shut_down(registry: RegistryView) -> RegistryView {
    Map::new(
        |tag: ArtifactTag| registry.dom().contains(tag),
        |tag: ArtifactTag|
            if registry[tag].closed {
                registry[tag]
            } else {
                registry[tag].submit(InputView::Shutdown)
            },
    )
}

/// Shutting down is idempotent: a second shutdown changes nothing.
pub proof fn lemma_shut_down_idempotent(registry: RegistryView)
    ensures
        shut_down(shut_down(registry)) == shut_down(registry),
        shut_down(registry).dom() == registry.dom(),
        forall|tag: ArtifactTag|
            registry.dom().contains(tag) ==> (#[trigger] shut_down(registry)[tag]).closed,
{
    assert(shut_down(registry).dom() =~= registry.dom());
    assert(shut_down(shut_down(registry)) =~= shut_down(registry));
}

impl<F: ProcessorFactory> ArtifactManager<F> {
    /// The registry's invariant: every registered manager is well formed.
    pub closed spec fn wf(&self) -> bool {
        &&& self.slots@.len() == TAG_COUNT
        &&& forall|i: int|
            0 <= i < self.slots@.len() && (#[trigger] self.slots@[i]).is_some()
                ==> self.slots@[i].unwrap().wf()
    }

    /// In a well-formed registry every registered manager is well formed.
    pub proof fn lemma_wf_managers(&self, tag: ArtifactTag)
        requires
            self.wf(),
            self@.dom().contains(tag),
        ensures
            self@[tag].wf(),
    {
        ArtifactTag::lemma_index_bijection(tag, 0);
        assert(self.slots@[tag.spec_index() as int].is_some());
        self.slots@[tag.spec_index() as int].unwrap().lemma_wf();
    }

    /// A registry without kinds.
    pub fn new() -> (manager: Self)
        ensures
            manager.wf(),
            manager@ == Map::<ArtifactTag, ManagerView>::empty(),
    {
        let mut slots: Vec<Option<ArtifactProcessorManager<F>>> = Vec::new();
        let mut i: usize = 0;
        while i < TAG_COUNT
            invariant
                i <= TAG_COUNT,
                slots@.len() == i,
                forall|k: int| 0 <= k < i ==> (#[trigger] slots@[k]).is_none(),
            decreases TAG_COUNT - i,
        {
            slots.push(None);
            i += 1;
        }
        let manager = ArtifactManager { slots };
        proof {
            assert forall|tag: ArtifactTag| !manager@.dom().contains(tag) by {
                ArtifactTag::lemma_index_bijection(tag, 0);
            }
            assert(manager@ =~= Map::<ArtifactTag, ManagerView>::empty());
        }
        manager
    }

    /// Whether a kind is registered for the tag.
    pub fn is_registered(&self, tag: ArtifactTag) -> (b: bool)
        requires
            self.wf(),
        ensures
            b == self@.dom().contains(tag),
    {
        self.slots[tag.index()].is_some()
    }

    /// The processor manager of the tag's kind, for readers.
    pub fn client(&self, tag: ArtifactTag) -> (client: Option<&ArtifactProcessorManager<F>>)
        requires
            self.wf(),
        ensures
            client.is_some() == self@.dom().contains(tag),
            client matches Some(m) ==> m@ == self@[tag] && m.wf(),
    {
        self.slots[tag.index()].as_ref()
    }

    /// Registers the processor manager of a kind under the kind's tag. A
    /// tag can be registered once: a second registration fails with
    /// `AlreadyRegistered` and changes nothing.
    pub fn register(&mut self, tag: ArtifactTag, client: ArtifactProcessorManager<F>) -> (result:
        Result<(), DispatchError>)
        requires
            old(self).wf(),
            client.wf(),
        ensures
            final(self).wf(),
            old(self)@.dom().contains(tag) ==> result == Err::<(), DispatchError>(
                DispatchError::AlreadyRegistered,
            ) && final(self)@ == old(self)@,
            !old(self)@.dom().contains(tag) ==> result.is_ok() && final(self)@ == old(
                self)@.insert(tag, client@),
    {
        let idx = tag.index();
        if self.slots[idx].is_some() {
            return Err(DispatchError::AlreadyRegistered);
        }
        self.slots[idx] = Some(client);
        proof {
            Self::lemma_slot_updated(old(self).slots@, self.slots@, tag);
            assert(self@ =~= old(self)@.insert(tag, client@));
        }
        Ok(())
    }

    /// Where only the slot of `tag` differs between two registries, every
    /// other tag has the slot that it had.
    proof fn lemma_slot_updated(
        before: Seq<Option<ArtifactProcessorManager<F>>>,
        after: Seq<Option<ArtifactProcessorManager<F>>>,
        tag: ArtifactTag,
    )
        requires
            before.len() == TAG_COUNT,
            after.len() == TAG_COUNT,
            forall|i: int|
                0 <= i < TAG_COUNT && i != tag.spec_index() ==> #[trigger] after[i] == before[i],
        ensures
            forall|other: ArtifactTag|
                other != tag ==> after[(#[trigger] other.spec_index()) as int]
                    == before[other.spec_index() as int],
    {
        assert forall|other: ArtifactTag| other != tag implies after[(
        #[trigger] other.spec_index()) as int] == before[other.spec_index() as int] by {
            ArtifactTag::lemma_index_bijection(other, 0);
            ArtifactTag::lemma_index_bijection(tag, 0);
        }
    }

    /// Submits an input to the processor manager of the tag's kind. Fails
    /// with `UnknownTag` if no kind is registered for the tag and with
    /// `Closed` if the kind was shut down; then nothing changes. Otherwise
    /// the input is queued with that kind, and no other kind is touched.
    pub fn submit(&mut self, tag: ArtifactTag, input: ProcessorInput) -> (result: Result<
        (),
        DispatchError,
    >)
        requires
            old(self).wf(),
        ensures
            final(self).wf(),
            !old(self)@.dom().contains(tag) ==> result == Err::<(), DispatchError>(
                DispatchError::UnknownTag,
            ) && final(self)@ == old(self)@,
            old(self)@.dom().contains(tag) && old(self)@[tag].closed ==> result == Err::<
                (),
                DispatchError,
            >(DispatchError::Closed) && final(self)@ == old(self)@,
            old(self)@.dom().contains(tag) && !old(self)@[tag].closed ==> result.is_ok() && final(
                self)@ == old(self)@.insert(tag, old(self)@[tag].submit(input@)),
    {
        let idx = tag.index();
        let slot = self.slots[idx].take();
        match slot {
            None => {
                self.slots[idx] = None;
                proof {
                    assert(self.slots@ =~= old(self).slots@);
                }
                Err(DispatchError::UnknownTag)
            },
            Some(mut client) => {
                let ghost before = client@;
                let submitted = client.submit(input);
                self.slots[idx] = Some(client);
                proof {
                    Self::lemma_slot_updated(old(self).slots@, self.slots@, tag);
                    if before.closed {
                        assert(self@ =~= old(self)@);
                    } else {
                        assert(self@ =~= old(self)@.insert(tag, before.submit(input@)));
                    }
                }
                match submitted {
                    Ok(()) => Ok(()),
                    Err(_) => Err(DispatchError::Closed),
                }
            },
        }
    }

    /// Routes an artifact that arrived from `peer` to the kind that `tag`
    /// names.
    pub fn on_artifact(&mut self, tag: ArtifactTag, message: Artifact, peer: NodeId) -> (result:
        Result<(), DispatchError>)
        requires
            old(self).wf(),
        ensures
            final(self).wf(),
            !old(self)@.dom().contains(tag) ==> result == Err::<(), DispatchError>(
                DispatchError::UnknownTag,
            ) && final(self)@ == old(self)@,
            old(self)@.dom().contains(tag) && old(self)@[tag].closed ==> result == Err::<
                (),
                DispatchError,
            >(DispatchError::Closed) && final(self)@ == old(self)@,
            old(self)@.dom().contains(tag) && !old(self)@[tag].closed ==> result.is_ok() && final(
                self)@ == old(self)@.insert(
                tag,
                old(self)@[tag].submit(InputView::NewArtifact(message@, peer)),
            ),
    {
        self.submit(tag, ProcessorInput::NewArtifact(message, peer))
    }

    /// Routes an advert that `peer` sent to the kind that `tag` names.
    pub fn on_advert(&mut self, tag: ArtifactTag, advert: Advert, peer: NodeId) -> (result: Result<
        (),
        DispatchError,
    >)
        requires
            old(self).wf(),
        ensures
            final(self).wf(),
            !old(self)@.dom().contains(tag) ==> result == Err::<(), DispatchError>(
                DispatchError::UnknownTag,
            ) && final(self)@ == old(self)@,
            old(self)@.dom().contains(tag) && old(self)@[tag].closed ==> result == Err::<
                (),
                DispatchError,
            >(DispatchError::Closed) && final(self)@ == old(self)@,
            old(self)@.dom().contains(tag) && !old(self)@[tag].closed ==> result.is_ok() && final(
                self)@ == old(self)@.insert(
                tag,
                old(self)@[tag].submit(InputView::AdvertReceived(advert@, peer)),
            ),
    {
        self.submit(tag, ProcessorInput::AdvertReceived(advert, peer))
    }

    /// Whether the pool of the tag's kind holds the identifier. No pool
    /// holds anything for a tag that is not registered.
    pub fn has_artifact(&self, tag: ArtifactTag, id: &String) -> (b: bool)
        requires
            self.wf(),
        ensures
            b == (self@.dom().contains(tag) && self@[tag].pool.contains(id@)),
    {
        match &self.slots[tag.index()] {
            Some(client) => client.pool().contains(id),
            None => false,
        }
    }

    /// Runs one pass of the tag's kind: see `ArtifactProcessorManager::step`.
    /// Fails with `UnknownTag`, and changes nothing, if no kind is
    /// registered for the tag. No other kind is touched.
    pub fn step(&mut self, tag: ArtifactTag) -> (result: Result<Option<PassReport>, DispatchError>)
        requires
            old(self).wf(),
        ensures
            final(self).wf(),
            !old(self)@.dom().contains(tag) ==> result == Err::<
                Option<PassReport>,
                DispatchError,
            >(DispatchError::UnknownTag) && final(self)@ == old(self)@,
            old(self)@.dom().contains(tag) ==> result.is_ok() && final(self)@.dom() == old(
                self)@.dom() && forall|other: ArtifactTag|
                other != tag && old(self)@.dom().contains(other) ==> #[trigger] final(
                    self)@[other] == old(self)@[other],
            old(self)@.dom().contains(tag) && !old(self)@[tag].can_begin() ==> result
                == Ok::<Option<PassReport>, DispatchError>(None) && final(self)@ == old(self)@,
            old(self)@.dom().contains(tag) && old(self)@[tag].can_begin() ==> result.unwrap().is_some()
                && exists|outcome: OutcomeView|
                final(self)@[tag] == #[trigger] old(self)@[tag].pass(outcome)
                    && result.unwrap().unwrap()@ == old(self)@[tag].pass_report(outcome),
    {
        let idx = tag.index();
        let slot = self.slots[idx].take();
        match slot {
            None => {
                self.slots[idx] = None;
                proof {
                    assert(self.slots@ =~= old(self).slots@);
                }
                Err(DispatchError::UnknownTag)
            },
            Some(mut client) => {
                let ghost before = client@;
                let report = client.step();
                let ghost after = client@;
                self.slots[idx] = Some(client);
                proof {
                    Self::lemma_slot_updated(old(self).slots@, self.slots@, tag);
                    assert(self@.dom() =~= old(self)@.dom());
                    assert(self@[tag] == after);
                    if !before.can_begin() {
                        assert(self@ =~= old(self)@);
                    }
                }
                Ok(report)
            },
        }
    }

    /// Removes the identifier from the pool of the tag's kind, whichever
    /// partition holds it, and says whether the pool held it. Fails with
    /// `UnknownTag` if no kind is registered for the tag and with `Closed`
    /// if the kind was shut down; then nothing changes.
    pub fn on_purge(&mut self, tag: ArtifactTag, id: &String) -> (result: Result<
        bool,
        DispatchError,
    >)
        requires
            old(self).wf(),
        ensures
            final(self).wf(),
            !old(self)@.dom().contains(tag) ==> result == Err::<bool, DispatchError>(
                DispatchError::UnknownTag,
            ) && final(self)@ == old(self)@,
            old(self)@.dom().contains(tag) && old(self)@[tag].closed ==> result == Err::<
                bool,
                DispatchError,
            >(DispatchError::Closed) && final(self)@ == old(self)@,
            old(self)@.dom().contains(tag) && !old(self)@[tag].closed ==> result == Ok::<
                bool,
                DispatchError,
            >(old(self)@[tag].pool.contains(id@)) && final(self)@ == old(self)@.insert(
                tag,
                old(self)@[tag].purge(id@),
            ),
    {
        let idx = tag.index();
        let slot = self.slots[idx].take();
        match slot {
            None => {
                self.slots[idx] = None;
                proof {
                    assert(self.slots@ =~= old(self).slots@);
                }
                Err(DispatchError::UnknownTag)
            },
            Some(mut client) => {
                let ghost before = client@;
                let purged = client.purge(id);
                self.slots[idx] = Some(client);
                proof {
                    Self::lemma_slot_updated(old(self).slots@, self.slots@, tag);
                    if before.closed {
                        assert(self@ =~= old(self)@);
                    } else {
                        assert(self@ =~= old(self)@.insert(tag, before.purge(id@)));
                    }
                }
                match purged {
                    Ok(held) => Ok(held),
                    Err(_) => Err(DispatchError::Closed),
                }
            },
        }
    }

    /// Gives up what waits with the tag's kind, where draining takes longer
    /// than the owner allows: see `ArtifactProcessorManager::abandon`.
    /// Returns how many inputs were dropped. Fails with `UnknownTag`, and
    /// changes nothing, if no kind is registered for the tag. No other kind
    /// is touched.
    pub fn abandon(&mut self, tag: ArtifactTag) -> (result: Result<usize, DispatchError>)
        requires
            old(self).wf(),
        ensures
            final(self).wf(),
            !old(self)@.dom().contains(tag) ==> result == Err::<usize, DispatchError>(
                DispatchError::UnknownTag,
            ) && final(self)@ == old(self)@,
            old(self)@.dom().contains(tag) ==> result == Ok::<usize, DispatchError>(
                old(self)@[tag].queue.len() as usize,
            ) && final(self)@ == old(self)@.insert(tag, old(self)@[tag].abandon()),
    {
        let idx = tag.index();
        let slot = self.slots[idx].take();
        match slot {
            None => {
                self.slots[idx] = None;
                proof {
                    assert(self.slots@ =~= old(self).slots@);
                }
                Err(DispatchError::UnknownTag)
            },
            Some(mut client) => {
                let ghost before = client@;
                let dropped = client.abandon();
                self.slots[idx] = Some(client);
                proof {
                    Self::lemma_slot_updated(old(self).slots@, self.slots@, tag);
                    assert(self@ =~= old(self)@.insert(tag, before.abandon()));
                }
                Ok(dropped)
            },
        }
    }

    /// Submits a `Shutdown` to every kind that is still open. Kinds that
    /// were shut down before are left as they are, so that a second call
    /// changes nothing.
    pub fn shutdown_all(&mut self)
        requires
            old(self).wf(),
        ensures
            final(self).wf(),
            final(self)@ == shut_down(old(self)@),
    {
        let mut i: usize = 0;
        while i < TAG_COUNT
            invariant
                i <= TAG_COUNT,
                self.wf(),
                self@.dom() == old(self)@.dom(),
                forall|tag: ArtifactTag|
                    old(self)@.dom().contains(tag) && tag.spec_index() < i ==> #[trigger] self@[tag]
                        == shut_down(old(self)@)[tag],
                forall|tag: ArtifactTag|
                    old(self)@.dom().contains(tag) && tag.spec_index() >= i
                        ==> #[trigger] self@[tag] == old(self)@[tag],
            decreases TAG_COUNT - i,
        {
            let ghost before = self@;
            let tag = ArtifactTag::from_index(i).unwrap();
            proof {
                ArtifactTag::lemma_index_bijection(tag, i as nat);
            }
            let _ = self.submit(tag, ProcessorInput::Shutdown);
            proof {
                assert(self@.dom() =~= before.dom());
                assert forall|other: ArtifactTag|
                    old(self)@.dom().contains(other) && other.spec_index() < i + 1 implies (
                #[trigger] self@[other]) == shut_down(old(self)@)[other] by {
                    ArtifactTag::lemma_index_bijection(other, i as nat);
                }
                assert forall|other: ArtifactTag|
                    old(self)@.dom().contains(other) && other.spec_index() >= i + 1 implies (
                #[trigger] self@[other]) == old(self)@[other] by {
                    ArtifactTag::lemma_index_bijection(other, i as nat);
                }
            }
            i += 1;
        }
        proof {
            assert forall|tag: ArtifactTag| old(self)@.dom().contains(tag) implies (
            #[trigger] self@[tag]) == shut_down(old(self)@)[tag] by {
                ArtifactTag::lemma_index_bijection(tag, 0);
            }
            assert(self@ =~= shut_down(old(self)@));
        }
    }
}

} // verus!
