//! The per-kind processor and the manager that serialises its work: one
//! queue of inputs in order of submission, at most one processing pass at a
//! time, and a shutdown that drains the queue before the loop exits.

use crate::artifact::views;
use crate::artifact::Advert;
use crate::artifact::AdvertView;
use crate::artifact::NodeId;
use crate::pool::Artifact;
use crate::pool::ArtifactPool;
use crate::pool::ArtifactView;
use crate::pool::Mutation;
use crate::pool::MutationView;
use crate::pool::PoolView;
use vstd::prelude::*;

verus! {

/// An input of a processor manager, as a mathematical value.
pub ghost enum InputView {
    NewArtifact(ArtifactView, NodeId),
    AdvertReceived(AdvertView, NodeId),
    TimerTick,
    Shutdown,
}

/// What can be submitted to a processor manager.
#[derive(Debug)]
pub enum ProcessorInput {
    /// An artifact arrived from the given peer.
    NewArtifact(Artifact, NodeId),
    /// The given peer announced an artifact.
    AdvertReceived(Advert, NodeId),
    /// Time has passed: let the processor look at its pool again.
    TimerTick,
    /// Process what is queued, then exit.
    Shutdown,
}

impl View for ProcessorInput {
    type V = InputView;

    open spec fn view(&self) -> InputView {
        match self {
            ProcessorInput::NewArtifact(a, peer) => InputView::NewArtifact(a@, *peer),
            ProcessorInput::AdvertReceived(a, peer) => InputView::AdvertReceived(a@, *peer),
            ProcessorInput::TimerTick => InputView::TimerTick,
            ProcessorInput::Shutdown => InputView::Shutdown,
        }
    }
}

/// The result of one processing pass, as a mathematical value.
pub ghost struct ProcessOutputView {
    pub mutations: Seq<MutationView>,
    pub adverts: Seq<AdvertView>,
    pub purges: Seq<Seq<char>>,
}

/// What a processor decides in one pass: the mutations of its pool, the
/// adverts to broadcast and the identifiers that peers need no longer hear
/// of.
#[derive(Debug)]
pub struct ProcessOutput {
    pub mutations: Vec<Mutation>,
    pub adverts: Vec<Advert>,
    pub purges: Vec<String>,
}

impl View for ProcessOutput {
    type V = ProcessOutputView;

    open spec fn view(&self) -> ProcessOutputView {
        ProcessOutputView {
            mutations: views(self.mutations@),
            adverts: views(self.adverts@),
            purges: views(self.purges@),
        }
    }
}

/// What a processor hands back: its output, or the reason why it could not
/// process the input.
pub type Outcome = Result<ProcessOutput, String>;

/// An outcome as a mathematical value.
pub type OutcomeView = Result<ProcessOutputView, Seq<char>>;

/// The view of an outcome.
pub open spec fn outcome_view(outcome: Outcome) -> OutcomeView {
    match outcome {
        Ok(out) => Ok(out@),
        Err(reason) => Err(reason@),
    }
}

/// The pluggable algorithm of one artifact kind. It looks at the pool and
/// at the input that started the pass and decides what changes.
///
/// Nothing is assumed of what it returns: the manager handles every outcome.
pub trait ArtifactProcessor {
    /// One processing pass. The artifact of a `NewArtifact` input was
    /// stored in the pool as unvalidated before, unless the pool held its
    /// identifier already: then the pool holds the artifact that was there
    /// first, in the partition in which it was. A mutation names an
    /// identifier only, so a rejection of the input then removes the
    /// artifact that waited.
    fn process(&mut self, pool: &ArtifactPool, input: &ProcessorInput) -> (outcome: Outcome)
        requires
            pool.wf(),
    ;
}

/// Builds the processor of a kind. The manager calls `build` once, when
/// its first pass begins, and keeps the processor from then on: what is
/// expensive to set up is set up off the path that constructs the stack.
pub trait ProcessorFactory {
    type Processor: ArtifactProcessor;

    /// Builds the processor.
    fn build(self) -> Self::Processor;
}

/// The factory of a processor that exists already.
pub struct Ready<P: ArtifactProcessor>(pub P);

impl<P: ArtifactProcessor> ProcessorFactory for Ready<P> {
    type Processor = P;

    fn build(self) -> (processor: P)
        ensures
            processor == self.0,
    {
        self.0
    }
}

/// A diagnostic as a mathematical value.
pub ghost enum DiagnosticView {
    ValidationRejected { id: Seq<char>, reason: Seq<char> },
    ProcessingFailed { reason: Seq<char> },
}

/// What a pass records besides its effects. Neither halts the loop.
#[derive(Debug)]
pub enum Diagnostic {
    /// The kind's algorithm rejected the artifact; it was dropped.
    ValidationRejected { id: String, reason: String },
    /// The processor could not process the input.
    ProcessingFailed { reason: String },
}

impl View for Diagnostic {
    type V = DiagnosticView;

    open spec fn view(&self) -> DiagnosticView {
        match self {
            Diagnostic::ValidationRejected { id, reason } => DiagnosticView::ValidationRejected {
                id: id@,
                reason: reason@,
            },
            Diagnostic::ProcessingFailed { reason } => DiagnosticView::ProcessingFailed {
                reason: reason@,
            },
        }
    }
}

/// The rejections among a sequence of mutations, in order.
pub open spec fn rejections(ms: Seq<MutationView>) -> Seq<DiagnosticView>
    decreases ms.len(),
{
    if ms.len() == 0 {
        Seq::empty()
    } else {
        match ms.last() {
            MutationView::HandleInvalid(id, reason) => rejections(ms.drop_last()).push(
                DiagnosticView::ValidationRejected { id, reason },
            ),
            _ => rejections(ms.drop_last()),
        }
    }
}

/// The report of a pass, as a mathematical value.
pub ghost struct PassReportView {
    pub input: InputView,
    pub adverts: Seq<AdvertView>,
    pub purges: Seq<Seq<char>>,
    pub diagnostics: Seq<DiagnosticView>,
}

/// What one pass produced: the input it processed, the adverts to hand to
/// the broadcast callback, the purge directives and the diagnostics.
#[derive(Debug)]
pub struct PassReport {
    pub input: ProcessorInput,
    pub adverts: Vec<Advert>,
    pub purges: Vec<String>,
    pub diagnostics: Vec<Diagnostic>,
}

impl View for PassReport {
    type V = PassReportView;

    open spec fn view(&self) -> PassReportView {
        PassReportView {
            input: self.input@,
            adverts: views(self.adverts@),
            purges: views(self.purges@),
            diagnostics: views(self.diagnostics@),
        }
    }
}

/// The report of a pass over `input` that ended with `outcome`. A pass that
/// failed produces nothing but its diagnostic.
pub open spec fn report_of(input: InputView, outcome: OutcomeView) -> PassReportView {
    match outcome {
        Ok(out) => PassReportView {
            input,
            adverts: out.adverts,
            purges: out.purges,
            diagnostics: rejections(out.mutations),
        },
        Err(reason) => PassReportView {
            input,
            adverts: Seq::empty(),
            purges: Seq::empty(),
            diagnostics: seq![DiagnosticView::ProcessingFailed { reason }],
        },
    }
}

/// The report of the pass that takes a `Shutdown` off the queue.
pub open spec fn shutdown_report() -> PassReportView {
    PassReportView {
        input: InputView::Shutdown,
        adverts: Seq::empty(),
        purges: Seq::empty(),
        diagnostics: Seq::empty(),
    }
}

/// Why a submission was refused.
#[derive(Clone, Copy, Debug, PartialEq, Eq, Structural)]
pub enum SubmitError {
    /// A shutdown was submitted before: the manager accepts nothing more.
    Closed,
}

/// The state of a processor manager, as a mathematical value.
pub ghost struct ManagerView {
    /// The kind's pool.
    pub pool: PoolView,
    /// The inputs that wait, the oldest first.
    pub queue: Seq<InputView>,
    /// A pass has begun and has not been completed.
    pub active: bool,
    /// A shutdown was submitted.
    pub closed: bool,
    /// The loop has exited.
    pub exited: bool,
    /// The processor was built.
    pub started: bool,
}

impl ManagerView {
    /// The state's invariant: the pool is well formed; a shutdown is the
    /// last input of the queue, and is there or was processed exactly if
    /// the manager is closed; after the exit nothing waits or runs.
    pub open spec fn wf(self) -> bool {
        &&& self.pool.wf()
        &&& forall|i: int|
            0 <= i < self.queue.len() - 1 ==> !((#[trigger] self.queue[i]) is Shutdown)
        &&& self.closed <==> self.exited || (self.queue.len() > 0 && self.queue.last() is Shutdown)
        &&& self.exited ==> self.queue.len() == 0 && !self.active
    }

    /// The state of a manager that was just made over `pool`.
    pub open spec fn fresh(pool: PoolView) -> ManagerView {
        ManagerView {
            pool,
            queue: Seq::empty(),
            active: false,
            closed: false,
            exited: false,
            started: false,
        }
    }

    /// The state after `input` was submitted to an open manager.
    pub open spec fn submit(self, input: InputView) -> ManagerView {
        ManagerView { queue: self.queue.push(input), closed: input is Shutdown, ..self }
    }

    /// The state after the identifier was purged from the pool.
    pub open spec fn purge(self, id: Seq<char>) -> ManagerView {
        ManagerView { pool: self.pool.purge(id), ..self }
    }

    /// The state after what waited was given up.
    pub open spec fn abandon(self) -> ManagerView {
        ManagerView { queue: Seq::empty(), active: false, closed: true, exited: true, ..self }
    }

    /// Whether a pass can begin: none is active and an input waits.
    pub open spec fn can_begin(self) -> bool {
        !self.active && self.queue.len() > 0
    }

    /// The state after a pass began on the oldest input. The artifact of a
    /// `NewArtifact` is stored as unvalidated; a `Shutdown` ends the loop at
    /// once, with no pass left active.
    pub open spec fn begin(self) -> ManagerView {
        let rest = self.queue.drop_first();
        match self.queue[0] {
            InputView::NewArtifact(a, peer) => ManagerView {
                pool: self.pool.insert_unvalidated(a),
                queue: rest,
                active: true,
                ..self
            },
            InputView::Shutdown => ManagerView { queue: rest, exited: true, ..self },
            _ => ManagerView { queue: rest, active: true, ..self },
        }
    }

    /// The state after the active pass ended with `outcome`: the mutations
    /// of a successful pass are applied in order, a failed pass changes
    /// nothing.
    pub open spec fn complete(self, outcome: OutcomeView) -> ManagerView {
        ManagerView {
            pool: match outcome {
                Ok(out) => self.pool.apply_all(out.mutations),
                Err(_) => self.pool,
            },
            active: false,
            ..self
        }
    }

    /// The state after one whole pass over the oldest input, where the
    /// processor answered `outcome`. The processor is built before it is
    /// first asked.
    pub open spec fn pass(self, outcome: OutcomeView) -> ManagerView {
        if self.queue[0] is Shutdown {
            self.begin()
        } else {
            ManagerView { started: true, ..self.begin().complete(outcome) }
        }
    }

    /// The report of one whole pass over the oldest input.
    pub open spec fn pass_report(self, outcome: OutcomeView) -> PassReportView {
        if self.queue[0] is Shutdown {
            shutdown_report()
        } else {
            report_of(self.queue[0], outcome)
        }
    }

    /// The state after as many passes as `outcomes` has answers.
    pub open spec fn passes(self, outcomes: Seq<OutcomeView>) -> ManagerView
        decreases outcomes.len(),
    {
        if outcomes.len() == 0 {
            self
        } else {
            self.passes(outcomes.drop_last()).pass(outcomes.last())
        }
    }

    /// The reports of as many passes as `outcomes` has answers, in order.
    pub open spec fn pass_reports(self, outcomes: Seq<OutcomeView>) -> Seq<PassReportView>
        decreases outcomes.len(),
    {
        if outcomes.len() == 0 {
            Seq::empty()
        } else {
            self.pass_reports(outcomes.drop_last()).push(
                self.passes(outcomes.drop_last()).pass_report(outcomes.last()),
            )
        }
    }

    /// Passes take the inputs in the order of their submission, one input
    /// each and never two at a time: after as many passes as `outcomes` has
    /// answers, that many inputs have left the front of the queue, no pass
    /// is active, and the i-th report is that of the i-th input.
    pub proof fn lemma_passes_in_order(self, outcomes: Seq<OutcomeView>)
        requires
            self.wf(),
            !self.active,
            outcomes.len() <= self.queue.len(),
        ensures
            self.passes(outcomes).wf(),
            !self.passes(outcomes).active,
            self.passes(outcomes).queue == self.queue.skip(outcomes.len() as int),
            self.pass_reports(outcomes).len() == outcomes.len(),
            forall|i: int|
                0 <= i < outcomes.len() ==> (#[trigger] self.pass_reports(outcomes)[i]).input
                    == self.queue[i],
        decreases outcomes.len(),
    {
        if outcomes.len() == 0 {
            assert(self.queue.skip(0) =~= self.queue);
        } else {
            let prev = outcomes.drop_last();
            let n = prev.len() as int;
            self.lemma_passes_in_order(prev);
            let mid = self.passes(prev);
            assert(mid.queue[0] == self.queue[n]);
            mid.lemma_begin_wf();
            mid.begin().lemma_complete_wf(outcomes.last());
            assert(mid.queue.drop_first() =~= self.queue.skip(n + 1));
            let reports = self.pass_reports(outcomes);
            assert forall|i: int| 0 <= i < outcomes.len() implies (#[trigger] reports[i]).input
                == self.queue[i] by {
                if i < n {
                    assert(reports[i] == self.pass_reports(prev)[i]);
                }
            }
        }
    }

    /// An artifact that is submitted to an open manager with nothing to do
    /// reaches the pool exactly once: the next pass takes it off the queue,
    /// stores it as unvalidated unless the pool holds its identifier, and
    /// leaves nothing of it in the queue.
    pub proof fn lemma_artifact_reaches_pool_once(self, artifact: ArtifactView, peer: NodeId)
        requires
            self.wf(),
            !self.closed,
            !self.active,
            self.queue.len() == 0,
        ensures
            self.submit(InputView::NewArtifact(artifact, peer)).can_begin(),
            self.submit(InputView::NewArtifact(artifact, peer)).begin().queue.len() == 0,
            self.submit(InputView::NewArtifact(artifact, peer)).begin().pool
                == self.pool.insert_unvalidated(artifact),
            !self.pool.contains(artifact.id) ==> self.submit(
                InputView::NewArtifact(artifact, peer),
            ).begin().pool == (PoolView {
                unvalidated: self.pool.unvalidated.push(artifact),
                ..self.pool
            }),
    {
        let next = self.submit(InputView::NewArtifact(artifact, peer));
        assert(next.queue[0] == InputView::NewArtifact(artifact, peer));
    }

    /// An artifact that arrives and is rejected in its pass is dropped: the
    /// pass announces nothing, records the rejection, and leaves the pool
    /// as it was before the artifact arrived, with as many artifacts in
    /// either partition. This holds unless an artifact with the same
    /// identifier waited unvalidated already.
    pub proof fn lemma_rejected_artifact_is_dropped(
        self,
        artifact: ArtifactView,
        peer: NodeId,
        reason: Seq<char>,
    )
        requires
            self.wf(),
            self.can_begin(),
            self.queue[0] == InputView::NewArtifact(artifact, peer),
            !crate::pool::has_id(self.pool.unvalidated, artifact.id),
        ensures
            ({
                let outcome: OutcomeView = Ok(
                    ProcessOutputView {
                        mutations: seq![MutationView::HandleInvalid(artifact.id, reason)],
                        adverts: Seq::empty(),
                        purges: Seq::empty(),
                    },
                );
                &&& self.pass(outcome).pool == self.pool
                &&& self.pass_report(outcome).adverts.len() == 0
                &&& self.pass_report(outcome).diagnostics == seq![
                    DiagnosticView::ValidationRejected { id: artifact.id, reason },
                ]
            }),
    {
        let ms = seq![MutationView::HandleInvalid(artifact.id, reason)];
        let arrived = self.pool.insert_unvalidated(artifact);
        self.pool.lemma_rejected_arrival_leaves_pool(artifact, reason);
        assert(ms.drop_last() =~= Seq::<MutationView>::empty());
        assert(ms.last() == MutationView::HandleInvalid(artifact.id, reason));
        assert(arrived.apply_all(ms.drop_last()) == arrived);
        assert(arrived.apply_all(ms) == arrived.apply(ms.last()));
        assert(rejections(ms.drop_last()) =~= Seq::<DiagnosticView>::empty());
        assert(rejections(ms) =~= seq![
            DiagnosticView::ValidationRejected { id: artifact.id, reason },
        ]);
    }

    /// Submitting to an open manager keeps the invariant.
    pub proof fn lemma_submit_wf(self, input: InputView)
        requires
            self.wf(),
            !self.closed,
        ensures
            self.submit(input).wf(),
    {
        let next = self.submit(input);
        assert forall|i: int| 0 <= i < next.queue.len() - 1 implies !((
        #[trigger] next.queue[i]) is Shutdown) by {
            assert(next.queue[i] == self.queue[i]);
            if i == self.queue.len() - 1 {
                assert(self.queue.last() == self.queue[i]);
            }
        }
    }

    /// Beginning a pass keeps the invariant.
    pub proof fn lemma_begin_wf(self)
        requires
            self.wf(),
            self.can_begin(),
        ensures
            self.begin().wf(),
    {
        let next = self.begin();
        let rest = self.queue.drop_first();
        assert forall|i: int| 0 <= i < rest.len() - 1 implies !((#[trigger] rest[i]) is Shutdown) by {
            assert(rest[i] == self.queue[i + 1]);
        }
        if rest.len() > 0 {
            assert(rest.last() == self.queue.last());
            assert(!(self.queue[0] is Shutdown));
        }
        match self.queue[0] {
            InputView::NewArtifact(a, peer) => {
                self.pool.lemma_insert_unvalidated_wf(a);
            },
            _ => {},
        }
    }

    /// Completing a pass keeps the invariant.
    pub proof fn lemma_complete_wf(self, outcome: OutcomeView)
        requires
            self.wf(),
        ensures
            self.complete(outcome).wf(),
    {
        match outcome {
            Ok(out) => {
                self.pool.lemma_apply_all_wf(out.mutations);
            },
            Err(_) => {},
        }
    }
}

/// Owns one kind's pool and processor, queues what is submitted and runs
/// the processor on one input at a time, in order of submission.
pub struct ArtifactProcessorManager<F: ProcessorFactory> {
    factory: Option<F>,
    processor: Option<F::Processor>,
    pool: ArtifactPool,
    queue: Vec<ProcessorInput>,
    active: bool,
    closed: bool,
    exited: bool,
}

impl<F: ProcessorFactory> View for ArtifactProcessorManager<F> {
    type V = ManagerView;

    closed spec fn view(&self) -> ManagerView {
        ManagerView {
            pool: self.pool@,
            queue: views(self.queue@),
            active: self.active,
            closed: self.closed,
            exited: self.exited,
            started: self.processor.is_some(),
        }
    }
}

impl<F: ProcessorFactory> ArtifactProcessorManager<F> {
    /// The manager's invariant: that of its state, and the factory is
    /// there until the processor is.
    pub closed spec fn wf(&self) -> bool {
        &&& self@.wf()
        &&& self.factory.is_some() <==> self.processor.is_none()
    }

    /// The state of a well-formed manager is well formed.
    pub proof fn lemma_wf(&self)
        requires
            self.wf(),
        ensures
            self@.wf(),
    {
    }

    /// A manager over `pool`, with nothing queued. The processor is built
    /// by `factory` when the first pass begins.
    pub fn new(factory: F, pool: ArtifactPool) -> (manager: Self)
        requires
            pool.wf(),
        ensures
            manager.wf(),
            manager@ == ManagerView::fresh(pool@),
    {
        let manager = ArtifactProcessorManager {
            factory: Some(factory),
            processor: None,
            pool,
            queue: Vec::new(),
            active: false,
            closed: false,
            exited: false,
        };
        assert(manager@.queue =~= Seq::empty());
        manager
    }

    /// The kind's pool, for readers.
    pub fn pool(&self) -> (pool: &ArtifactPool)
        ensures
            pool@ == self@.pool,
    {
        &self.pool
    }

    /// Number of inputs that wait.
    pub fn pending(&self) -> (n: usize)
        ensures
            n == self@.queue.len(),
    {
        self.queue.len()
    }

    /// Number of passes in flight: 1 while a pass is active, else 0.
    pub fn in_flight(&self) -> (n: usize)
        ensures
            n == if self@.active { 1usize } else { 0usize },
            n <= 1,
    {
        if self.active {
            1
        } else {
            0
        }
    }

    /// Whether a shutdown was submitted.
    pub fn is_closed(&self) -> (b: bool)
        ensures
            b == self@.closed,
    {
        self.closed
    }

    /// Whether the loop has exited.
    pub fn has_exited(&self) -> (b: bool)
        ensures
            b == self@.exited,
    {
        self.exited
    }

    /// Whether the processor was built.
    pub fn is_started(&self) -> (b: bool)
        ensures
            b == self@.started,
    {
        self.processor.is_some()
    }

    /// Queues an input behind those that wait. After a `Shutdown` was
    /// submitted every submission fails with `Closed` and changes nothing.
    pub fn submit(&mut self, input: ProcessorInput) -> (result: Result<(), SubmitError>)
        requires
            old(self).wf(),
        ensures
            final(self).wf(),
            old(self)@.closed ==> result == Err::<(), SubmitError>(SubmitError::Closed) && final(self)@ == old(self)@,
            !old(self)@.closed ==> result.is_ok() && final(self)@ == old(self)@.submit(input@),
    {
        if self.closed {
            return Err(SubmitError::Closed);
        }
        proof {
            self@.lemma_submit_wf(input@);
        }
        let shutdown = match &input {
            ProcessorInput::Shutdown => true,
            _ => false,
        };
        self.queue.push(input);
        self.closed = shutdown;
        assert(self@.queue =~= old(self)@.queue.push(input@));
        Ok(())
    }

    /// Removes the identifier from the pool, whichever partition holds it,
    /// and says whether the pool held it. After a `Shutdown` was submitted
    /// this fails with `Closed` and changes nothing.
    pub fn purge(&mut self, id: &String) -> (result: Result<bool, SubmitError>)
        requires
            old(self).wf(),
        ensures
            final(self).wf(),
            old(self)@.closed ==> result == Err::<bool, SubmitError>(SubmitError::Closed) && final(
                self)@ == old(self)@,
            !old(self)@.closed ==> result == Ok::<bool, SubmitError>(
                old(self)@.pool.contains(id@),
            ) && final(self)@ == old(self)@.purge(id@),
    {
        if self.closed {
            return Err(SubmitError::Closed);
        }
        let held = self.pool.purge(id);
        Ok(held)
    }

    /// Begins a pass on the oldest input and hands the input out. Returns
    /// `None`, and changes nothing, while a pass is active or nothing waits.
    ///
    /// The artifact of a `NewArtifact` is stored as unvalidated. Where the
    /// pool holds its identifier already nothing is stored: the artifact
    /// that was there first stays, and a rejection in this pass removes
    /// that one if it waits unvalidated.
    pub fn begin_pass(&mut self) -> (input: Option<ProcessorInput>)
        requires
            old(self).wf(),
        ensures
            final(self).wf(),
            !old(self)@.can_begin() ==> input.is_none() && final(self)@ == old(self)@,
            old(self)@.can_begin() ==> input.is_some() && input.unwrap()@ == old(self)@.queue[0]
                && final(self)@ == old(self)@.begin(),
    {
        if self.active || self.queue.len() == 0 {
            return None;
        }
        proof {
            self@.lemma_begin_wf();
        }
        let input = self.queue.remove(0);
        assert(views(self.queue@) =~= old(self)@.queue.drop_first());
        assert(input@ == old(self)@.queue[0]);
        match &input {
            ProcessorInput::NewArtifact(a, _peer) => {
                let _ = self.pool.insert_unvalidated(a.clone());
                self.active = true;
            },
            ProcessorInput::Shutdown => {
                self.exited = true;
            },
            _ => {
                self.active = true;
            },
        }
        Some(input)
    }

    /// Completes the active pass over `input` with what the processor
    /// answered: applies the mutations in order and reports the adverts,
    /// purges and diagnostics. Returns `None`, and changes nothing, if no
    /// pass is active.
    pub fn complete_pass(&mut self, input: ProcessorInput, outcome: Outcome) -> (report: Option<
        PassReport,
    >)
        requires
            old(self).wf(),
        ensures
            final(self).wf(),
            !old(self)@.active ==> report.is_none() && final(self)@ == old(self)@,
            old(self)@.active ==> report.is_some() && final(self)@ == old(self)@.complete(
                outcome_view(outcome),
            ) && report.unwrap()@ == report_of(input@, outcome_view(outcome)),
    {
        if !self.active {
            return None;
        }
        proof {
            self@.lemma_complete_wf(outcome_view(outcome));
        }
        match outcome {
            Ok(out) => {
                let ghost ms = views(out.mutations@);
                let mut diagnostics: Vec<Diagnostic> = Vec::new();
                let mut i: usize = 0;
                assert(ms.take(0) =~= Seq::empty());
                assert(views(diagnostics@) =~= Seq::empty());
                while i < out.mutations.len()
                    invariant
                        i <= out.mutations.len(),
                        ms == views(out.mutations@),
                        self.pool.wf(),
                        self.pool@ == old(self)@.pool.apply_all(ms.take(i as int)),
                        views(diagnostics@) == rejections(ms.take(i as int)),
                        self.queue == old(self).queue,
                        self.closed == old(self).closed,
                        self.exited == old(self).exited,
                        self.factory == old(self).factory,
                        self.processor == old(self).processor,
                    decreases out.mutations.len() - i,
                {
                    let m = &out.mutations[i];
                    proof {
                        assert(ms.take(i + 1).drop_last() =~= ms.take(i as int));
                        assert(ms.take(i + 1).last() == m@);
                    }
                    let _ = self.pool.apply(m);
                    match m {
                        Mutation::HandleInvalid(id, reason) => {
                            let ghost before = views(diagnostics@);
                            diagnostics.push(
                                Diagnostic::ValidationRejected {
                                    id: id.clone(),
                                    reason: reason.clone(),
                                },
                            );
                            assert(views(diagnostics@) =~= before.push(
                                DiagnosticView::ValidationRejected { id: id@, reason: reason@ },
                            ));
                        },
                        _ => {},
                    }
                    i += 1;
                }
                assert(ms.take(i as int) =~= ms);
                self.active = false;
                Some(PassReport { input, adverts: out.adverts, purges: out.purges, diagnostics })
            },
            Err(reason) => {
                self.active = false;
                let mut diagnostics: Vec<Diagnostic> = Vec::new();
                diagnostics.push(Diagnostic::ProcessingFailed { reason });
                let report = PassReport {
                    input,
                    adverts: Vec::new(),
                    purges: Vec::new(),
                    diagnostics,
                };
                assert(report@.adverts =~= Seq::empty());
                assert(report@.purges =~= Seq::empty());
                assert(report@.diagnostics =~= seq![
                    DiagnosticView::ProcessingFailed { reason: reason@ },
                ]);
                Some(report)
            },
        }
    }

    /// One whole pass: takes the oldest input, runs the processor on it and
    /// applies what it answered. Returns `None`, and changes nothing, while
    /// a pass is active or nothing waits. Whatever the processor answers,
    /// the state and the report are those of `pass` and `pass_report` for
    /// that answer.
    pub fn step(&mut self) -> (report: Option<PassReport>)
        requires
            old(self).wf(),
        ensures
            final(self).wf(),
            !old(self)@.can_begin() ==> report.is_none() && final(self)@ == old(self)@,
            old(self)@.can_begin() ==> report.is_some() && !final(self)@.active && exists|
                outcome: OutcomeView,
            |
                final(self)@ == #[trigger] old(self)@.pass(outcome) && report.unwrap()@ == old(self)@.pass_report(outcome),
    {
        match self.begin_pass() {
            None => None,
            Some(input) => {
                match &input {
                    ProcessorInput::Shutdown => {
                        let report = PassReport {
                            input,
                            adverts: Vec::new(),
                            purges: Vec::new(),
                            diagnostics: Vec::new(),
                        };
                        proof {
                            assert(report@.adverts =~= Seq::empty());
                            assert(report@.purges =~= Seq::empty());
                            assert(report@.diagnostics =~= Seq::empty());
                            let outcome: OutcomeView = Err(Seq::empty());
                            assert(self@ == old(self)@.pass(outcome));
                        }
                        Some(report)
                    },
                    _ => {
                        if self.processor.is_none() {
                            let factory = self.factory.take().unwrap();
                            self.processor = Some(factory.build());
                        }
                        let outcome = self.processor.as_mut().unwrap().process(
                            &self.pool,
                            &input,
                        );
                        let ghost o = outcome_view(outcome);
                        let report = self.complete_pass(input, outcome);
                        proof {
                            assert(self@ == old(self)@.pass(o));
                        }
                        report
                    },
                }
            },
        }
    }

    /// Runs passes until nothing waits, and returns their reports in order.
    /// There is one pass for each input that waited, in the order of
    /// submission. While a pass is active nothing is done.
    pub fn run(&mut self) -> (reports: Vec<PassReport>)
        requires
            old(self).wf(),
        ensures
            final(self).wf(),
            old(self)@.active ==> reports@.len() == 0 && final(self)@ == old(self)@,
            !old(self)@.active ==> reports@.len() == old(self)@.queue.len() && final(
                self)@.queue.len() == 0 && !final(self)@.active,
            !old(self)@.active ==> forall|i: int|
                0 <= i < reports@.len() ==> (#[trigger] views(reports@)[i]).input == old(
                    self)@.queue[i],
            !old(self)@.active ==> exists|outcomes: Seq<OutcomeView>|
                outcomes.len() == old(self)@.queue.len() && final(self)@ == #[trigger] old(
                    self)@.passes(outcomes) && views(reports@) == old(self)@.pass_reports(outcomes),
    {
        let mut reports: Vec<PassReport> = Vec::new();
        if self.active {
            return reports;
        }
        let ghost start = self@;
        let ghost mut outcomes: Seq<OutcomeView> = Seq::empty();
        assert(views(reports@) =~= start.pass_reports(outcomes));
        while self.queue.len() > 0
            invariant
                start.wf(),
                !start.active,
                self.wf(),
                outcomes.len() <= start.queue.len(),
                self@ == start.passes(outcomes),
                views(reports@) == start.pass_reports(outcomes),
                reports@.len() == outcomes.len(),
                self@.queue.len() == start.queue.len() - outcomes.len(),
            decreases self@.queue.len(),
        {
            proof {
                start.lemma_passes_in_order(outcomes);
            }
            let ghost before = self@;
            let ghost shown = views(reports@);
            let report = self.step();
            let report = report.unwrap();
            proof {
                let o = choose|o: OutcomeView|
                    self@ == #[trigger] before.pass(o) && report@ == before.pass_report(o);
                let next = outcomes.push(o);
                assert(next.drop_last() =~= outcomes);
                assert(next.last() == o);
                outcomes = next;
                start.lemma_passes_in_order(outcomes);
            }
            reports.push(report);
            assert(views(reports@) =~= shown.push(report@));
        }
        proof {
            start.lemma_passes_in_order(outcomes);
        }
        reports
    }

    /// Gives up what still waits, where draining takes longer than the
    /// owner allows: the queue is emptied, the manager is closed and the
    /// loop has exited. Returns how many inputs were dropped.
    pub fn abandon(&mut self) -> (dropped: usize)
        requires
            old(self).wf(),
        ensures
            final(self).wf(),
            dropped == old(self)@.queue.len(),
            final(self)@ == old(self)@.abandon(),
    {
        let dropped = self.queue.len();
        self.queue.clear();
        self.active = false;
        self.closed = true;
        self.exited = true;
        assert(self@.queue =~= Seq::empty());
        dropped
    }
}

} // verus!
