use ic_p2p::artifact::{Advert, ArtifactTag, CryptoHash};
use ic_p2p::manager::{ArtifactManager, DispatchError};
use ic_p2p::pool::{Artifact, ArtifactPool, Mutation};
use ic_p2p::processor::{
    ArtifactProcessor, ArtifactProcessorManager, Diagnostic, Outcome, ProcessOutput,
    ProcessorFactory, ProcessorInput, Ready, SubmitError,
};
use std::cell::Cell;
use std::rc::Rc;

fn artifact(id: &str, content: &[u8]) -> Artifact {
    Artifact { id: id.to_string(), content: content.to_vec() }
}

fn advert_of(a: &Artifact) -> Advert {
    Advert {
        id: a.id.clone(),
        attribute: a.id.clone(),
        size: a.content.len(),
        integrity_hash: CryptoHash(a.content.clone()),
    }
}

/// Validates what arrives, but for the artifacts whose content is the
/// word "forged"; fails on adverts; counts its passes.
struct Checker {
    passes: Rc<Cell<u32>>,
    running: Rc<Cell<u32>>,
    most_running: Rc<Cell<u32>>,
}

impl Checker {
    fn new() -> Checker {
        Checker {
            passes: Rc::new(Cell::new(0)),
            running: Rc::new(Cell::new(0)),
            most_running: Rc::new(Cell::new(0)),
        }
    }
}

impl ArtifactProcessor for Checker {
    fn process(&mut self, pool: &ArtifactPool, input: &ProcessorInput) -> Outcome {
        self.running.set(self.running.get() + 1);
        self.most_running.set(self.most_running.get().max(self.running.get()));
        self.passes.set(self.passes.get() + 1);
        let outcome = match input {
            ProcessorInput::NewArtifact(a, _) => {
                assert!(pool.contains_unvalidated(&a.id) || pool.contains_validated(&a.id));
                if a.content == b"forged".to_vec() {
                    Ok(ProcessOutput {
                        mutations: vec![Mutation::HandleInvalid(
                            a.id.clone(),
                            "invalid signature".to_string(),
                        )],
                        adverts: Vec::new(),
                        purges: Vec::new(),
                    })
                } else if pool.contains_unvalidated(&a.id) {
                    Ok(ProcessOutput {
                        mutations: vec![Mutation::MoveToValidated(a.id.clone())],
                        adverts: vec![advert_of(a)],
                        purges: Vec::new(),
                    })
                } else {
                    Ok(ProcessOutput {
                        mutations: Vec::new(),
                        adverts: Vec::new(),
                        purges: Vec::new(),
                    })
                }
            }
            ProcessorInput::AdvertReceived(_, _) => Err("adverts are not processed".to_string()),
            ProcessorInput::TimerTick => Ok(ProcessOutput {
                mutations: Vec::new(),
                adverts: Vec::new(),
                purges: vec!["stale".to_string()],
            }),
            ProcessorInput::Shutdown => Err("a shutdown is never processed".to_string()),
        };
        self.running.set(self.running.get() - 1);
        outcome
    }
}

struct CountingFactory {
    built: Rc<Cell<u32>>,
}

impl ProcessorFactory for CountingFactory {
    type Processor = Checker;

    fn build(self) -> Checker {
        self.built.set(self.built.get() + 1);
        Checker::new()
    }
}

fn manager() -> ArtifactProcessorManager<Ready<Checker>> {
    ArtifactProcessorManager::new(Ready(Checker::new()), ArtifactPool::new())
}

fn input_name(input: &ProcessorInput) -> String {
    match input {
        ProcessorInput::NewArtifact(a, peer) => format!("artifact {} from {}", a.id, peer),
        ProcessorInput::AdvertReceived(a, peer) => format!("advert {} from {}", a.id, peer),
        ProcessorInput::TimerTick => "tick".to_string(),
        ProcessorInput::Shutdown => "shutdown".to_string(),
    }
}

#[test]
fn a_new_manager_is_idle() {
    let mut m = manager();
    assert_eq!(m.pending(), 0);
    assert_eq!(m.in_flight(), 0);
    assert!(!m.is_closed());
    assert!(!m.has_exited());
    assert!(!m.is_started());
    assert!(m.step().is_none());
    assert!(m.run().is_empty());
    assert!(m.begin_pass().is_none());
}

#[test]
fn submissions_are_processed_in_order_one_pass_each() {
    let checker = Checker::new();
    let passes = checker.passes.clone();
    let most_running = checker.most_running.clone();
    let mut m = ArtifactProcessorManager::new(Ready(checker), ArtifactPool::new());
    for i in 0..5u64 {
        assert_eq!(m.submit(ProcessorInput::NewArtifact(artifact(&format!("a{}", i), b"x"), i)), Ok(()));
    }
    assert_eq!(m.submit(ProcessorInput::TimerTick), Ok(()));
    assert_eq!(m.pending(), 6);
    let reports = m.run();
    assert_eq!(reports.len(), 6);
    let names: Vec<String> = reports.iter().map(|r| input_name(&r.input)).collect();
    assert_eq!(
        names,
        vec![
            "artifact a0 from 0",
            "artifact a1 from 1",
            "artifact a2 from 2",
            "artifact a3 from 3",
            "artifact a4 from 4",
            "tick",
        ]
    );
    assert_eq!(passes.get(), 6);
    assert_eq!(most_running.get(), 1);
    assert_eq!(m.pending(), 0);
    assert_eq!(m.in_flight(), 0);
    assert_eq!(m.pool().validated_len(), 5);
    assert_eq!(reports[5].purges, vec!["stale".to_string()]);
}

#[test]
fn a_valid_artifact_is_validated_and_advertised_once() {
    let mut m = manager();
    m.submit(ProcessorInput::NewArtifact(artifact("a1", b"payload"), 4)).unwrap();
    let report = m.step().unwrap();
    assert_eq!(report.adverts.len(), 1);
    assert_eq!(report.adverts[0].id, "a1");
    assert_eq!(report.adverts[0].size, 7);
    assert!(report.diagnostics.is_empty());
    assert!(m.pool().contains_validated(&"a1".to_string()));
    assert_eq!(m.pool().unvalidated_len(), 0);
    assert!(m.is_started());
    assert!(m.step().is_none());
}

#[test]
fn a_rejected_artifact_is_dropped_with_a_diagnostic() {
    let mut m = manager();
    m.submit(ProcessorInput::NewArtifact(artifact("good", b"ok"), 1)).unwrap();
    m.run();
    let before = (m.pool().unvalidated_len(), m.pool().validated_len());
    m.submit(ProcessorInput::NewArtifact(artifact("bad", b"forged"), 2)).unwrap();
    let report = m.step().unwrap();
    assert!(report.adverts.is_empty());
    assert_eq!((m.pool().unvalidated_len(), m.pool().validated_len()), before);
    assert!(!m.pool().contains(&"bad".to_string()));
    assert_eq!(report.diagnostics.len(), 1);
    match &report.diagnostics[0] {
        Diagnostic::ValidationRejected { id, reason } => {
            assert_eq!(id, "bad");
            assert_eq!(reason, "invalid signature");
        }
        other => panic!("unexpected diagnostic {:?}", other),
    }
}

#[test]
fn a_failed_pass_does_not_halt_the_loop() {
    let mut m = manager();
    let advert = advert_of(&artifact("x", b"1"));
    m.submit(ProcessorInput::AdvertReceived(advert, 3)).unwrap();
    m.submit(ProcessorInput::NewArtifact(artifact("after", b"2"), 3)).unwrap();
    let reports = m.run();
    assert_eq!(reports.len(), 2);
    assert!(reports[0].adverts.is_empty());
    assert!(reports[0].purges.is_empty());
    match &reports[0].diagnostics[..] {
        [Diagnostic::ProcessingFailed { reason }] => {
            assert_eq!(reason, "adverts are not processed")
        }
        other => panic!("unexpected diagnostics {:?}", other),
    }
    assert_eq!(reports[1].adverts.len(), 1);
    assert!(m.pool().contains_validated(&"after".to_string()));
}

#[test]
fn shutdown_drains_the_queue_then_the_loop_exits() {
    let mut m = manager();
    m.submit(ProcessorInput::NewArtifact(artifact("a", b"1"), 1)).unwrap();
    m.submit(ProcessorInput::NewArtifact(artifact("b", b"2"), 1)).unwrap();
    m.submit(ProcessorInput::Shutdown).unwrap();
    assert!(m.is_closed());
    assert!(!m.has_exited());
    assert_eq!(m.submit(ProcessorInput::TimerTick), Err(SubmitError::Closed));
    assert_eq!(m.submit(ProcessorInput::Shutdown), Err(SubmitError::Closed));
    assert_eq!(m.pending(), 3);
    let reports = m.run();
    assert_eq!(reports.len(), 3);
    assert_eq!(input_name(&reports[2].input), "shutdown");
    assert!(reports[2].adverts.is_empty());
    assert!(m.has_exited());
    assert_eq!(m.pool().validated_len(), 2);
    assert_eq!(m.submit(ProcessorInput::TimerTick), Err(SubmitError::Closed));
    assert_eq!(m.purge(&"a".to_string()), Err(SubmitError::Closed));
    assert!(m.step().is_none());
}

#[test]
fn abandon_gives_up_what_waits() {
    let mut m = manager();
    m.submit(ProcessorInput::TimerTick).unwrap();
    m.submit(ProcessorInput::TimerTick).unwrap();
    assert_eq!(m.abandon(), 2);
    assert_eq!(m.pending(), 0);
    assert!(m.is_closed());
    assert!(m.has_exited());
    assert_eq!(m.abandon(), 0);
    assert_eq!(m.submit(ProcessorInput::TimerTick), Err(SubmitError::Closed));
}

#[test]
fn only_one_pass_is_active_at_a_time() {
    let mut m = manager();
    m.submit(ProcessorInput::NewArtifact(artifact("a", b"1"), 1)).unwrap();
    m.submit(ProcessorInput::TimerTick).unwrap();
    let first = m.begin_pass().unwrap();
    assert_eq!(m.in_flight(), 1);
    assert!(m.pool().contains_unvalidated(&"a".to_string()));
    assert!(m.begin_pass().is_none());
    assert!(m.step().is_none());
    assert!(m.run().is_empty());
    assert_eq!(m.pending(), 1);
    let output = ProcessOutput {
        mutations: vec![Mutation::MoveToValidated("a".to_string())],
        adverts: vec![advert_of(&artifact("a", b"1"))],
        purges: Vec::new(),
    };
    let report = m.complete_pass(first, Ok(output)).unwrap();
    assert_eq!(report.adverts.len(), 1);
    assert_eq!(m.in_flight(), 0);
    assert!(m.pool().contains_validated(&"a".to_string()));
    assert!(m.complete_pass(ProcessorInput::TimerTick, Err("late".to_string())).is_none());
    assert!(m.begin_pass().is_some());
}

#[test]
fn complete_pass_applies_mutations_in_order() {
    let mut m = manager();
    m.submit(ProcessorInput::TimerTick).unwrap();
    let input = m.begin_pass().unwrap();
    let output = ProcessOutput {
        mutations: vec![
            Mutation::AddToValidated(artifact("x", b"1")),
            Mutation::HandleInvalid("p".to_string(), "first".to_string()),
            Mutation::RemoveFromValidated("x".to_string()),
            Mutation::AddToValidated(artifact("y", b"2")),
            Mutation::HandleInvalid("q".to_string(), "second".to_string()),
        ],
        adverts: Vec::new(),
        purges: vec!["x".to_string()],
    };
    let report = m.complete_pass(input, Ok(output)).unwrap();
    assert!(!m.pool().contains(&"x".to_string()));
    assert!(m.pool().contains_validated(&"y".to_string()));
    let rejected: Vec<String> = report
        .diagnostics
        .iter()
        .map(|d| match d {
            Diagnostic::ValidationRejected { id, reason } => format!("{}:{}", id, reason),
            Diagnostic::ProcessingFailed { reason } => reason.clone(),
        })
        .collect();
    assert_eq!(rejected, vec!["p:first", "q:second"]);
    assert_eq!(report.purges, vec!["x".to_string()]);
}

#[test]
fn the_processor_is_built_once_on_first_use() {
    let built = Rc::new(Cell::new(0));
    let mut m = ArtifactProcessorManager::new(
        CountingFactory { built: built.clone() },
        ArtifactPool::new(),
    );
    assert_eq!(built.get(), 0);
    m.submit(ProcessorInput::TimerTick).unwrap();
    assert_eq!(built.get(), 0);
    m.step();
    assert_eq!(built.get(), 1);
    m.submit(ProcessorInput::TimerTick).unwrap();
    m.submit(ProcessorInput::TimerTick).unwrap();
    m.run();
    assert_eq!(built.get(), 1);
    assert!(m.is_started());
}

#[test]
fn a_shutdown_alone_builds_no_processor() {
    let built = Rc::new(Cell::new(0));
    let mut m = ArtifactProcessorManager::new(
        CountingFactory { built: built.clone() },
        ArtifactPool::new(),
    );
    m.submit(ProcessorInput::Shutdown).unwrap();
    assert_eq!(m.run().len(), 1);
    assert!(m.has_exited());
    assert_eq!(built.get(), 0);
}

#[test]
fn purge_removes_the_identifier() {
    let mut m = manager();
    m.submit(ProcessorInput::NewArtifact(artifact("a", b"1"), 1)).unwrap();
    m.run();
    assert_eq!(m.purge(&"a".to_string()), Ok(true));
    assert_eq!(m.purge(&"a".to_string()), Ok(false));
    assert_eq!(m.pool().validated_len(), 0);
}

fn registry() -> ArtifactManager<Ready<Checker>> {
    let mut registry = ArtifactManager::new();
    assert_eq!(registry.register(ArtifactTag::IngressArtifact, manager()), Ok(()));
    assert_eq!(registry.register(ArtifactTag::ConsensusArtifact, manager()), Ok(()));
    registry
}

#[test]
fn dispatch_reaches_the_pool_of_the_tag_once() {
    let mut registry = registry();
    assert_eq!(registry.on_artifact(ArtifactTag::IngressArtifact, artifact("a1", b"x"), 9), Ok(()));
    assert_eq!(registry.client(ArtifactTag::IngressArtifact).unwrap().pending(), 1);
    assert_eq!(registry.client(ArtifactTag::ConsensusArtifact).unwrap().pending(), 0);
    let report = registry.step(ArtifactTag::IngressArtifact).unwrap().unwrap();
    assert_eq!(report.adverts.len(), 1);
    assert_eq!(registry.step(ArtifactTag::IngressArtifact).unwrap().map(|r| r.adverts.len()), None);
    assert!(registry.has_artifact(ArtifactTag::IngressArtifact, &"a1".to_string()));
    assert!(!registry.has_artifact(ArtifactTag::ConsensusArtifact, &"a1".to_string()));
    let ingress = registry.client(ArtifactTag::IngressArtifact).unwrap();
    assert_eq!(ingress.pool().validated_len(), 1);
    assert_eq!(ingress.pool().unvalidated_len(), 0);
    let consensus = registry.client(ArtifactTag::ConsensusArtifact).unwrap();
    assert_eq!(consensus.pool().validated_len() + consensus.pool().unvalidated_len(), 0);
}

#[test]
fn dispatch_to_an_unregistered_tag_fails_and_touches_no_pool() {
    let mut registry = registry();
    assert_eq!(
        registry.on_artifact(ArtifactTag::DkgArtifact, artifact("a1", b"x"), 9),
        Err(DispatchError::UnknownTag)
    );
    assert_eq!(
        registry.on_advert(ArtifactTag::DkgArtifact, advert_of(&artifact("a1", b"x")), 9),
        Err(DispatchError::UnknownTag)
    );
    assert_eq!(
        registry.on_purge(ArtifactTag::DkgArtifact, &"a1".to_string()),
        Err(DispatchError::UnknownTag)
    );
    assert!(matches!(registry.step(ArtifactTag::DkgArtifact), Err(DispatchError::UnknownTag)));
    assert!(!registry.is_registered(ArtifactTag::DkgArtifact));
    assert!(registry.client(ArtifactTag::DkgArtifact).is_none());
    assert!(!registry.has_artifact(ArtifactTag::DkgArtifact, &"a1".to_string()));
    for tag in [ArtifactTag::IngressArtifact, ArtifactTag::ConsensusArtifact] {
        let client = registry.client(tag).unwrap();
        assert_eq!(client.pending(), 0);
        assert_eq!(client.pool().validated_len() + client.pool().unvalidated_len(), 0);
    }
}

#[test]
fn a_tag_is_registered_once() {
    let mut registry = registry();
    registry.on_artifact(ArtifactTag::IngressArtifact, artifact("kept", b"x"), 1).unwrap();
    assert_eq!(
        registry.register(ArtifactTag::IngressArtifact, manager()),
        Err(DispatchError::AlreadyRegistered)
    );
    assert_eq!(registry.client(ArtifactTag::IngressArtifact).unwrap().pending(), 1);
}

#[test]
fn dispatch_of_adverts_and_purges() {
    let mut registry = registry();
    let tag = ArtifactTag::ConsensusArtifact;
    assert_eq!(registry.on_advert(tag, advert_of(&artifact("b", b"1")), 2), Ok(()));
    let report = registry.step(tag).unwrap().unwrap();
    assert_eq!(report.diagnostics.len(), 1);
    registry.on_artifact(tag, artifact("b", b"1"), 2).unwrap();
    registry.step(tag).unwrap();
    assert_eq!(registry.on_purge(tag, &"b".to_string()), Ok(true));
    assert_eq!(registry.on_purge(tag, &"b".to_string()), Ok(false));
    assert!(!registry.has_artifact(tag, &"b".to_string()));
}

#[test]
fn shutdown_all_closes_every_kind_once() {
    let mut registry = registry();
    registry.on_artifact(ArtifactTag::IngressArtifact, artifact("a", b"1"), 1).unwrap();
    registry.shutdown_all();
    for tag in [ArtifactTag::IngressArtifact, ArtifactTag::ConsensusArtifact] {
        assert!(registry.client(tag).unwrap().is_closed());
    }
    assert_eq!(registry.client(ArtifactTag::IngressArtifact).unwrap().pending(), 2);
    assert_eq!(registry.client(ArtifactTag::ConsensusArtifact).unwrap().pending(), 1);
    registry.shutdown_all();
    assert_eq!(registry.client(ArtifactTag::IngressArtifact).unwrap().pending(), 2);
    assert_eq!(
        registry.on_artifact(ArtifactTag::IngressArtifact, artifact("late", b"1"), 1),
        Err(DispatchError::Closed)
    );
    assert_eq!(
        registry.on_purge(ArtifactTag::IngressArtifact, &"a".to_string()),
        Err(DispatchError::Closed)
    );
    registry.step(ArtifactTag::IngressArtifact).unwrap();
    registry.step(ArtifactTag::IngressArtifact).unwrap();
    let ingress = registry.client(ArtifactTag::IngressArtifact).unwrap();
    assert!(ingress.has_exited());
    assert!(ingress.pool().contains_validated(&"a".to_string()));
}

#[test]
fn abandon_by_tag_gives_up_one_kind() {
    let mut registry = registry();
    registry.on_artifact(ArtifactTag::IngressArtifact, artifact("a", b"1"), 1).unwrap();
    registry.on_artifact(ArtifactTag::IngressArtifact, artifact("b", b"1"), 1).unwrap();
    registry.on_artifact(ArtifactTag::ConsensusArtifact, artifact("c", b"1"), 1).unwrap();
    assert_eq!(registry.abandon(ArtifactTag::DkgArtifact), Err(DispatchError::UnknownTag));
    assert_eq!(registry.abandon(ArtifactTag::IngressArtifact), Ok(2));
    let ingress = registry.client(ArtifactTag::IngressArtifact).unwrap();
    assert_eq!(ingress.pending(), 0);
    assert!(ingress.is_closed());
    assert!(ingress.has_exited());
    let consensus = registry.client(ArtifactTag::ConsensusArtifact).unwrap();
    assert_eq!(consensus.pending(), 1);
    assert!(!consensus.is_closed());
    assert_eq!(registry.abandon(ArtifactTag::IngressArtifact), Ok(0));
}

#[test]
fn a_rejection_removes_the_artifact_that_waited_under_the_identifier() {
    let mut m = manager();
    m.submit(ProcessorInput::TimerTick).unwrap();
    let input = m.begin_pass().unwrap();
    let waiting = ProcessOutput { mutations: Vec::new(), adverts: Vec::new(), purges: Vec::new() };
    m.complete_pass(input, Ok(waiting));
    m.submit(ProcessorInput::NewArtifact(artifact("same", b"first"), 1)).unwrap();
    let first = m.begin_pass().unwrap();
    let nothing = ProcessOutput { mutations: Vec::new(), adverts: Vec::new(), purges: Vec::new() };
    m.complete_pass(first, Ok(nothing));
    assert_eq!(m.pool().unvalidated_len(), 1);
    m.submit(ProcessorInput::NewArtifact(artifact("same", b"forged"), 2)).unwrap();
    let report = m.step().unwrap();
    assert!(report.adverts.is_empty());
    assert_eq!(report.diagnostics.len(), 1);
    assert_eq!(m.pool().unvalidated_len(), 0);
    assert!(!m.pool().contains(&"same".to_string()));
}
