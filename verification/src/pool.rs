//! The per-kind store of artifacts, in an unvalidated and a validated
//! partition, and the mutations that a processor applies to it.

use crate::artifact::views;
use vstd::prelude::*;
use vstd::slice::slice_to_vec;

verus! {

/// An artifact as a mathematical value.
pub ghost struct ArtifactView {
    pub id: Seq<char>,
    pub content: Seq<u8>,
}

/// A protocol message tracked by the dissemination layer: its identifier,
/// unique within its kind, and its serialised content.
#[derive(Debug)]
pub struct Artifact {
    pub id: String,
    pub content: Vec<u8>,
}

impl View for Artifact {
    type V = ArtifactView;

    open spec fn view(&self) -> ArtifactView {
        ArtifactView { id: self.id@, content: self.content@ }
    }
}

impl Clone for Artifact {
    fn clone(&self) -> (res: Self)
        ensures
            res@ == self@,
    {
        Artifact { id: self.id.clone(), content: slice_to_vec(self.content.as_slice()) }
    }
}

/// Whether some artifact of `s` has the identifier `id`.
pub open spec fn has_id(s: Seq<ArtifactView>, id: Seq<char>) -> bool {
    exists|i: int| 0 <= i < s.len() && (#[trigger] s[i]).id == id
}

/// A position in `s` of an artifact with the identifier `id`, if there is one.
pub open spec fn index_of(s: Seq<ArtifactView>, id: Seq<char>) -> int {
    choose|i: int| 0 <= i < s.len() && (#[trigger] s[i]).id == id
}

/// No two artifacts of `s` share an identifier.
pub open spec fn distinct_ids(s: Seq<ArtifactView>) -> bool {
    forall|i: int, j: int|
        0 <= i < s.len() && 0 <= j < s.len() && i != j ==> (#[trigger] s[i]).id != (#[trigger] s[j]).id
}

/// `s` without the artifact that has the identifier `id`.
pub open spec fn without_id(s: Seq<ArtifactView>, id: Seq<char>) -> Seq<ArtifactView> {
    if has_id(s, id) {
        s.remove(index_of(s, id))
    } else {
        s
    }
}

/// Where identifiers are distinct, the position of an identifier is unique.
pub proof fn lemma_index_of_unique(s: Seq<ArtifactView>, id: Seq<char>, i: int)
    requires
        distinct_ids(s),
        0 <= i < s.len(),
        s[i].id == id,
    ensures
        has_id(s, id),
        index_of(s, id) == i,
{
    let j = index_of(s, id);
    assert(0 <= j < s.len() && s[j].id == id);
}

/// Removing an artifact keeps identifiers distinct, adds no identifier and
/// takes away exactly the identifier of the artifact removed.
pub proof fn lemma_remove_ids(s: Seq<ArtifactView>, i: int)
    requires
        distinct_ids(s),
        0 <= i < s.len(),
    ensures
        distinct_ids(s.remove(i)),
        !has_id(s.remove(i), s[i].id),
        forall|id: Seq<char>| id != s[i].id ==> (has_id(s.remove(i), id) <==> has_id(s, id)),
{
    let r = s.remove(i);
    assert forall|a: int, b: int| 0 <= a < r.len() && 0 <= b < r.len() && a != b implies (
    #[trigger] r[a]).id != (#[trigger] r[b]).id by {
        let a0 = if a < i { a } else { a + 1 };
        let b0 = if b < i { b } else { b + 1 };
        assert(r[a] == s[a0] && r[b] == s[b0]);
    }
    assert forall|a: int| 0 <= a < r.len() implies (#[trigger] r[a]).id != s[i].id by {
        let a0 = if a < i { a } else { a + 1 };
        assert(r[a] == s[a0]);
    }
    assert forall|id: Seq<char>| id != s[i].id implies (has_id(r, id) <==> has_id(s, id)) by {
        if has_id(r, id) {
            let a = index_of(r, id);
            let a0 = if a < i { a } else { a + 1 };
            assert(r[a] == s[a0]);
        }
        if has_id(s, id) {
            let a0 = index_of(s, id);
            let a = if a0 < i { a0 } else { a0 - 1 };
            assert(r[a] == s[a0]);
        }
    }
}

/// Appending an artifact with a new identifier keeps identifiers distinct
/// and adds exactly that identifier.
pub proof fn lemma_push_ids(s: Seq<ArtifactView>, a: ArtifactView)
    requires
        distinct_ids(s),
        !has_id(s, a.id),
    ensures
        distinct_ids(s.push(a)),
        forall|id: Seq<char>| has_id(s.push(a), id) <==> (id == a.id || has_id(s, id)),
{
    let p = s.push(a);
    assert forall|i: int, j: int| 0 <= i < p.len() && 0 <= j < p.len() && i != j implies (
    #[trigger] p[i]).id != (#[trigger] p[j]).id by {
        if i < s.len() {
            assert(p[i] == s[i]);
        }
        if j < s.len() {
            assert(p[j] == s[j]);
        }
    }
    assert forall|id: Seq<char>| has_id(p, id) <==> (id == a.id || has_id(s, id)) by {
        if has_id(p, id) {
            let i = index_of(p, id);
            if i < s.len() {
                assert(p[i] == s[i]);
            }
        }
        if has_id(s, id) {
            let i = index_of(s, id);
            assert(p[i] == s[i]);
        }
        if id == a.id {
            assert(p[s.len() as int] == a);
        }
    }
}

/// A change that a processor asks of its pool, as a mathematical value.
pub ghost enum MutationView {
    AddToValidated(ArtifactView),
    MoveToValidated(Seq<char>),
    RemoveFromUnvalidated(Seq<char>),
    RemoveFromValidated(Seq<char>),
    HandleInvalid(Seq<char>, Seq<char>),
}

/// A change that a processor asks of its pool.
#[derive(Debug)]
pub enum Mutation {
    /// Store a locally produced artifact as validated.
    AddToValidated(Artifact),
    /// The unvalidated artifact with this identifier passed validation.
    MoveToValidated(String),
    /// Drop the unvalidated artifact with this identifier.
    RemoveFromUnvalidated(String),
    /// Purge the validated artifact with this identifier.
    RemoveFromValidated(String),
    /// The unvalidated artifact with this identifier was rejected, for the
    /// reason given: drop it.
    HandleInvalid(String, String),
}

impl View for Mutation {
    type V = MutationView;

    open spec fn view(&self) -> MutationView {
        match self {
            Mutation::AddToValidated(a) => MutationView::AddToValidated(a@),
            Mutation::MoveToValidated(id) => MutationView::MoveToValidated(id@),
            Mutation::RemoveFromUnvalidated(id) => MutationView::RemoveFromUnvalidated(id@),
            Mutation::RemoveFromValidated(id) => MutationView::RemoveFromValidated(id@),
            Mutation::HandleInvalid(id, reason) => MutationView::HandleInvalid(id@, reason@),
        }
    }
}

/// A pool as a mathematical value: its two partitions, each in order of
/// arrival.
pub ghost struct PoolView {
    pub unvalidated: Seq<ArtifactView>,
    pub validated: Seq<ArtifactView>,
}

impl PoolView {
    /// The pool that holds nothing.
    pub open spec fn empty() -> PoolView {
        PoolView { unvalidated: Seq::empty(), validated: Seq::empty() }
    }

    /// Whether either partition holds the identifier.
    pub open spec fn contains(self, id: Seq<char>) -> bool {
        has_id(self.unvalidated, id) || has_id(self.validated, id)
    }

    /// No identifier occurs twice in the pool.
    pub open spec fn wf(self) -> bool {
        &&& distinct_ids(self.unvalidated)
        &&& distinct_ids(self.validated)
        &&& forall|i: int|
            0 <= i < self.unvalidated.len() ==> !has_id(
                self.validated,
                (#[trigger] self.unvalidated[i]).id,
            )
    }

    /// The pool after a newly received artifact was stored as unvalidated.
    /// An identifier that the pool already holds is not stored again.
    pub open spec fn insert_unvalidated(self, a: ArtifactView) -> PoolView {
        if self.contains(a.id) {
            self
        } else {
            PoolView { unvalidated: self.unvalidated.push(a), ..self }
        }
    }

    /// The pool without the identifier, in either partition.
    pub open spec fn purge(self, id: Seq<char>) -> PoolView {
        PoolView {
            unvalidated: without_id(self.unvalidated, id),
            validated: without_id(self.validated, id),
        }
    }

    /// The pool after one mutation. A mutation that names an identifier
    /// which is not where the mutation expects it changes nothing.
    pub open spec fn apply(self, m: MutationView) -> PoolView {
        match m {
            MutationView::AddToValidated(a) => {
                if self.contains(a.id) {
                    self
                } else {
                    PoolView { validated: self.validated.push(a), ..self }
                }
            },
            MutationView::MoveToValidated(id) => {
                if has_id(self.unvalidated, id) {
                    let i = index_of(self.unvalidated, id);
                    PoolView {
                        unvalidated: self.unvalidated.remove(i),
                        validated: self.validated.push(self.unvalidated[i]),
                    }
                } else {
                    self
                }
            },
            MutationView::RemoveFromUnvalidated(id) => PoolView {
                unvalidated: without_id(self.unvalidated, id),
                ..self
            },
            MutationView::RemoveFromValidated(id) => PoolView {
                validated: without_id(self.validated, id),
                ..self
            },
            MutationView::HandleInvalid(id, reason) => PoolView {
                unvalidated: without_id(self.unvalidated, id),
                ..self
            },
        }
    }

    /// The pool after a sequence of mutations, applied in order.
    pub open spec fn apply_all(self, ms: Seq<MutationView>) -> PoolView
        decreases ms.len(),
    {
        if ms.len() == 0 {
            self
        } else {
            self.apply_all(ms.drop_last()).apply(ms.last())
        }
    }

    /// Storing an unvalidated artifact keeps the pool well formed.
    pub proof fn lemma_insert_unvalidated_wf(self, a: ArtifactView)
        requires
            self.wf(),
        ensures
            self.insert_unvalidated(a).wf(),
    {
        if !self.contains(a.id) {
            lemma_push_ids(self.unvalidated, a);
            let p = self.unvalidated.push(a);
            assert forall|i: int| 0 <= i < p.len() implies !has_id(
                self.validated,
                (#[trigger] p[i]).id,
            ) by {
                if i < self.unvalidated.len() {
                    assert(p[i] == self.unvalidated[i]);
                }
            }
        }
    }

    /// Removing an identifier from the unvalidated partition keeps the pool
    /// well formed.
    proof fn lemma_without_unvalidated_wf(self, id: Seq<char>)
        requires
            self.wf(),
        ensures
            (PoolView { unvalidated: without_id(self.unvalidated, id), ..self }).wf(),
    {
        if has_id(self.unvalidated, id) {
            let i = index_of(self.unvalidated, id);
            lemma_remove_ids(self.unvalidated, i);
            let r = self.unvalidated.remove(i);
            assert forall|k: int| 0 <= k < r.len() implies !has_id(
                self.validated,
                (#[trigger] r[k]).id,
            ) by {
                let k0 = if k < i { k } else { k + 1 };
                assert(r[k] == self.unvalidated[k0]);
            }
        }
    }

    /// Removing an identifier from the validated partition keeps the pool
    /// well formed.
    proof fn lemma_without_validated_wf(self, id: Seq<char>)
        requires
            self.wf(),
        ensures
            (PoolView { validated: without_id(self.validated, id), ..self }).wf(),
    {
        if has_id(self.validated, id) {
            let i = index_of(self.validated, id);
            lemma_remove_ids(self.validated, i);
            let r = self.validated.remove(i);
            assert forall|k: int| 0 <= k < self.unvalidated.len() implies !has_id(
                r,
                (#[trigger] self.unvalidated[k]).id,
            ) by {
                assert(!has_id(self.validated, self.unvalidated[k].id));
            }
        }
    }

    /// Every mutation keeps the pool well formed.
    pub proof fn lemma_apply_wf(self, m: MutationView)
        requires
            self.wf(),
        ensures
            self.apply(m).wf(),
    {
        match m {
            MutationView::AddToValidated(a) => {
                if !self.contains(a.id) {
                    lemma_push_ids(self.validated, a);
                    assert forall|k: int| 0 <= k < self.unvalidated.len() implies !has_id(
                        self.validated.push(a),
                        (#[trigger] self.unvalidated[k]).id,
                    ) by {
                        assert(!has_id(self.validated, self.unvalidated[k].id));
                    }
                }
            },
            MutationView::MoveToValidated(id) => {
                if has_id(self.unvalidated, id) {
                    let i = index_of(self.unvalidated, id);
                    let a = self.unvalidated[i];
                    lemma_remove_ids(self.unvalidated, i);
                    assert(!has_id(self.validated, a.id));
                    lemma_push_ids(self.validated, a);
                    let r = self.unvalidated.remove(i);
                    assert forall|k: int| 0 <= k < r.len() implies !has_id(
                        self.validated.push(a),
                        (#[trigger] r[k]).id,
                    ) by {
                        let k0 = if k < i { k } else { k + 1 };
                        assert(r[k] == self.unvalidated[k0]);
                        assert(!has_id(self.validated, self.unvalidated[k0].id));
                    }
                }
            },
            MutationView::RemoveFromUnvalidated(id) => {
                self.lemma_without_unvalidated_wf(id);
            },
            MutationView::RemoveFromValidated(id) => {
                self.lemma_without_validated_wf(id);
            },
            MutationView::HandleInvalid(id, reason) => {
                self.lemma_without_unvalidated_wf(id);
            },
        }
    }

    /// An artifact that arrives and is rejected leaves the pool as it was,
    /// with as many artifacts in either partition as before, unless an
    /// artifact with its identifier waited unvalidated already: that one is
    /// what the rejection, which names the identifier only, then removes.
    pub proof fn lemma_rejected_arrival_leaves_pool(self, a: ArtifactView, reason: Seq<char>)
        requires
            self.wf(),
            !has_id(self.unvalidated, a.id),
        ensures
            self.insert_unvalidated(a).apply(MutationView::HandleInvalid(a.id, reason)) == self,
            !self.insert_unvalidated(a).apply(MutationView::HandleInvalid(a.id, reason)).contains(
                a.id,
            ) || has_id(self.validated, a.id),
    {
        if !self.contains(a.id) {
            let pushed = self.unvalidated.push(a);
            let n = self.unvalidated.len() as int;
            lemma_push_ids(self.unvalidated, a);
            assert(pushed[n] == a);
            lemma_index_of_unique(pushed, a.id, n);
            assert(pushed.remove(n) =~= self.unvalidated);
        }
    }

    /// Every sequence of mutations keeps the pool well formed.
    pub proof fn lemma_apply_all_wf(self, ms: Seq<MutationView>)
        requires
            self.wf(),
        ensures
            self.apply_all(ms).wf(),
        decreases ms.len(),
    {
        if ms.len() > 0 {
            self.lemma_apply_all_wf(ms.drop_last());
            self.apply_all(ms.drop_last()).lemma_apply_wf(ms.last());
        }
    }

    /// Purging an identifier keeps the pool well formed and leaves the
    /// identifier in neither partition.
    pub proof fn lemma_purge_wf(self, id: Seq<char>)
        requires
            self.wf(),
        ensures
            self.purge(id).wf(),
            !self.purge(id).contains(id),
    {
        self.lemma_without_unvalidated_wf(id);
        let mid = PoolView { unvalidated: without_id(self.unvalidated, id), ..self };
        mid.lemma_without_validated_wf(id);
        if has_id(self.unvalidated, id) {
            lemma_remove_ids(self.unvalidated, index_of(self.unvalidated, id));
        }
        if has_id(self.validated, id) {
            lemma_remove_ids(self.validated, index_of(self.validated, id));
        }
    }
}

/// The pool that holds the given artifacts as validated, each identifier
/// once: of two artifacts with one identifier the first is kept.
pub open spec fn restored(artifacts: Seq<ArtifactView>) -> PoolView
    decreases artifacts.len(),
{
    if artifacts.len() == 0 {
        PoolView::empty()
    } else {
        restored(artifacts.drop_last()).apply(MutationView::AddToValidated(artifacts.last()))
    }
}

/// A restored pool is well formed.
pub proof fn lemma_restored_wf(artifacts: Seq<ArtifactView>)
    ensures
        restored(artifacts).wf(),
    decreases artifacts.len(),
{
    if artifacts.len() > 0 {
        lemma_restored_wf(artifacts.drop_last());
        restored(artifacts.drop_last()).lemma_apply_wf(
            MutationView::AddToValidated(artifacts.last()),
        );
    }
}

/// The newest validated artifact, and `fallback` while nothing is
/// validated.
pub open spec fn tip_of(validated: Seq<ArtifactView>, fallback: ArtifactView) -> ArtifactView {
    if validated.len() == 0 {
        fallback
    } else {
        validated.last()
    }
}

/// The position of the artifact with the identifier `id` in `v`, if any.
fn find_id(v: &Vec<Artifact>, id: &String) -> (found: Option<usize>)
    ensures
        found.is_some() <==> has_id(views(v@), id@),
        found matches Some(i) ==> i < v.len() && v[i as int]@.id == id@,
        found matches Some(i) ==> distinct_ids(views(v@)) ==> i == index_of(
            views(v@),
            id@,
        ),
{
    let ghost s = views(v@);
    let mut i: usize = 0;
    while i < v.len()
        invariant
            i <= v.len(),
            s == views(v@),
            forall|k: int| 0 <= k < i ==> (#[trigger] s[k]).id != id@,
        decreases v.len() - i,
    {
        if v[i].id == *id {
            proof {
                assert(s[i as int].id == id@);
                if distinct_ids(s) {
                    lemma_index_of_unique(s, id@, i as int);
                }
            }
            return Some(i);
        }
        i += 1;
    }
    None
}

/// The store of one kind's artifacts. Received artifacts wait in the
/// unvalidated partition; those that passed the kind's acceptance rules are
/// in the validated partition. No identifier occurs twice.
#[derive(Debug)]
pub struct ArtifactPool {
    unvalidated: Vec<Artifact>,
    validated: Vec<Artifact>,
}

impl View for ArtifactPool {
    type V = PoolView;

    closed spec fn view(&self) -> PoolView {
        PoolView {
            unvalidated: views(self.unvalidated@),
            validated: views(self.validated@),
        }
    }
}

impl ArtifactPool {
    /// The pool's invariant: no identifier occurs twice.
    pub open spec fn wf(&self) -> bool {
        self@.wf()
    }

    /// An empty pool.
    pub fn new() -> (pool: ArtifactPool)
        ensures
            pool@ == PoolView::empty(),
            pool.wf(),
    {
        let pool = ArtifactPool { unvalidated: Vec::new(), validated: Vec::new() };
        assert(pool@.unvalidated =~= Seq::empty());
        assert(pool@.validated =~= Seq::empty());
        pool
    }

    /// Number of artifacts that await validation.
    pub fn unvalidated_len(&self) -> (n: usize)
        ensures
            n == self@.unvalidated.len(),
    {
        self.unvalidated.len()
    }

    /// Number of validated artifacts.
    pub fn validated_len(&self) -> (n: usize)
        ensures
            n == self@.validated.len(),
    {
        self.validated.len()
    }

    /// Whether the unvalidated partition holds the identifier.
    pub fn contains_unvalidated(&self, id: &String) -> (b: bool)
        ensures
            b == has_id(self@.unvalidated, id@),
    {
        find_id(&self.unvalidated, id).is_some()
    }

    /// Whether the validated partition holds the identifier.
    pub fn contains_validated(&self, id: &String) -> (b: bool)
        ensures
            b == has_id(self@.validated, id@),
    {
        find_id(&self.validated, id).is_some()
    }

    /// Whether the pool holds the identifier, in either partition.
    pub fn contains(&self, id: &String) -> (b: bool)
        ensures
            b == self@.contains(id@),
    {
        self.contains_unvalidated(id) || self.contains_validated(id)
    }

    /// The validated artifact with the identifier, if the pool holds one.
    pub fn get_validated(&self, id: &String) -> (found: Option<&Artifact>)
        requires
            self.wf(),
        ensures
            found.is_some() == has_id(self@.validated, id@),
            found matches Some(a) ==> a@ == self@.validated[index_of(self@.validated, id@)],
    {
        match find_id(&self.validated, id) {
            Some(i) => Some(&self.validated[i]),
            None => None,
        }
    }

    /// A pool that holds the given artifacts as validated, as they were
    /// persisted. An identifier that occurs again is skipped.
    pub fn restore(persisted: &Vec<Artifact>) -> (pool: ArtifactPool)
        ensures
            pool.wf(),
            pool@ == restored(views(persisted@)),
    {
        let ghost s = views(persisted@);
        let mut pool = ArtifactPool::new();
        let mut i: usize = 0;
        assert(s.take(0) =~= Seq::empty());
        while i < persisted.len()
            invariant
                i <= persisted.len(),
                s == views(persisted@),
                pool.wf(),
                pool@ == restored(s.take(i as int)),
            decreases persisted.len() - i,
        {
            proof {
                assert(s.take(i + 1).drop_last() =~= s.take(i as int));
                assert(s.take(i + 1).last() == s[i as int]);
            }
            let _ = pool.apply(&Mutation::AddToValidated(persisted[i].clone()));
            i += 1;
        }
        assert(s.take(i as int) =~= s);
        pool
    }

    /// The newest validated artifact, if any is validated.
    pub fn last_validated(&self) -> (last: Option<&Artifact>)
        ensures
            last.is_some() == (self@.validated.len() > 0),
            last matches Some(a) ==> a@ == self@.validated.last(),
    {
        let n = self.validated.len();
        if n == 0 {
            None
        } else {
            Some(&self.validated[n - 1])
        }
    }

    /// Stores a newly received artifact as unvalidated, unless the pool
    /// already holds its identifier. Returns whether it was stored.
    pub fn insert_unvalidated(&mut self, artifact: Artifact) -> (stored: bool)
        requires
            old(self).wf(),
        ensures
            final(self).wf(),
            final(self)@ == old(self)@.insert_unvalidated(artifact@),
            stored == !old(self)@.contains(artifact@.id),
    {
        if self.contains(&artifact.id) {
            false
        } else {
            proof {
                self@.lemma_insert_unvalidated_wf(artifact@);
            }
            self.unvalidated.push(artifact);
            assert(self@.unvalidated =~= old(self)@.unvalidated.push(artifact@));
            true
        }
    }

    /// Moves the artifact at position `i` of `from` to the end of `to`.
    fn remove_at(from: &mut Vec<Artifact>, i: usize) -> (a: Artifact)
        requires
            i < old(from).len(),
        ensures
            a == old(from)[i as int],
            views(final(from)@) == views(old(from)@).remove(i as int),
    {
        let a = from.remove(i);
        assert(views(from@) =~= views(old(from)@).remove(i as int));
        a
    }

    /// Applies one mutation. Returns whether the pool changed.
    pub fn apply(&mut self, mutation: &Mutation) -> (changed: bool)
        requires
            old(self).wf(),
        ensures
            final(self).wf(),
            final(self)@ == old(self)@.apply(mutation@),
            changed == (final(self)@ != old(self)@),
    {
        proof {
            self@.lemma_apply_wf(mutation@);
        }
        match mutation {
            Mutation::AddToValidated(a) => {
                if self.contains(&a.id) {
                    false
                } else {
                    self.validated.push(a.clone());
                    assert(self@.validated =~= old(self)@.validated.push(a@));
                    assert(self@.validated.len() != old(self)@.validated.len());
                    true
                }
            },
            Mutation::MoveToValidated(id) => {
                match find_id(&self.unvalidated, id) {
                    Some(i) => {
                        let a = Self::remove_at(&mut self.unvalidated, i);
                        self.validated.push(a);
                        assert(self@.validated =~= old(self)@.validated.push(a@));
                        assert(self@.validated.len() != old(self)@.validated.len());
                        true
                    },
                    None => false,
                }
            },
            Mutation::RemoveFromUnvalidated(id) => {
                match find_id(&self.unvalidated, id) {
                    Some(i) => {
                        let _ = Self::remove_at(&mut self.unvalidated, i);
                        assert(self@.unvalidated.len() != old(self)@.unvalidated.len());
                        true
                    },
                    None => false,
                }
            },
            Mutation::RemoveFromValidated(id) => {
                match find_id(&self.validated, id) {
                    Some(i) => {
                        let _ = Self::remove_at(&mut self.validated, i);
                        assert(self@.validated.len() != old(self)@.validated.len());
                        true
                    },
                    None => false,
                }
            },
            Mutation::HandleInvalid(id, _reason) => {
                match find_id(&self.unvalidated, id) {
                    Some(i) => {
                        let _ = Self::remove_at(&mut self.unvalidated, i);
                        assert(self@.unvalidated.len() != old(self)@.unvalidated.len());
                        true
                    },
                    None => false,
                }
            },
        }
    }

    /// Removes the identifier from the pool, whichever partition holds it.
    /// Returns whether the pool held it.
    pub fn purge(&mut self, id: &String) -> (held: bool)
        requires
            old(self).wf(),
        ensures
            final(self).wf(),
            final(self)@ == old(self)@.purge(id@),
            held == old(self)@.contains(id@),
            !final(self)@.contains(id@),
    {
        proof {
            self@.lemma_purge_wf(id@);
        }
        let mut held = false;
        match find_id(&self.unvalidated, id) {
            Some(i) => {
                let _ = Self::remove_at(&mut self.unvalidated, i);
                held = true;
            },
            None => {},
        }
        match find_id(&self.validated, id) {
            Some(i) => {
                let _ = Self::remove_at(&mut self.validated, i);
                held = true;
            },
            None => {},
        }
        held
    }
}

/// A consensus pool cache as a mathematical value.
pub ghost struct CacheView {
    pub catch_up_package: ArtifactView,
    pub finalized_tip: ArtifactView,
}

/// A read-only projection of the consensus pool: the catch-up package
/// that the pool started from and the newest validated artifact. It is a
/// value of its own, so that readers need no access to the pool, and it
/// reflects the validated partition only.
#[derive(Debug)]
pub struct ConsensusPoolCache {
    catch_up_package: Artifact,
    finalized_tip: Artifact,
}

impl View for ConsensusPoolCache {
    type V = CacheView;

    closed spec fn view(&self) -> CacheView {
        CacheView {
            catch_up_package: self.catch_up_package@,
            finalized_tip: self.finalized_tip@,
        }
    }
}

impl Clone for ConsensusPoolCache {
    fn clone(&self) -> (res: Self)
        ensures
            res@ == self@,
    {
        ConsensusPoolCache {
            catch_up_package: self.catch_up_package.clone(),
            finalized_tip: self.finalized_tip.clone(),
        }
    }
}

/// The cache of a pool that started from `catch_up_package`.
pub open spec fn cache_of(pool: PoolView, catch_up_package: ArtifactView) -> CacheView {
    CacheView { catch_up_package, finalized_tip: tip_of(pool.validated, catch_up_package) }
}

/// The cache never reflects unvalidated artifacts: pools with the same
/// validated partition have the same cache, so neither the arrival nor
/// the removal of an unvalidated artifact changes it.
pub proof fn lemma_cache_reflects_validated_only(
    a: PoolView,
    b: PoolView,
    catch_up_package: ArtifactView,
    arrived: ArtifactView,
    id: Seq<char>,
    reason: Seq<char>,
)
    ensures
        a.validated == b.validated ==> cache_of(a, catch_up_package) == cache_of(
            b,
            catch_up_package,
        ),
        cache_of(a.insert_unvalidated(arrived), catch_up_package) == cache_of(a, catch_up_package),
        cache_of(a.apply(MutationView::RemoveFromUnvalidated(id)), catch_up_package) == cache_of(
            a,
            catch_up_package,
        ),
        cache_of(a.apply(MutationView::HandleInvalid(id, reason)), catch_up_package) == cache_of(
            a,
            catch_up_package,
        ),
{
}

impl ConsensusPoolCache {
    /// The cache of `pool`, which started from `catch_up_package`.
    pub fn new(catch_up_package: Artifact, pool: &ArtifactPool) -> (cache: ConsensusPoolCache)
        ensures
            cache@ == cache_of(pool@, catch_up_package@),
    {
        let finalized_tip = match pool.last_validated() {
            Some(a) => a.clone(),
            None => catch_up_package.clone(),
        };
        ConsensusPoolCache { catch_up_package, finalized_tip }
    }

    /// Brings the cache up to date with `pool`. Returns whether the
    /// finalized tip is another artifact than before.
    pub fn refresh(&mut self, pool: &ArtifactPool) -> (changed: bool)
        ensures
            final(self)@ == cache_of(pool@, old(self)@.catch_up_package),
            changed == (final(self)@.finalized_tip.id != old(self)@.finalized_tip.id),
    {
        let tip = match pool.last_validated() {
            Some(a) => a.clone(),
            None => self.catch_up_package.clone(),
        };
        let changed = tip.id != self.finalized_tip.id;
        self.finalized_tip = tip;
        changed
    }

    /// The catch-up package that the pool started from.
    pub fn catch_up_package(&self) -> (a: &Artifact)
        ensures
            a@ == self@.catch_up_package,
    {
        &self.catch_up_package
    }

    /// The newest validated artifact of the pool, as of the last refresh.
    pub fn finalized_tip(&self) -> (a: &Artifact)
        ensures
            a@ == self@.finalized_tip,
    {
        &self.finalized_tip
    }
}

} // verus!
