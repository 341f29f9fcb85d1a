//! The construction pipeline: a machine over the three phases.
//!
//! The proof backend is not part of the library. The machine says what to
//! ask of it next (`Action`), takes what it answered (`Event`), and keeps
//! every phase's artifact in the store. Phases only move forward; a failure
//! is final.

use vstd::prelude::*;
use crate::copying::{copy_rows, copy_texts};
use crate::error::{AssertionKind, Error, PipelinePhase};
use crate::harvest::{get_all_users, group_of, GroupView, MembershipSet, Response, MAX_GROUP_SIZE};
use crate::store::{
    complete,
    loaded,
    ArtifactStore,
    ArtifactView,
    ProofArtifact,
    SlotView,
    StoreFault,
};

verus! {

/// The name under which a phase's artifact is stored.
pub open spec fn artifact_name(phase: PipelinePhase) -> Seq<char> {
    match phase {
        PipelinePhase::IdentityProof => "identity-proof"@,
        PipelinePhase::WrappedProof => "wrapped-proof"@,
        PipelinePhase::GroupProof => "group-proof"@,
    }
}

/// The name under which a phase's artifact is stored.
pub fn name_of(phase: PipelinePhase) -> (name: &'static str)
    ensures
        name@ == artifact_name(phase),
{
    match phase {
        PipelinePhase::IdentityProof => "identity-proof",
        PipelinePhase::WrappedProof => "wrapped-proof",
        PipelinePhase::GroupProof => "group-proof",
    }
}

/// The three phases store their artifacts under different names.
pub proof fn lemma_names_differ(a: PipelinePhase, b: PipelinePhase)
    requires
        a != b,
    ensures
        artifact_name(a) != artifact_name(b),
{
    reveal_strlit("identity-proof");
    reveal_strlit("wrapped-proof");
    reveal_strlit("group-proof");
    assert("identity-proof"@.len() == 14);
    assert("wrapped-proof"@.len() == 13);
    assert("group-proof"@.len() == 11);
}

/// A circuit whose proofs the composed artifact may depend on.
#[derive(Debug, Clone, Copy, PartialEq, Eq, Structural)]
pub enum Circuit {
    RecursiveBase,
    EmptyProof,
    IdentityProof,
}

/// What the backend is asked to prove in the first phase.
#[derive(Debug, Clone, PartialEq, Eq)]
pub struct IdentityRequest {
    /// The message that the operator's signature is over.
    pub message: String,
    /// The namespace that the signature is bound to.
    pub namespace: String,
    /// The trusted circuits of the verification-data set.
    pub circuits: Vec<Circuit>,
}

/// The mathematical content of an `IdentityRequest`.
pub struct IdentityRequestView {
    pub message: Seq<char>,
    pub namespace: Seq<char>,
    pub circuits: Seq<Circuit>,
}

impl View for IdentityRequest {
    type V = IdentityRequestView;

    open spec fn view(&self) -> IdentityRequestView {
        IdentityRequestView {
            message: self.message@,
            namespace: self.namespace@,
            circuits: self.circuits@,
        }
    }
}

/// The one identity request there is.
pub open spec fn identity_request() -> IdentityRequestView {
    IdentityRequestView {
        message: "0xPARC-double-blind"@,
        namespace: "double-blind.xyz"@,
        circuits: seq![Circuit::RecursiveBase, Circuit::EmptyProof, Circuit::IdentityProof],
    }
}

/// One assertion of a composition request.
#[derive(Debug, Clone, PartialEq, Eq)]
pub enum Assertion {
    /// A new entry `public_keys`: the set of the commitments to these keys.
    PublishKeys(Vec<Vec<u8>>),
    /// A new entry `usernames`: these names, in this order.
    PublishUsernames(Vec<String>),
    /// The output `rsa_pk` of the wrapped proof is an element of the entry
    /// `public_keys`.
    SignerInGroup,
    /// A new entry `message`: this text.
    PublishMessage(String),
    /// The output `signed_msg` of the wrapped proof, copied unchanged.
    ExposeSignedMessage,
}

/// The mathematical content of an `Assertion`.
pub enum AssertionView {
    PublishKeys(Seq<Seq<u8>>),
    PublishUsernames(Seq<Seq<char>>),
    SignerInGroup,
    PublishMessage(Seq<char>),
    ExposeSignedMessage,
}

impl View for Assertion {
    type V = AssertionView;

    open spec fn view(&self) -> AssertionView {
        match *self {
            Assertion::PublishKeys(keys) => AssertionView::PublishKeys(keys.deep_view()),
            Assertion::PublishUsernames(names) => AssertionView::PublishUsernames(
                names.deep_view(),
            ),
            Assertion::SignerInGroup => AssertionView::SignerInGroup,
            Assertion::PublishMessage(text) => AssertionView::PublishMessage(text@),
            Assertion::ExposeSignedMessage => AssertionView::ExposeSignedMessage,
        }
    }
}

/// Which assertion `a` is.
pub open spec fn kind_of(a: AssertionView) -> AssertionKind {
    match a {
        AssertionView::PublishKeys(_) => AssertionKind::PublishKeys,
        AssertionView::PublishUsernames(_) => AssertionKind::PublishUsernames,
        AssertionView::SignerInGroup => AssertionKind::SignerInGroup,
        AssertionView::PublishMessage(_) => AssertionKind::PublishMessage,
        AssertionView::ExposeSignedMessage => AssertionKind::ExposeSignedMessage,
    }
}

impl Assertion {
    /// Which assertion this is.
    pub fn kind(&self) -> (kind: AssertionKind)
        ensures
            kind == kind_of(self@),
    {
        match self {
            Assertion::PublishKeys(_) => AssertionKind::PublishKeys,
            Assertion::PublishUsernames(_) => AssertionKind::PublishUsernames,
            Assertion::SignerInGroup => AssertionKind::SignerInGroup,
            Assertion::PublishMessage(_) => AssertionKind::PublishMessage,
            Assertion::ExposeSignedMessage => AssertionKind::ExposeSignedMessage,
        }
    }
}

/// The values that stand for a key where the backend commits to it: one
/// field element for each byte, in order, holding the byte's value.
pub open spec fn field_values(key: Seq<u8>) -> Seq<u64> {
    Seq::new(key.len(), |i: int| key[i] as u64)
}

/// Maps a key to the field elements that the backend commits to.
pub fn key_field_values(key: &Vec<u8>) -> (values: Vec<u64>)
    ensures
        values@ == field_values(key@),
{
    let mut values: Vec<u64> = Vec::new();
    let mut i: usize = 0;
    while i < key.len()
        invariant
            i <= key.len(),
            values.len() == i,
            forall|j: int| 0 <= j < i ==> values@[j] == key@[j] as u64,
        decreases key.len() - i,
    {
        values.push(key[i] as u64);
        i = i + 1;
    }
    assert(values@ =~= field_values(key@));
    values
}

/// What the backend is asked to compose in the last phase.
#[derive(Debug, Clone, PartialEq, Eq)]
pub struct CompositionRequest {
    /// The wrapped identity proof that the composition depends on.
    pub wrapped: ProofArtifact,
    /// The assertions, in the order in which they are made.
    pub assertions: Vec<Assertion>,
}

/// The mathematical content of a `CompositionRequest`.
pub struct CompositionRequestView {
    pub wrapped: ArtifactView,
    pub assertions: Seq<AssertionView>,
}

impl View for CompositionRequest {
    type V = CompositionRequestView;

    open spec fn view(&self) -> CompositionRequestView {
        CompositionRequestView {
            wrapped: self.wrapped@,
            assertions: Seq::new(self.assertions@.len(), |i: int| self.assertions@[i]@),
        }
    }
}

/// How a run is to go.
#[derive(Debug, Clone, PartialEq, Eq)]
pub struct Settings {
    /// Whether the identity proof and its wrapped form are made anew.
    pub regenerate: bool,
    /// The message to bind; without one, the message of the identity proof.
    pub message: Option<String>,
    /// Whether the signed-message output of the identity proof is exposed.
    pub expose_signed_message: bool,
}

/// The mathematical content of a `Settings`.
pub struct SettingsView {
    pub regenerate: bool,
    pub message: Option<Seq<char>>,
    pub expose_signed_message: bool,
}

impl View for Settings {
    type V = SettingsView;

    open spec fn view(&self) -> SettingsView {
        SettingsView {
            regenerate: self.regenerate,
            message: match self.message {
                Some(text) => Some(text@),
                None => None,
            },
            expose_signed_message: self.expose_signed_message,
        }
    }
}

/// The message that a run binds.
pub open spec fn bound_message(settings: SettingsView) -> Seq<char> {
    match settings.message {
        Some(text) => text,
        None => "0xPARC-double-blind"@,
    }
}

/// The assertions of the composition request for a group.
pub open spec fn assertions_of(group: GroupView, settings: SettingsView) -> Seq<AssertionView> {
    let fixed = seq![
        AssertionView::PublishKeys(group.keys),
        AssertionView::PublishUsernames(group.members),
        AssertionView::SignerInGroup,
        AssertionView::PublishMessage(bound_message(settings)),
    ];
    if settings.expose_signed_message {
        fixed.push(AssertionView::ExposeSignedMessage)
    } else {
        fixed
    }
}

/// Where a run stands.
#[derive(Debug, Clone, Copy, PartialEq, Eq, Structural)]
pub enum Stage {
    /// First phase: the backend is asked for the identity proof.
    ProvingIdentity,
    /// Second phase: the backend is asked to verify the stored identity proof.
    VerifyingIdentity,
    /// Second phase: the backend is asked to wrap the verified identity proof.
    WrappingIdentity,
    /// Third phase: the backend is asked to compose the group proof.
    ComposingGroup,
    /// The group proof is stored.
    Finished,
    /// The run has failed for good.
    Failed(Error),
}

/// The phase that a stage belongs to, if the run is still under way.
pub open spec fn phase_of(stage: Stage) -> Option<PipelinePhase> {
    match stage {
        Stage::ProvingIdentity => Some(PipelinePhase::IdentityProof),
        Stage::VerifyingIdentity => Some(PipelinePhase::WrappedProof),
        Stage::WrappingIdentity => Some(PipelinePhase::WrappedProof),
        Stage::ComposingGroup => Some(PipelinePhase::GroupProof),
        Stage::Finished => None,
        Stage::Failed(_) => None,
    }
}

impl Stage {
    /// The phase that this stage belongs to, if the run is still under way.
    pub fn phase(self) -> (phase: Option<PipelinePhase>)
        ensures
            phase == phase_of(self),
    {
        match self {
            Stage::ProvingIdentity => Some(PipelinePhase::IdentityProof),
            Stage::VerifyingIdentity => Some(PipelinePhase::WrappedProof),
            Stage::WrappingIdentity => Some(PipelinePhase::WrappedProof),
            Stage::ComposingGroup => Some(PipelinePhase::GroupProof),
            Stage::Finished => None,
            Stage::Failed(_) => None,
        }
    }
}

/// How far a stage is along the run.
pub open spec fn progress(stage: Stage) -> int {
    match stage {
        Stage::ProvingIdentity => 0,
        Stage::VerifyingIdentity => 1,
        Stage::WrappingIdentity => 2,
        Stage::ComposingGroup => 3,
        Stage::Finished => 4,
        Stage::Failed(_) => 5,
    }
}

/// What the backend answered.
#[derive(Debug, PartialEq, Eq)]
pub enum Event {
    /// The answer to `ProveIdentity`: the proof, or nothing when the
    /// signature did not verify.
    IdentityProved(Option<ProofArtifact>),
    /// The answer to `Verify`.
    Verified(bool),
    /// The answer to `Wrap`.
    Wrapped(ProofArtifact),
    /// The answer to `Compose`: the group proof, or the assertion that was
    /// not satisfied.
    Composed(Result<ProofArtifact, AssertionKind>),
}

/// The mathematical content of an `Event`.
pub enum EventView {
    IdentityProved(Option<ArtifactView>),
    Verified(bool),
    Wrapped(ArtifactView),
    Composed(Result<ArtifactView, AssertionKind>),
}

impl View for Event {
    type V = EventView;

    open spec fn view(&self) -> EventView {
        match *self {
            Event::IdentityProved(Some(a)) => EventView::IdentityProved(Some(a@)),
            Event::IdentityProved(None) => EventView::IdentityProved(None),
            Event::Verified(ok) => EventView::Verified(ok),
            Event::Wrapped(a) => EventView::Wrapped(a@),
            Event::Composed(Ok(a)) => EventView::Composed(Ok(a@)),
            Event::Composed(Err(kind)) => EventView::Composed(Err(kind)),
        }
    }
}

/// What is to be done next.
#[derive(Debug, Clone, PartialEq, Eq)]
pub enum Action {
    /// Ask the backend for the identity proof.
    ProveIdentity(IdentityRequest),
    /// Ask the backend to verify this artifact.
    Verify(ProofArtifact),
    /// Ask the backend to wrap this artifact.
    Wrap(ProofArtifact),
    /// Ask the backend to compose the group proof.
    Compose(CompositionRequest),
    /// The run is done; this is the group proof.
    Done(ProofArtifact),
    /// The run has failed.
    Fail(Error),
}

/// The mathematical content of an `Action`.
pub enum ActionView {
    ProveIdentity(IdentityRequestView),
    Verify(ArtifactView),
    Wrap(ArtifactView),
    Compose(CompositionRequestView),
    Done(ArtifactView),
    Fail(Error),
}

impl View for Action {
    type V = ActionView;

    open spec fn view(&self) -> ActionView {
        match *self {
            Action::ProveIdentity(request) => ActionView::ProveIdentity(request@),
            Action::Verify(a) => ActionView::Verify(a@),
            Action::Wrap(a) => ActionView::Wrap(a@),
            Action::Compose(request) => ActionView::Compose(request@),
            Action::Done(a) => ActionView::Done(a@),
            Action::Fail(e) => ActionView::Fail(e),
        }
    }
}

/// The mathematical content of a run.
pub struct PipelineView {
    pub stage: Stage,
    pub store: Map<Seq<char>, SlotView>,
    pub group: GroupView,
    pub settings: SettingsView,
}

/// Whether the store holds what the stage works on.
pub open spec fn stage_is_sound(stage: Stage, store: Map<Seq<char>, SlotView>) -> bool {
    match stage {
        Stage::VerifyingIdentity | Stage::WrappingIdentity => loaded(
            store,
            artifact_name(PipelinePhase::IdentityProof),
        ) is Ok,
        Stage::ComposingGroup => loaded(store, artifact_name(PipelinePhase::WrappedProof)) is Ok,
        Stage::Finished => loaded(store, artifact_name(PipelinePhase::GroupProof)) is Ok,
        _ => true,
    }
}

/// The stage at which a run starts.
///
/// A run that regenerates starts with the first phase. Any other run
/// reuses the wrapped proof if the store holds one, and else wraps the
/// stored identity proof; without either it fails and names the identity
/// proof as the artifact to generate.
pub open spec fn first_stage(settings: SettingsView, store: Map<Seq<char>, SlotView>) -> Stage {
    if settings.regenerate {
        Stage::ProvingIdentity
    } else {
        match loaded(store, artifact_name(PipelinePhase::WrappedProof)) {
            Ok(_) => Stage::ComposingGroup,
            Err(StoreFault::Corrupt) => Stage::Failed(
                Error::ArtifactCorrupt(PipelinePhase::WrappedProof),
            ),
            Err(StoreFault::Missing) => match loaded(
                store,
                artifact_name(PipelinePhase::IdentityProof),
            ) {
                Ok(_) => Stage::VerifyingIdentity,
                Err(StoreFault::Corrupt) => Stage::Failed(
                    Error::ArtifactCorrupt(PipelinePhase::IdentityProof),
                ),
                Err(StoreFault::Missing) => Stage::Failed(
                    Error::ArtifactMissing(PipelinePhase::IdentityProof),
                ),
            },
        }
    }
}

/// The run in which `e` answers what `p` asked for. An event that answers
/// nothing that was asked changes nothing.
pub open spec fn next(p: PipelineView, e: EventView) -> PipelineView {
    match (p.stage, e) {
        (Stage::ProvingIdentity, EventView::IdentityProved(Some(a))) => PipelineView {
            stage: Stage::VerifyingIdentity,
            store: p.store.insert(artifact_name(PipelinePhase::IdentityProof), complete(a)),
            ..p
        },
        (Stage::ProvingIdentity, EventView::IdentityProved(None)) => PipelineView {
            stage: Stage::Failed(Error::BackendVerificationFailed),
            ..p
        },
        (Stage::VerifyingIdentity, EventView::Verified(true)) => PipelineView {
            stage: Stage::WrappingIdentity,
            ..p
        },
        (Stage::VerifyingIdentity, EventView::Verified(false)) => PipelineView {
            stage: Stage::Failed(Error::BackendVerificationFailed),
            ..p
        },
        (Stage::WrappingIdentity, EventView::Wrapped(a)) => PipelineView {
            stage: Stage::ComposingGroup,
            store: p.store.insert(artifact_name(PipelinePhase::WrappedProof), complete(a)),
            ..p
        },
        (Stage::ComposingGroup, EventView::Composed(Ok(a))) => PipelineView {
            stage: Stage::Finished,
            store: p.store.insert(artifact_name(PipelinePhase::GroupProof), complete(a)),
            ..p
        },
        (Stage::ComposingGroup, EventView::Composed(Err(kind))) => PipelineView {
            stage: Stage::Failed(Error::BackendCompositionFailed(kind)),
            ..p
        },
        _ => p,
    }
}

/// What a run asks for.
pub open spec fn action_of(p: PipelineView) -> ActionView {
    match p.stage {
        Stage::ProvingIdentity => ActionView::ProveIdentity(identity_request()),
        Stage::VerifyingIdentity => ActionView::Verify(
            loaded(p.store, artifact_name(PipelinePhase::IdentityProof))->Ok_0,
        ),
        Stage::WrappingIdentity => ActionView::Wrap(
            loaded(p.store, artifact_name(PipelinePhase::IdentityProof))->Ok_0,
        ),
        Stage::ComposingGroup => ActionView::Compose(
            CompositionRequestView {
                wrapped: loaded(p.store, artifact_name(PipelinePhase::WrappedProof))->Ok_0,
                assertions: assertions_of(p.group, p.settings),
            },
        ),
        Stage::Finished => ActionView::Done(
            loaded(p.store, artifact_name(PipelinePhase::GroupProof))->Ok_0,
        ),
        Stage::Failed(e) => ActionView::Fail(e),
    }
}

/// A run never goes back: no event takes it to an earlier stage.
pub proof fn lemma_forward_only(p: PipelineView, e: EventView)
    ensures
        progress(next(p, e).stage) >= progress(p.stage),
{
}

/// A run that is finished or has failed stays as it is, whatever comes.
pub proof fn lemma_settled_stays(p: PipelineView, e: EventView)
    requires
        p.stage is Finished || p.stage is Failed,
    ensures
        next(p, e) == p,
{
}

/// A step that fails writes nothing.
pub proof fn lemma_failure_writes_nothing(p: PipelineView, e: EventView)
    requires
        next(p, e).stage is Failed,
    ensures
        next(p, e).store == p.store,
{
}

/// A step changes neither the group nor the settings.
pub proof fn lemma_group_is_fixed(p: PipelineView, e: EventView)
    ensures
        next(p, e).group == p.group,
        next(p, e).settings == p.settings,
{
}

/// The group proof is composed exactly when the backend accepts the
/// composition, and a rejection fails the run for the assertion that the
/// backend names.
pub proof fn lemma_composition_outcome(p: PipelineView, answer: Result<ArtifactView, AssertionKind>)
    requires
        p.stage is ComposingGroup,
    ensures
        next(p, EventView::Composed(answer)).stage is Finished <==> answer is Ok,
        answer is Err ==> next(p, EventView::Composed(answer)).stage == Stage::Failed(
            Error::BackendCompositionFailed(answer->Err_0),
        ),
{
}

/// Every step keeps in the store what the new stage works on.
pub proof fn lemma_next_is_sound(p: PipelineView, e: EventView)
    requires
        stage_is_sound(p.stage, p.store),
    ensures
        stage_is_sound(next(p, e).stage, next(p, e).store),
{
    lemma_names_differ(PipelinePhase::IdentityProof, PipelinePhase::WrappedProof);
    lemma_names_differ(PipelinePhase::IdentityProof, PipelinePhase::GroupProof);
    lemma_names_differ(PipelinePhase::WrappedProof, PipelinePhase::GroupProof);
}

/// A run of the pipeline.
///
/// A value of this type always holds in its store what its stage works on.
pub struct Pipeline {
    stage: Stage,
    store: ArtifactStore,
    membership: MembershipSet,
    settings: Settings,
}

impl View for Pipeline {
    type V = PipelineView;

    closed spec fn view(&self) -> PipelineView {
        PipelineView {
            stage: self.stage,
            store: self.store@,
            group: self.membership@,
            settings: self.settings@,
        }
    }
}

/// Builds the identity request.
pub fn make_identity_request() -> (request: IdentityRequest)
    ensures
        request@ == identity_request(),
{
    let mut circuits: Vec<Circuit> = Vec::new();
    circuits.push(Circuit::RecursiveBase);
    circuits.push(Circuit::EmptyProof);
    circuits.push(Circuit::IdentityProof);
    assert(circuits@ =~= seq![Circuit::RecursiveBase, Circuit::EmptyProof, Circuit::IdentityProof]);
    IdentityRequest {
        message: "0xPARC-double-blind".to_owned(),
        namespace: "double-blind.xyz".to_owned(),
        circuits,
    }
}

/// Builds the assertions of the composition request for a group.
pub fn make_assertions(membership: &MembershipSet, settings: &Settings) -> (assertions: Vec<
    Assertion,
>)
    ensures
        Seq::new(assertions@.len(), |i: int| assertions@[i]@) == assertions_of(
            membership@,
            settings@,
        ),
{
    let message = match &settings.message {
        Some(text) => text.clone(),
        None => "0xPARC-double-blind".to_owned(),
    };
    let mut assertions: Vec<Assertion> = Vec::new();
    assertions.push(Assertion::PublishKeys(copy_rows(membership.keys())));
    assertions.push(Assertion::PublishUsernames(copy_texts(membership.usernames())));
    assertions.push(Assertion::SignerInGroup);
    assertions.push(Assertion::PublishMessage(message));
    if settings.expose_signed_message {
        assertions.push(Assertion::ExposeSignedMessage);
    }
    assert(Seq::new(assertions@.len(), |i: int| assertions@[i]@) =~= assertions_of(
        membership@,
        settings@,
    ));
    assertions
}

impl Pipeline {
    #[verifier::type_invariant]
    spec fn inv(self) -> bool {
        stage_is_sound(self.stage, self.store@)
    }

    /// Starts a run for a group, on what the store holds.
    pub fn begin(settings: Settings, store: ArtifactStore, membership: MembershipSet) -> (run:
        Pipeline)
        ensures
            run@ == (PipelineView {
                stage: first_stage(settings@, store@),
                store: store@,
                group: membership@,
                settings: settings@,
            }),
    {
        let stage = if settings.regenerate {
            Stage::ProvingIdentity
        } else {
            match store.load(name_of(PipelinePhase::WrappedProof)) {
                Ok(_) => Stage::ComposingGroup,
                Err(StoreFault::Corrupt) => Stage::Failed(
                    Error::ArtifactCorrupt(PipelinePhase::WrappedProof),
                ),
                Err(StoreFault::Missing) => match store.load(name_of(PipelinePhase::IdentityProof)) {
                    Ok(_) => Stage::VerifyingIdentity,
                    Err(StoreFault::Corrupt) => Stage::Failed(
                        Error::ArtifactCorrupt(PipelinePhase::IdentityProof),
                    ),
                    Err(StoreFault::Missing) => Stage::Failed(
                        Error::ArtifactMissing(PipelinePhase::IdentityProof),
                    ),
                },
            }
        };
        Pipeline { stage, store, membership, settings }
    }

    /// Where the run stands.
    pub fn stage(&self) -> (stage: Stage)
        ensures
            stage == self@.stage,
            stage_is_sound(self@.stage, self@.store),
    {
        proof {
            use_type_invariant(self);
        }
        self.stage
    }

    /// The store of the run.
    pub fn store(&self) -> (store: &ArtifactStore)
        ensures
            store@ == self@.store,
    {
        &self.store
    }

    /// The group of the run.
    pub fn membership(&self) -> (membership: &MembershipSet)
        ensures
            membership@ == self@.group,
    {
        &self.membership
    }

    /// Ends the run and hands out its store.
    pub fn into_store(self) -> (store: ArtifactStore)
        ensures
            store@ == self@.store,
    {
        self.store
    }

    /// What is to be done next.
    pub fn action(&self) -> (action: Action)
        ensures
            action@ == action_of(self@),
    {
        proof {
            use_type_invariant(self);
        }
        match self.stage {
            Stage::ProvingIdentity => Action::ProveIdentity(make_identity_request()),
            Stage::VerifyingIdentity => {
                match self.store.load(name_of(PipelinePhase::IdentityProof)) {
                    Ok(artifact) => Action::Verify(artifact),
                    Err(_) => Action::Fail(Error::ArtifactMissing(PipelinePhase::IdentityProof)),
                }
            },
            Stage::WrappingIdentity => {
                match self.store.load(name_of(PipelinePhase::IdentityProof)) {
                    Ok(artifact) => Action::Wrap(artifact),
                    Err(_) => Action::Fail(Error::ArtifactMissing(PipelinePhase::IdentityProof)),
                }
            },
            Stage::ComposingGroup => {
                match self.store.load(name_of(PipelinePhase::WrappedProof)) {
                    Ok(wrapped) => Action::Compose(
                        CompositionRequest {
                            wrapped,
                            assertions: make_assertions(&self.membership, &self.settings),
                        },
                    ),
                    Err(_) => Action::Fail(Error::ArtifactMissing(PipelinePhase::WrappedProof)),
                }
            },
            Stage::Finished => {
                match self.store.load(name_of(PipelinePhase::GroupProof)) {
                    Ok(artifact) => Action::Done(artifact),
                    Err(_) => Action::Fail(Error::ArtifactMissing(PipelinePhase::GroupProof)),
                }
            },
            Stage::Failed(e) => Action::Fail(e),
        }
    }

    /// Takes what the backend answered and gives the run that follows.
    pub fn step(self, event: Event) -> (run: Pipeline)
        ensures
            run@ == next(self@, event@),
    {
        proof {
            use_type_invariant(&self);
            lemma_names_differ(PipelinePhase::IdentityProof, PipelinePhase::WrappedProof);
            lemma_names_differ(PipelinePhase::IdentityProof, PipelinePhase::GroupProof);
            lemma_names_differ(PipelinePhase::WrappedProof, PipelinePhase::GroupProof);
        }
        let Pipeline { stage, store, membership, settings } = self;
        let mut store = store;
        let stage = match (stage, event) {
            (Stage::ProvingIdentity, Event::IdentityProved(Some(artifact))) => {
                store.save(name_of(PipelinePhase::IdentityProof), artifact);
                Stage::VerifyingIdentity
            },
            (Stage::ProvingIdentity, Event::IdentityProved(None)) => Stage::Failed(
                Error::BackendVerificationFailed,
            ),
            (Stage::VerifyingIdentity, Event::Verified(true)) => Stage::WrappingIdentity,
            (Stage::VerifyingIdentity, Event::Verified(false)) => Stage::Failed(
                Error::BackendVerificationFailed,
            ),
            (Stage::WrappingIdentity, Event::Wrapped(artifact)) => {
                store.save(name_of(PipelinePhase::WrappedProof), artifact);
                Stage::ComposingGroup
            },
            (Stage::ComposingGroup, Event::Composed(Ok(artifact))) => {
                store.save(name_of(PipelinePhase::GroupProof), artifact);
                Stage::Finished
            },
            (Stage::ComposingGroup, Event::Composed(Err(kind))) => Stage::Failed(
                Error::BackendCompositionFailed(kind),
            ),
            (stage, _) => stage,
        };
        Pipeline { stage, store, membership, settings }
    }
}

/// Harvests the group and starts a run for it.
///
/// A group of more than `MAX_GROUP_SIZE` keys starts no run: the store
/// comes back as it was handed in, with nothing written to it.
pub fn open_run(
    settings: Settings,
    store: ArtifactStore,
    list_usernames: Vec<String>,
    responses: &Vec<Response>,
) -> (r: Result<Pipeline, (Error, ArtifactStore)>)
    ensures
        ({
            let g = group_of(list_usernames.deep_view(), responses@);
            match r {
                Ok(run) => g.keys.len() <= MAX_GROUP_SIZE && run@ == (PipelineView {
                    stage: first_stage(settings@, store@),
                    store: store@,
                    group: g,
                    settings: settings@,
                }),
                Err((e, unchanged)) => g.keys.len() > MAX_GROUP_SIZE && e
                    == Error::GroupSizeExceeded && unchanged@ == store@,
            }
        }),
{
    match get_all_users(list_usernames, responses) {
        Ok(membership) => Ok(Pipeline::begin(settings, store, membership)),
        Err(e) => Err((e, store)),
    }
}

} // verus!
