//! Runs of the pipeline, with the backend's answers written out by hand.

use double_blind::error::{AssertionKind, Error, PipelinePhase};
use double_blind::harvest::{get_all_users, FetchOutcome, MembershipSet, Response};
use double_blind::pipeline::{
    key_field_values, make_assertions, make_identity_request, name_of, open_run, Action, Assertion, Circuit, CompositionRequest, Event,
    IdentityRequest, Pipeline, Settings, Stage,
};
use double_blind::store::{ArtifactStore, Metadata, ProofArtifact, StoreFault};

fn artifact(tag: &str) -> ProofArtifact {
    ProofArtifact {
        payload: format!("{{\"proof\":\"{}\"}}", tag),
        metadata: Metadata {
            params: "{}".to_string(),
            vds_root: format!("\"root-{}\"", tag),
            id: format!("\"id-{}\"", tag),
        },
    }
}

fn group(names: &[&str]) -> MembershipSet {
    let responses: Vec<Response> = names
        .iter()
        .map(|name| Response { username: name.to_string(), outcome: FetchOutcome::Body(String::new()) })
        .collect();
    get_all_users(names.iter().map(|name| name.to_string()).collect(), &responses).unwrap()
}

fn settings(regenerate: bool) -> Settings {
    Settings { regenerate, message: Some("hello".to_string()), expose_signed_message: true }
}

fn expected_assertions(names: &[&str], message: &str, expose: bool) -> Vec<Assertion> {
    let mut assertions = vec![
        Assertion::PublishKeys(vec![]),
        Assertion::PublishUsernames(names.iter().map(|name| name.to_string()).collect()),
        Assertion::SignerInGroup,
        Assertion::PublishMessage(message.to_string()),
    ];
    if expose {
        assertions.push(Assertion::ExposeSignedMessage);
    }
    assertions
}

#[test]
fn the_phases_have_their_own_names() {
    assert_eq!(name_of(PipelinePhase::IdentityProof), "identity-proof");
    assert_eq!(name_of(PipelinePhase::WrappedProof), "wrapped-proof");
    assert_eq!(name_of(PipelinePhase::GroupProof), "group-proof");
}

#[test]
fn stages_belong_to_phases() {
    assert_eq!(Stage::ProvingIdentity.phase(), Some(PipelinePhase::IdentityProof));
    assert_eq!(Stage::VerifyingIdentity.phase(), Some(PipelinePhase::WrappedProof));
    assert_eq!(Stage::WrappingIdentity.phase(), Some(PipelinePhase::WrappedProof));
    assert_eq!(Stage::ComposingGroup.phase(), Some(PipelinePhase::GroupProof));
    assert_eq!(Stage::Finished.phase(), None);
    assert_eq!(Stage::Failed(Error::GroupSizeExceeded).phase(), None);
}

#[test]
fn assertions_have_their_kinds() {
    let kinds: Vec<AssertionKind> =
        expected_assertions(&["alice"], "hello", true).iter().map(|assertion| assertion.kind()).collect();
    assert_eq!(
        kinds,
        vec![
            AssertionKind::PublishKeys,
            AssertionKind::PublishUsernames,
            AssertionKind::SignerInGroup,
            AssertionKind::PublishMessage,
            AssertionKind::ExposeSignedMessage,
        ]
    );
}

#[test]
fn a_key_is_committed_byte_by_byte() {
    assert_eq!(key_field_values(&vec![0, 1, 127, 128, 255]), vec![0u64, 1, 127, 128, 255]);
    assert_eq!(key_field_values(&vec![]), Vec::<u64>::new());
    assert_eq!(key_field_values(&vec![9; 512]).len(), 512);
}

#[test]
fn the_identity_request_is_fixed() {
    assert_eq!(
        make_identity_request(),
        IdentityRequest {
            message: "0xPARC-double-blind".to_string(),
            namespace: "double-blind.xyz".to_string(),
            circuits: vec![Circuit::RecursiveBase, Circuit::EmptyProof, Circuit::IdentityProof],
        }
    );
}

#[test]
fn the_assertions_follow_the_settings() {
    let members = group(&["bob", "alice"]);
    assert_eq!(make_assertions(&members, &settings(true)), expected_assertions(&["alice", "bob"], "hello", true));
    let plain = Settings { regenerate: false, message: None, expose_signed_message: false };
    assert_eq!(
        make_assertions(&members, &plain),
        expected_assertions(&["alice", "bob"], "0xPARC-double-blind", false)
    );
}

#[test]
fn a_regenerating_run_goes_through_all_phases() {
    let run = Pipeline::begin(settings(true), ArtifactStore::new(), group(&["alice"]));
    assert_eq!(run.stage(), Stage::ProvingIdentity);
    assert_eq!(run.action(), Action::ProveIdentity(make_identity_request()));

    let run = run.step(Event::IdentityProved(Some(artifact("identity"))));
    assert_eq!(run.stage(), Stage::VerifyingIdentity);
    assert_eq!(run.action(), Action::Verify(artifact("identity")));
    assert_eq!(run.store().load("identity-proof"), Ok(artifact("identity")));

    let run = run.step(Event::Verified(true));
    assert_eq!(run.stage(), Stage::WrappingIdentity);
    assert_eq!(run.action(), Action::Wrap(artifact("identity")));

    let run = run.step(Event::Wrapped(artifact("wrapped")));
    assert_eq!(run.stage(), Stage::ComposingGroup);
    assert_eq!(
        run.action(),
        Action::Compose(CompositionRequest {
            wrapped: artifact("wrapped"),
            assertions: expected_assertions(&["alice"], "hello", true),
        })
    );
    assert_eq!(run.store().load("wrapped-proof"), Ok(artifact("wrapped")));

    let run = run.step(Event::Composed(Ok(artifact("group"))));
    assert_eq!(run.stage(), Stage::Finished);
    assert_eq!(run.action(), Action::Done(artifact("group")));
    let store = run.into_store();
    assert_eq!(store.load("identity-proof"), Ok(artifact("identity")));
    assert_eq!(store.load("wrapped-proof"), Ok(artifact("wrapped")));
    assert_eq!(store.load("group-proof"), Ok(artifact("group")));
}

#[test]
fn a_run_reuses_the_wrapped_proof() {
    let mut store = ArtifactStore::new();
    store.save("identity-proof", artifact("identity"));
    store.save("wrapped-proof", artifact("wrapped"));
    let run = Pipeline::begin(settings(false), store, group(&["alice"]));
    assert_eq!(run.stage(), Stage::ComposingGroup);
}

#[test]
fn a_run_wraps_the_stored_identity_proof() {
    let mut store = ArtifactStore::new();
    store.save("identity-proof", artifact("identity"));
    let run = Pipeline::begin(settings(false), store, group(&["alice"]));
    assert_eq!(run.stage(), Stage::VerifyingIdentity);
    assert_eq!(run.action(), Action::Verify(artifact("identity")));
}

#[test]
fn a_run_without_an_identity_proof_names_what_is_missing() {
    let run = Pipeline::begin(settings(false), ArtifactStore::new(), group(&["alice"]));
    assert_eq!(run.stage(), Stage::Failed(Error::ArtifactMissing(PipelinePhase::IdentityProof)));
    assert_eq!(run.action(), Action::Fail(Error::ArtifactMissing(PipelinePhase::IdentityProof)));
    assert_eq!(run.store().load("identity-proof"), Err(StoreFault::Missing));
}

#[test]
fn a_corrupt_artifact_fails_the_start() {
    let mut store = ArtifactStore::new();
    store.restore("identity-proof", Some("{}".to_string()), None);
    let run = Pipeline::begin(settings(false), store, group(&["alice"]));
    assert_eq!(run.stage(), Stage::Failed(Error::ArtifactCorrupt(PipelinePhase::IdentityProof)));

    let mut store = ArtifactStore::new();
    store.save("identity-proof", artifact("identity"));
    store.restore("wrapped-proof", None, Some(artifact("wrapped").metadata));
    let run = Pipeline::begin(settings(false), store, group(&["alice"]));
    assert_eq!(run.stage(), Stage::Failed(Error::ArtifactCorrupt(PipelinePhase::WrappedProof)));
}

#[test]
fn a_failed_verification_is_final() {
    let mut store = ArtifactStore::new();
    store.save("identity-proof", artifact("identity"));
    let run = Pipeline::begin(settings(false), store, group(&["alice"]));
    let run = run.step(Event::Verified(false));
    assert_eq!(run.stage(), Stage::Failed(Error::BackendVerificationFailed));
    let run = run.step(Event::IdentityProved(Some(artifact("again"))));
    assert_eq!(run.stage(), Stage::Failed(Error::BackendVerificationFailed));
    let run = run.step(Event::Verified(true));
    assert_eq!(run.action(), Action::Fail(Error::BackendVerificationFailed));
    assert_eq!(run.store().load("identity-proof"), Ok(artifact("identity")));
    assert_eq!(run.store().load("wrapped-proof"), Err(StoreFault::Missing));
}

#[test]
fn an_identity_that_cannot_be_proved_fails_the_run() {
    let run = Pipeline::begin(settings(true), ArtifactStore::new(), group(&["alice"]));
    let run = run.step(Event::IdentityProved(None));
    assert_eq!(run.stage(), Stage::Failed(Error::BackendVerificationFailed));
    assert_eq!(run.store().load("identity-proof"), Err(StoreFault::Missing));
}

#[test]
fn a_rejected_composition_names_the_assertion() {
    let mut store = ArtifactStore::new();
    store.save("wrapped-proof", artifact("wrapped"));
    let run = Pipeline::begin(settings(false), store, group(&["alice"]));
    let run = run.step(Event::Composed(Err(AssertionKind::SignerInGroup)));
    assert_eq!(run.stage(), Stage::Failed(Error::BackendCompositionFailed(AssertionKind::SignerInGroup)));
    assert_eq!(run.store().load("group-proof"), Err(StoreFault::Missing));
    let run = run.step(Event::Composed(Ok(artifact("group"))));
    assert_eq!(run.stage(), Stage::Failed(Error::BackendCompositionFailed(AssertionKind::SignerInGroup)));
    assert_eq!(run.store().load("group-proof"), Err(StoreFault::Missing));
}

#[test]
fn an_answer_to_nothing_that_was_asked_changes_nothing() {
    let run = Pipeline::begin(settings(true), ArtifactStore::new(), group(&["alice"]));
    let run = run.step(Event::Verified(true));
    assert_eq!(run.stage(), Stage::ProvingIdentity);
    let run = run.step(Event::Composed(Ok(artifact("group"))));
    assert_eq!(run.stage(), Stage::ProvingIdentity);
    let run = run.step(Event::Wrapped(artifact("wrapped")));
    assert_eq!(run.stage(), Stage::ProvingIdentity);
    assert_eq!(run.store().load("wrapped-proof"), Err(StoreFault::Missing));
    assert_eq!(run.store().load("group-proof"), Err(StoreFault::Missing));
}

#[test]
fn a_regenerating_run_replaces_what_the_store_held() {
    let mut store = ArtifactStore::new();
    store.save("identity-proof", artifact("old"));
    store.save("wrapped-proof", artifact("old-wrapped"));
    let run = Pipeline::begin(settings(true), store, group(&["alice"]));
    assert_eq!(run.stage(), Stage::ProvingIdentity);
    let run = run.step(Event::IdentityProved(Some(artifact("new"))));
    assert_eq!(run.action(), Action::Verify(artifact("new")));
    let run = run.step(Event::Verified(true)).step(Event::Wrapped(artifact("new-wrapped")));
    assert_eq!(run.store().load("wrapped-proof"), Ok(artifact("new-wrapped")));
}

#[test]
fn a_run_opens_on_the_harvested_group() {
    let responses = vec![Response { username: "alice".to_string(), outcome: FetchOutcome::Body(String::new()) }];
    let run = open_run(settings(true), ArtifactStore::new(), vec!["bob".to_string(), "alice".to_string()], &responses)
        .ok()
        .unwrap();
    assert_eq!(run.stage(), Stage::ProvingIdentity);
    assert_eq!(run.membership().usernames(), &vec!["alice".to_string()]);
    assert_eq!(run.membership().skipped(), &vec!["bob".to_string()]);
    assert_eq!(run.membership().record(), "[]");
}

#[test]
fn a_malformed_answer_skips_the_member_and_starts_the_run() {
    let responses = vec![Response { username: "alice".to_string(), outcome: FetchOutcome::Body("ssh-rsa".to_string()) }];
    let mut store = ArtifactStore::new();
    store.save("wrapped-proof", artifact("wrapped"));
    let run = open_run(settings(false), store, vec!["alice".to_string()], &responses).ok().unwrap();
    assert_eq!(run.stage(), Stage::ComposingGroup);
    assert_eq!(run.membership().skipped(), &vec!["alice".to_string()]);
    assert!(run.membership().usernames().is_empty());
}
