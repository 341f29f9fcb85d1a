//! The failures the library reports.

use vstd::prelude::*;

verus! {

/// The three construction phases, in the order they run.
#[derive(Debug, Clone, Copy, PartialEq, Eq, Structural)]
pub enum PipelinePhase {
    IdentityProof,
    WrappedProof,
    GroupProof,
}

/// Why a request to the key directory produced no key list.
#[derive(Debug, Clone, Copy, PartialEq, Eq, Structural)]
pub enum FetchFault {
    /// The request could not be made or was never answered.
    Transport,
    /// The directory answered with a non-success status.
    Status,
    /// The answer arrived but its body could not be read as text.
    Body,
}

/// Which text failed to parse.
#[derive(Debug, Clone, Copy, PartialEq, Eq, Structural)]
pub enum ParseFault {
    /// A key-list entry carries the RSA tag but no key data.
    KeyList,
    /// A single-line key text is not a well-formed public key.
    KeyText,
    /// The operator's signature is not a well-formed signature.
    Signature,
}

/// Why a well-formed public key is not usable as a member key.
#[derive(Debug, Clone, Copy, PartialEq, Eq, Structural)]
pub enum KeyFault {
    WrongAlgorithm,
    WrongModulusSize,
    MalformedEncoding,
}

/// The assertions of a group-proof composition request.
#[derive(Debug, Clone, Copy, PartialEq, Eq, Structural)]
pub enum AssertionKind {
    /// Publishes the membership commitment.
    PublishKeys,
    /// Publishes the ordered member names.
    PublishUsernames,
    /// The signer's committed key is an element of the membership commitment.
    SignerInGroup,
    /// Publishes the bound message.
    PublishMessage,
    /// Re-exposes the signed-message output of the identity proof.
    ExposeSignedMessage,
}

/// Every failure the library reports.
#[derive(Debug, Clone, Copy, PartialEq, Eq, Structural)]
pub enum Error {
    DirectoryFetch(FetchFault),
    KeyParse(ParseFault),
    KeyValidation(KeyFault),
    GroupSizeExceeded,
    ArtifactMissing(PipelinePhase),
    ArtifactCorrupt(PipelinePhase),
    BackendVerificationFailed,
    BackendCompositionFailed(AssertionKind),
    SubmissionTransport,
}

/// What the operator is told about a failure, and what to do about it.
pub open spec fn message_of(e: Error) -> Seq<char> {
    match e {
        Error::DirectoryFetch(FetchFault::Transport) => "Request error: the key directory could not be reached."@,
        Error::DirectoryFetch(FetchFault::Status) => "Request failed. Check Internet connection."@,
        Error::DirectoryFetch(FetchFault::Body) => "Error reading the keys. Check the username again."@,
        Error::KeyParse(ParseFault::KeyList) => "Could not read the keys. Check the formatting."@,
        Error::KeyParse(ParseFault::KeyText) => "Failed to parse SSH key."@,
        Error::KeyParse(ParseFault::Signature) => "Failed to parse the signature file."@,
        Error::KeyValidation(KeyFault::WrongAlgorithm) => "The key is not an RSA key."@,
        Error::KeyValidation(KeyFault::WrongModulusSize) => "Public key was not the correct size."@,
        Error::KeyValidation(KeyFault::MalformedEncoding) => "Public key was not a positive number."@,
        Error::GroupSizeExceeded => "Too many keys in the group. Maximum is 300."@,
        Error::ArtifactMissing(PipelinePhase::IdentityProof) => "Artifact missing: identity-proof. Run again with the generate option."@,
        Error::ArtifactMissing(PipelinePhase::WrappedProof) => "Artifact missing: wrapped-proof. Run again with the generate option."@,
        Error::ArtifactMissing(PipelinePhase::GroupProof) => "Artifact missing: group-proof. Run the composition again."@,
        Error::ArtifactCorrupt(PipelinePhase::IdentityProof) => "Artifact corrupt: identity-proof. Run again with the generate option."@,
        Error::ArtifactCorrupt(PipelinePhase::WrappedProof) => "Artifact corrupt: wrapped-proof. Run again with the generate option."@,
        Error::ArtifactCorrupt(PipelinePhase::GroupProof) => "Artifact corrupt: group-proof. Run the composition again."@,
        Error::BackendVerificationFailed => "The identity proof did not verify. Check that the signature is valid and matches the namespace and message."@,
        Error::BackendCompositionFailed(AssertionKind::PublishKeys) => "Failed to add the public keys set."@,
        Error::BackendCompositionFailed(AssertionKind::PublishUsernames) => "Failed to add the usernames array."@,
        Error::BackendCompositionFailed(AssertionKind::SignerInGroup) => "Failed to show that the signer is in the group. Check that your username is among the usernames provided."@,
        Error::BackendCompositionFailed(AssertionKind::PublishMessage) => "Failed to add the message."@,
        Error::BackendCompositionFailed(AssertionKind::ExposeSignedMessage) => "Failed to expose the signed message."@,
        Error::SubmissionTransport => "Failed to send request."@,
    }
}

impl Error {
    /// The text for the operator.
    pub fn message(&self) -> (text: String)
        ensures
            text@ == message_of(*self),
    {
        let text = match *self {
            Error::DirectoryFetch(FetchFault::Transport) => "Request error: the key directory could not be reached.",
            Error::DirectoryFetch(FetchFault::Status) => "Request failed. Check Internet connection.",
            Error::DirectoryFetch(FetchFault::Body) => "Error reading the keys. Check the username again.",
            Error::KeyParse(ParseFault::KeyList) => "Could not read the keys. Check the formatting.",
            Error::KeyParse(ParseFault::KeyText) => "Failed to parse SSH key.",
            Error::KeyParse(ParseFault::Signature) => "Failed to parse the signature file.",
            Error::KeyValidation(KeyFault::WrongAlgorithm) => "The key is not an RSA key.",
            Error::KeyValidation(KeyFault::WrongModulusSize) => "Public key was not the correct size.",
            Error::KeyValidation(KeyFault::MalformedEncoding) => "Public key was not a positive number.",
            Error::GroupSizeExceeded => "Too many keys in the group. Maximum is 300.",
            Error::ArtifactMissing(PipelinePhase::IdentityProof) => "Artifact missing: identity-proof. Run again with the generate option.",
            Error::ArtifactMissing(PipelinePhase::WrappedProof) => "Artifact missing: wrapped-proof. Run again with the generate option.",
            Error::ArtifactMissing(PipelinePhase::GroupProof) => "Artifact missing: group-proof. Run the composition again.",
            Error::ArtifactCorrupt(PipelinePhase::IdentityProof) => "Artifact corrupt: identity-proof. Run again with the generate option.",
            Error::ArtifactCorrupt(PipelinePhase::WrappedProof) => "Artifact corrupt: wrapped-proof. Run again with the generate option.",
            Error::ArtifactCorrupt(PipelinePhase::GroupProof) => "Artifact corrupt: group-proof. Run the composition again.",
            Error::BackendVerificationFailed => "The identity proof did not verify. Check that the signature is valid and matches the namespace and message.",
            Error::BackendCompositionFailed(AssertionKind::PublishKeys) => "Failed to add the public keys set.",
            Error::BackendCompositionFailed(AssertionKind::PublishUsernames) => "Failed to add the usernames array.",
            Error::BackendCompositionFailed(AssertionKind::SignerInGroup) => "Failed to show that the signer is in the group. Check that your username is among the usernames provided.",
            Error::BackendCompositionFailed(AssertionKind::PublishMessage) => "Failed to add the message.",
            Error::BackendCompositionFailed(AssertionKind::ExposeSignedMessage) => "Failed to expose the signed message.",
            Error::SubmissionTransport => "Failed to send request.",
        };
        text.to_owned()
    }
}

} // verus!
