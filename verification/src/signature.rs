//! The operator's signature, as the proof backend takes it.

use vstd::prelude::*;
use crate::error::{Error, ParseFault};

verus! {

/// A decoded signature. The library hands it on and reads nothing in it.
#[verifier::external_type_specification]
#[verifier::external_body]
pub struct ExSshSig(ssh_key::SshSig);

/// Whether the signature decoder accepts a text.
pub uninterp spec fn signature_decodes(pem: Seq<u8>) -> bool;

/// Decodes an armored signature with `ssh_key::SshSig::from_pem`.
///
/// Trusted: whether the decoder accepts a text is a function of the text
/// alone, named `signature_decodes`. Nothing is claimed about which texts it
/// accepts, nor about the signature it gives.
#[verifier::external_body]
fn decode_signature(pem: &[u8]) -> (r: Option<ssh_key::SshSig>)
    ensures
        r is Some == signature_decodes(pem@),
{
    ssh_key::SshSig::from_pem(pem).ok()
}

/// Takes the signature that the decoder gave, or reports that it gave none.
pub fn signature_result(decoded: Option<ssh_key::SshSig>) -> (r: Result<ssh_key::SshSig, Error>)
    ensures
        match decoded {
            Some(signature) => r == Ok::<ssh_key::SshSig, Error>(signature),
            None => r == Err::<ssh_key::SshSig, Error>(Error::KeyParse(ParseFault::Signature)),
        },
{
    match decoded {
        Some(signature) => Ok(signature),
        None => Err(Error::KeyParse(ParseFault::Signature)),
    }
}

/// Reads the operator's signature from its armored text.
///
/// Succeeds exactly on the texts that the decoder accepts; every other text
/// is a signature that cannot be parsed.
pub fn read_signature(pem: &[u8]) -> (r: Result<ssh_key::SshSig, Error>)
    ensures
        r is Ok <==> signature_decodes(pem@),
        r is Err ==> r == Err::<ssh_key::SshSig, Error>(Error::KeyParse(ParseFault::Signature)),
{
    signature_result(decode_signature(pem))
}

} // verus!
