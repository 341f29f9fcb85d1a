//! Key material: from a single-line key text to the bytes of an RSA modulus.

use vstd::prelude::*;
use crate::error::{Error, KeyFault, ParseFault};

verus! {

/// The number of bytes of a member's RSA modulus.
pub const RSA_BYTE_SIZE: usize = 512;

/// What a single-line key text decodes to, as far as the library reads it.
#[derive(Debug, Clone, PartialEq, Eq)]
pub enum DecodedKey {
    /// The text is no well-formed public key.
    Unreadable,
    /// A public key of an algorithm other than RSA.
    OtherAlgorithm,
    /// An RSA public key. `modulus` holds the big-endian bytes of its
    /// modulus, without a leading sign byte, or nothing when the encoded
    /// integer is not positive.
    Rsa { modulus: Option<Vec<u8>> },
}

/// The mathematical content of a `DecodedKey`.
pub enum DecodedKeyView {
    Unreadable,
    OtherAlgorithm,
    Rsa { modulus: Option<Seq<u8>> },
}

impl View for DecodedKey {
    type V = DecodedKeyView;

    open spec fn view(&self) -> DecodedKeyView {
        match *self {
            DecodedKey::Unreadable => DecodedKeyView::Unreadable,
            DecodedKey::OtherAlgorithm => DecodedKeyView::OtherAlgorithm,
            DecodedKey::Rsa { modulus: None } => DecodedKeyView::Rsa { modulus: None },
            DecodedKey::Rsa { modulus: Some(n) } => DecodedKeyView::Rsa { modulus: Some(n@) },
        }
    }
}

/// What the OpenSSH public-key decoder makes of a text.
pub uninterp spec fn openssh_decoding(text: Seq<char>) -> DecodedKeyView;

/// Decodes a single-line key text with `ssh_key::PublicKey::from_openssh`
/// and reads the modulus of an RSA key with `Mpint::as_positive_bytes`.
///
/// Trusted: the result is a function of the text alone, named
/// `openssh_decoding`. Nothing is claimed about which texts decode to what.
#[verifier::external_body]
pub(crate) fn decode_openssh(text: &str) -> (d: DecodedKey)
    ensures
        d@ == openssh_decoding(text@),
{
    match ssh_key::PublicKey::from_openssh(text) {
        Err(_) => DecodedKey::Unreadable,
        Ok(key) => match key.key_data() {
            ssh_key::public::KeyData::Rsa(pk) => match pk.n.as_positive_bytes() {
                Some(bytes) => DecodedKey::Rsa { modulus: Some(bytes.to_vec()) },
                None => DecodedKey::Rsa { modulus: None },
            },
            _ => DecodedKey::OtherAlgorithm,
        },
    }
}

/// The member key that a decoded key yields, or the reason it yields none.
///
/// A modulus is accepted only at exactly `RSA_BYTE_SIZE` bytes, and is then
/// taken as it is.
pub open spec fn validated(d: DecodedKeyView) -> Result<Seq<u8>, Error> {
    match d {
        DecodedKeyView::Unreadable => Err(Error::KeyParse(ParseFault::KeyText)),
        DecodedKeyView::OtherAlgorithm => Err(Error::KeyValidation(KeyFault::WrongAlgorithm)),
        DecodedKeyView::Rsa { modulus: None } => Err(
            Error::KeyValidation(KeyFault::MalformedEncoding),
        ),
        DecodedKeyView::Rsa { modulus: Some(n) } => if n.len() == RSA_BYTE_SIZE {
            Ok(n)
        } else {
            Err(Error::KeyValidation(KeyFault::WrongModulusSize))
        },
    }
}

/// A key that is accepted is the decoded modulus itself, at exactly the
/// required length: nothing is cut off and nothing is added.
pub proof fn lemma_accepted_as_decoded(d: DecodedKeyView)
    ensures
        validated(d) is Ok ==> d == (DecodedKeyView::Rsa { modulus: Some(validated(d)->Ok_0) })
            && validated(d)->Ok_0.len() == RSA_BYTE_SIZE,
        !(d matches DecodedKeyView::Rsa { modulus: Some(n) } && n.len() == RSA_BYTE_SIZE)
            ==> validated(d) is Err,
{
}

/// Whether a result is the one that `expected` describes.
pub open spec fn key_result_is(r: Result<Vec<u8>, Error>, expected: Result<Seq<u8>, Error>) -> bool {
    match r {
        Ok(bytes) => expected == Ok::<Seq<u8>, Error>(bytes@),
        Err(e) => expected == Err::<Seq<u8>, Error>(e),
    }
}

/// Validates a decoded key and hands out its modulus.
pub fn validate_key(d: DecodedKey) -> (r: Result<Vec<u8>, Error>)
    ensures
        key_result_is(r, validated(d@)),
        r is Ok ==> r->Ok_0@.len() == RSA_BYTE_SIZE,
{
    match d {
        DecodedKey::Unreadable => Err(Error::KeyParse(ParseFault::KeyText)),
        DecodedKey::OtherAlgorithm => Err(Error::KeyValidation(KeyFault::WrongAlgorithm)),
        DecodedKey::Rsa { modulus: None } => Err(Error::KeyValidation(KeyFault::MalformedEncoding)),
        DecodedKey::Rsa { modulus: Some(n) } => {
            if n.len() == RSA_BYTE_SIZE {
                Ok(n)
            } else {
                Err(Error::KeyValidation(KeyFault::WrongModulusSize))
            }
        },
    }
}

/// Extracts the RSA modulus from a single-line key text.
///
/// Succeeds exactly when the text decodes to an RSA key whose modulus is
/// positive and `RSA_BYTE_SIZE` bytes long; the bytes are those of the
/// decoded modulus, neither truncated nor padded.
pub fn extract_rsa_from_ssh(ssh_key: &str) -> (r: Result<Vec<u8>, Error>)
    ensures
        key_result_is(r, validated(openssh_decoding(ssh_key@))),
        r is Ok ==> r->Ok_0@.len() == RSA_BYTE_SIZE,
{
    validate_key(decode_openssh(ssh_key))
}

} // verus!
