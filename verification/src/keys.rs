//! The gateway's signing key and the check of client signatures, both
//! done by `ring`.

use vstd::prelude::*;

verus! {

/// `ring::signature::Ed25519KeyPair`: a key pair for signing. Nothing of
/// its inside is known here; values of it are only carried.
#[verifier::external_type_specification]
#[verifier::external_body]
pub struct ExEd25519KeyPair(ring::signature::Ed25519KeyPair);

/// `ring::error::KeyRejected`: why a key document was not taken.
#[verifier::external_type_specification]
#[verifier::external_body]
pub struct ExKeyRejected(ring::error::KeyRejected);

/// `ring::error::Unspecified`: a failure about which `ring` says nothing.
#[verifier::external_type_specification]
#[verifier::external_body]
pub struct ExUnspecified(ring::error::Unspecified);

/// Whether `ring` takes `document` as an unencrypted PKCS#8 v2 document of
/// an Ed25519 key pair whose two halves agree.
pub uninterp spec fn pkcs8_accepted(document: Seq<u8>) -> bool;

/// The key pair that `ring` reads from `document`, where it takes it.
pub uninterp spec fn pkcs8_key_pair(document: Seq<u8>) -> ring::signature::Ed25519KeyPair;

/// Whether `ring` finds `signature` to be an Ed25519 signature of
/// `message` under `public_key`.
pub uninterp spec fn ed25519_verifies(
    public_key: Seq<u8>,
    message: Seq<u8>,
    signature: Seq<u8>,
) -> bool;

/// Calls `ring::signature::Ed25519KeyPair::from_pkcs8`. Assumed: the call
/// succeeds exactly on the documents that `pkcs8_accepted` names and then
/// gives the key pair that `pkcs8_key_pair` names, which says only that
/// the outcome depends on the document alone.
#[verifier::external_body]
fn parse_pkcs8(document: &[u8]) -> (parsed: Result<
    ring::signature::Ed25519KeyPair,
    ring::error::KeyRejected,
>)
    ensures
        parsed.is_ok() == pkcs8_accepted(document@),
        parsed is Ok ==> parsed->Ok_0 == pkcs8_key_pair(document@),
{
    ring::signature::Ed25519KeyPair::from_pkcs8(document)
}

/// Calls `ring::signature::Ed25519KeyPair::generate_pkcs8` with the
/// system's random numbers and copies the document out. Assumed: a
/// document that comes back is one that `from_pkcs8` takes, since it is
/// the version 2 document of a seed with the public key computed from it.
/// Nothing is assumed of which document comes back, nor that one does.
#[verifier::external_body]
fn generate_pkcs8() -> (generated: Result<Vec<u8>, ring::error::Unspecified>)
    ensures
        generated is Ok ==> pkcs8_accepted(generated->Ok_0@),
{
    let rng = ring::rand::SystemRandom::new();
    match ring::signature::Ed25519KeyPair::generate_pkcs8(&rng) {
        Ok(document) => Ok(document.as_ref().to_vec()),
        Err(e) => Err(e),
    }
}

/// Calls `verify` of `ring::signature::UnparsedPublicKey` for
/// `ring::signature::ED25519`. Assumed: the call succeeds exactly where
/// `ed25519_verifies` holds, which says only that the outcome depends on
/// the three byte strings alone.
#[verifier::external_body]
fn verify_ed25519(public_key: &[u8], message: &[u8], signature: &[u8]) -> (verified: Result<
    (),
    ring::error::Unspecified,
>)
    ensures
        verified.is_ok() == ed25519_verifies(public_key@, message@, signature@),
{
    ring::signature::UnparsedPublicKey::new(&ring::signature::ED25519, public_key).verify(
        message,
        signature,
    )
}

/// Whether `signature` is a valid Ed25519 signature of `message` under
/// `public_key`.
pub fn signature_verifies(public_key: &[u8], message: &[u8], signature: &[u8]) -> (ok: bool)
    ensures
        ok == ed25519_verifies(public_key@, message@, signature@),
{
    match verify_ed25519(public_key, message, signature) {
        Ok(_) => true,
        Err(_) => false,
    }
}

/// Why the gateway has no signing key.
#[derive(Clone, Copy, Debug, PartialEq, Eq, Structural)]
pub enum KeyError {
    /// No key pair could be generated.
    GenerationFailed,
    /// The key document was not taken.
    Rejected,
}

/// The gateway's signing key, with the document it was read from. It
/// holds the private key and so has no way of being printed.
pub struct LoadedKey {
    pub key_pair: ring::signature::Ed25519KeyPair,
    /// The PKCS#8 document of the key pair.
    pub document: Vec<u8>,
    /// Whether the document was generated just now, so that it has to be
    /// stored.
    pub fresh: bool,
}

/// Makes the loaded key of `document` from what parsing it gave.
pub fn key_from_parsed(
    parsed: Result<ring::signature::Ed25519KeyPair, ring::error::KeyRejected>,
    document: Vec<u8>,
    fresh: bool,
) -> (r: Result<LoadedKey, KeyError>)
    ensures
        match (parsed, r) {
            (Ok(key_pair), Ok(loaded)) => loaded.key_pair == key_pair && loaded.document == document
                && loaded.fresh == fresh,
            (Err(_), Err(e)) => e == KeyError::Rejected,
            _ => false,
        },
{
    match parsed {
        Ok(key_pair) => Ok(LoadedKey { key_pair, document, fresh }),
        Err(_) => Err(KeyError::Rejected),
    }
}

/// Reads the key pair out of `document`: the key pair handed out is the
/// one that the document holds.
pub fn adopt_key_document(document: Vec<u8>, fresh: bool) -> (r: Result<LoadedKey, KeyError>)
    ensures
        pkcs8_accepted(document@) ==> r is Ok && r->Ok_0.document == document && r->Ok_0.fresh
            == fresh && r->Ok_0.key_pair == pkcs8_key_pair(document@),
        !pkcs8_accepted(document@) ==> r is Err && r->Err_0 == KeyError::Rejected,
{
    let parsed = parse_pkcs8(document.as_slice());
    key_from_parsed(parsed, document, fresh)
}

/// Loads the gateway's key pair: from the stored document where there is
/// one, else from a document generated now, which the caller has to
/// store. Either way the key pair handed out is the one that the document
/// handed out holds, so that loading that document again gives the same
/// key pair. A stored document is never replaced and no key is generated
/// beside it: one that is not taken is an error. Without a stored
/// document the only error is that none could be generated.
pub fn load_key_pair(stored: Option<Vec<u8>>) -> (r: Result<LoadedKey, KeyError>)
    ensures
        match stored {
            Some(document) => {
                &&& pkcs8_accepted(document@) ==> r is Ok && r->Ok_0.document == document
                    && !r->Ok_0.fresh && r->Ok_0.key_pair == pkcs8_key_pair(document@)
                &&& !pkcs8_accepted(document@) ==> r is Err && r->Err_0 == KeyError::Rejected
            },
            None => {
                &&& r is Ok ==> r->Ok_0.fresh && pkcs8_accepted(r->Ok_0.document@)
                    && r->Ok_0.key_pair == pkcs8_key_pair(r->Ok_0.document@)
                &&& r is Err ==> r->Err_0 == KeyError::GenerationFailed
            },
        },
{
    match stored {
        Some(document) => adopt_key_document(document, false),
        None => match generate_pkcs8() {
            Ok(document) => adopt_key_document(document, true),
            Err(_) => Err(KeyError::GenerationFailed),
        },
    }
}

} // verus!
