//! The node's persistent ed25519 identity: loading it from the stored
//! 32-byte secret, or generating a fresh one together with the secret to
//! store, so that the peer id stays the same across runs.

use vstd::prelude::*;
use libp2p::identity::Keypair;

verus! {

#[verifier::external_type_specification]
#[verifier::external_body]
pub struct ExKeypair(Keypair);

/// The length in bytes of a stored ed25519 secret.
pub const SECRET_LEN: usize = 32;

/// Why no identity could be had.
#[derive(Debug, PartialEq, Eq, Structural)]
pub enum IdentityError {
    /// The stored secret does not have `SECRET_LEN` bytes; the length found.
    UnexpectedLength(usize),
    /// The stored secret was refused by the key decoder (never the case for a
    /// secret of `SECRET_LEN` bytes).
    InvalidSecret,
    /// A keypair had no ed25519 encoding (never the case for a generated one).
    NotEd25519,
}

/// The node's keypair, and the secret to store where it was freshly generated.
pub struct Identity {
    pub keypair: Keypair,
    pub new_secret: Option<Vec<u8>>,
}

/// The keypair whose ed25519 secret is the 32 bytes `secret`, as libp2p builds
/// it (`Keypair::ed25519_from_bytes`): a function of the secret alone.
pub uninterp spec fn ed25519_keypair(secret: Seq<u8>) -> Keypair;

/// What loading the stored bytes `bytes` gives: the keypair of that secret,
/// or the length found where it is not a secret of `SECRET_LEN` bytes.
pub open spec fn stored_keypair(bytes: Seq<u8>) -> Result<Keypair, IdentityError> {
    if bytes.len() == SECRET_LEN {
        Ok(ed25519_keypair(bytes))
    } else {
        Err(IdentityError::UnexpectedLength(bytes.len() as usize))
    }
}

/// Whether `keypair` is the ed25519 keypair of some 32-byte secret.
pub open spec fn is_ed25519_keypair(keypair: Keypair) -> bool {
    exists|s: Seq<u8>| s.len() == SECRET_LEN && keypair == #[trigger] ed25519_keypair(s)
}

/// Whether `keypair` is the keypair of the 32-byte secret `secret`.
pub open spec fn keypair_of_secret(keypair: Keypair, secret: Seq<u8>) -> bool {
    secret.len() == SECRET_LEN && keypair == ed25519_keypair(secret)
}

/// Trusted: calls `libp2p::identity::Keypair::ed25519_from_bytes` on a copy of
/// `secret`. Its source copies the input into a 32-byte ed25519 secret key and
/// fails only where the input is not 32 bytes long; what it builds is the
/// keypair of that secret, named `ed25519_keypair(secret@)`.
#[verifier::external_body]
fn ed25519_keypair_from_secret(secret: &[u8]) -> (r: Option<Keypair>)
    ensures
        r is Some <==> secret@.len() == SECRET_LEN,
        r matches Some(k) ==> k == ed25519_keypair(secret@),
{
    Keypair::ed25519_from_bytes(secret.to_vec()).ok()
}

/// Trusted: calls `libp2p::identity::Keypair::generate_ed25519`, which draws a
/// random 32-byte secret and builds the ed25519 keypair of that secret
/// (`ed25519::Keypair::from(SecretKey::generate())`). What is stated: the
/// result is the keypair of some 32-byte secret. Which secret is left open.
#[verifier::external_body]
fn generate_ed25519_keypair() -> (r: Keypair)
    ensures
        is_ed25519_keypair(r),
{
    Keypair::generate_ed25519()
}

/// Trusted: calls `Keypair::try_into_ed25519` on a clone of `keypair` and, for
/// an ed25519 keypair, `ed25519::Keypair::to_bytes`: the 64 bytes made of the
/// secret followed by the public key of that secret. What is stated: for the
/// keypair of a 32-byte secret the bytes come back, and bytes that come back
/// begin with a secret whose keypair this is.
#[verifier::external_body]
fn ed25519_keypair_bytes(keypair: &Keypair) -> (r: Option<[u8; 64]>)
    ensures
        is_ed25519_keypair(*keypair) ==> r is Some,
        r matches Some(b) ==> *keypair == ed25519_keypair(b@.subrange(0, SECRET_LEN as int)),
{
    match keypair.clone().try_into_ed25519() {
        Ok(k) => Some(k.to_bytes()),
        Err(_) => None,
    }
}

/// The keypair of the stored secret `bytes`: refused with the length found
/// unless the secret has `SECRET_LEN` bytes.
pub fn keypair_from_stored_secret(bytes: &[u8]) -> (r: Result<Keypair, IdentityError>)
    ensures
        r == stored_keypair(bytes@),
{
    if bytes.len() != SECRET_LEN {
        return Err(IdentityError::UnexpectedLength(bytes.len()));
    }
    match ed25519_keypair_from_secret(bytes) {
        Some(keypair) => Ok(keypair),
        None => Err(IdentityError::InvalidSecret),
    }
}

/// A freshly generated identity loads back from its stored secret as the same
/// keypair: the identity, and with it the peer id, stays the same across runs.
pub proof fn lemma_stored_secret_reloads(keypair: Keypair, secret: Seq<u8>)
    requires
        keypair_of_secret(keypair, secret),
    ensures
        stored_keypair(secret) == Ok::<Keypair, IdentityError>(keypair),
{
}

/// The secret to store for a keypair, given its 64-byte ed25519 encoding
/// (secret, then public key): the first `SECRET_LEN` bytes. Without such an
/// encoding the keypair is not an ed25519 one.
pub fn secret_to_store(keypair_bytes: Option<[u8; 64]>) -> (r: Result<Vec<u8>, IdentityError>)
    ensures
        match keypair_bytes {
            Some(b) => (r matches Ok(s) && s@ == b@.subrange(0, SECRET_LEN as int)),
            None => r == Err::<Vec<u8>, IdentityError>(IdentityError::NotEd25519),
        },
{
    match keypair_bytes {
        Some(b) => {
            let mut s: Vec<u8> = Vec::new();
            let mut i: usize = 0;
            while i < SECRET_LEN
                invariant
                    i <= SECRET_LEN,
                    s@ == b@.subrange(0, i as int),
                decreases SECRET_LEN - i,
            {
                s.push(b[i]);
                assert(s@ =~= b@.subrange(0, i + 1));
                i = i + 1;
            }
            Ok(s)
        },
        None => Err(IdentityError::NotEd25519),
    }
}

/// The node's identity: from the stored secret where there is one (nothing
/// new to store), else a freshly generated ed25519 keypair with the 32-byte
/// secret to store.
pub fn load_or_generate_identity(stored: Option<&[u8]>) -> (r: Result<Identity, IdentityError>)
    ensures
        match stored {
            Some(bytes) => {
                &&& (r is Ok <==> bytes@.len() == SECRET_LEN)
                &&& (r matches Ok(id) ==> id.keypair == ed25519_keypair(bytes@) && id.new_secret is None)
                &&& (r matches Err(e) ==> e == IdentityError::UnexpectedLength(bytes@.len() as usize))
            },
            None => r matches Ok(id) && (id.new_secret matches Some(s) && keypair_of_secret(
                id.keypair,
                s@,
            )),
        },
{
    match stored {
        Some(bytes) => {
            match keypair_from_stored_secret(bytes) {
                Ok(keypair) => Ok(Identity { keypair, new_secret: None }),
                Err(e) => Err(e),
            }
        },
        None => {
            let keypair = generate_ed25519_keypair();
            let encoded = ed25519_keypair_bytes(&keypair);
            match secret_to_store(encoded) {
                Ok(secret) => Ok(Identity { keypair, new_secret: Some(secret) }),
                Err(e) => Err(e),
            }
        },
    }
}

} // verus!
