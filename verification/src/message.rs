//! Signing and checking vote messages over their localized payload.

use vstd::prelude::*;

use crate::authority::{AuthorityId, AuthoritySignature, SetId, ViewNumber, KEY_TYPE};
use crate::payload::{localized_payload, localized_payload_spec, localized_payload_with_buffer};

verus! {

/// Whether `signature` is a valid Ed25519 signature of `message` under the key `public`,
/// as `Pair::verify` of `sp_core::ed25519` judges it.
pub uninterp spec fn ed25519_valid(signature: Seq<u8>, message: Seq<u8>, public: Seq<u8>) -> bool;

/// Checks an Ed25519 signature.
///
/// Calls `Pair::verify` of `sp_core::ed25519`, whose answer depends on the three byte
/// strings alone; nothing is claimed of which signatures it accepts.
#[verifier::external_body]
fn ed25519_verify(signature: &AuthoritySignature, message: &[u8], id: &AuthorityId) -> (valid: bool)
    ensures
        valid == ed25519_valid(signature@, message@, id@),
{
    let signature = sp_core::ed25519::Signature::from_raw(signature.0);
    let public = sp_core::ed25519::Public::from_raw(id.0);
    <sp_core::ed25519::Pair as sp_core::Pair>::verify(&signature, message, &public)
}

/// The error of a key store, `sp_keystore::Error`. Nothing is read of it: that the store
/// failed is all that signing needs to know.
#[verifier::external_type_specification]
#[verifier::external_body]
pub struct ExKeystoreError(sp_keystore::Error);

/// A vote message with the signature of the authority that cast it.
#[derive(Clone, Debug, PartialEq, Eq)]
pub struct SignedMessage {
    /// The encoded message.
    pub message: Vec<u8>,
    /// The signature over the localized payload of the message.
    pub signature: AuthoritySignature,
    /// The identity of the signer.
    pub id: AuthorityId,
}

/// What a signer asks of the key store.
#[derive(Clone, Debug, PartialEq, Eq)]
pub struct SigningRequest {
    /// The key type under which the key is kept.
    pub key_type: [u8; 4],
    /// The identity whose key is to sign.
    pub public: AuthorityId,
    /// The bytes to sign.
    pub payload: Vec<u8>,
}

/// Whether `signature` is valid for `message` in the given view of the given set under
/// the identity `id`: the signed bytes are the localized payload.
pub open spec fn message_signature_valid(
    message: Seq<u8>,
    id: Seq<u8>,
    signature: Seq<u8>,
    view: u64,
    set_id: SetId,
) -> bool {
    ed25519_valid(signature, localized_payload_spec(view, set_id, message), id)
}

/// The signature that the answer of a key store carries: present only when the store
/// found the key, signed, and returned exactly 64 bytes.
pub open spec fn signature_in(outcome: Result<Option<Vec<u8>>, sp_keystore::Error>) -> Option<
    Seq<u8>,
> {
    match outcome {
        Ok(Some(raw)) => if raw@.len() == 64 {
            Some(raw@)
        } else {
            None
        },
        _ => None,
    }
}

/// Checks the signature of a message against the identity that is said to have signed
/// it, in the given view of the given set.
///
/// `message` is the encoded form of the message.
pub fn check_message_signature(
    message: &[u8],
    id: &AuthorityId,
    signature: &AuthoritySignature,
    view: u64,
    set_id: SetId,
) -> (valid: bool)
    ensures
        valid == message_signature_valid(message@, id@, signature@, view, set_id),
{
    let mut buf: Vec<u8> = Vec::new();
    check_message_signature_with_buffer(message, id, signature, view, set_id, &mut buf)
}

/// Checks the signature of a message as `check_message_signature` does, encoding the
/// payload into `buf`. Whatever `buf` held is discarded; afterwards it holds the payload.
pub fn check_message_signature_with_buffer(
    message: &[u8],
    id: &AuthorityId,
    signature: &AuthoritySignature,
    view: u64,
    set_id: SetId,
    buf: &mut Vec<u8>,
) -> (valid: bool)
    ensures
        valid == message_signature_valid(message@, id@, signature@, view, set_id),
        final(buf)@ == localized_payload_spec(view, set_id, message@),
{
    localized_payload_with_buffer(view, set_id, message, buf);
    ed25519_verify(signature, buf.as_slice(), id)
}

/// Whether `request` asks for what signing `message` in the given view of the given set
/// needs: a signature of the localized payload, by the key of `public`, kept under this
/// gadget's key type.
pub open spec fn is_request_for(
    request: SigningRequest,
    message: Seq<u8>,
    public: AuthorityId,
    view: ViewNumber,
    set_id: SetId,
) -> bool {
    &&& request.key_type == KEY_TYPE
    &&& request.public == public
    &&& request.payload@ == localized_payload_spec(view, set_id, message)
}

/// Whether `signed` is what the answer `outcome` of the key store makes of `message`:
/// the message with the store's signature and the signer's identity when the answer
/// carries a signature, nothing otherwise.
pub open spec fn is_signed_from(
    signed: Option<SignedMessage>,
    outcome: Result<Option<Vec<u8>>, sp_keystore::Error>,
    message: Vec<u8>,
    public: AuthorityId,
) -> bool {
    &&& signed.is_some() == signature_in(outcome).is_some()
    &&& signed matches Some(s) ==> {
        &&& s.message == message
        &&& s.id == public
        &&& Some(s.signature@) == signature_in(outcome)
    }
}

/// What to ask of the key store in order to sign `message` in the given view of the
/// given set.
pub fn signing_request(message: &[u8], public: AuthorityId, view: ViewNumber, set_id: SetId) -> (request:
    SigningRequest)
    ensures
        is_request_for(request, message@, public, view, set_id),
{
    SigningRequest { key_type: KEY_TYPE, public, payload: localized_payload(view, set_id, message) }
}

/// Makes the signed message out of the answer of the key store to a signing request.
///
/// There is no signed message when the store failed, when it does not hold the key, or
/// when what it returned is not a signature of this gadget's scheme.
pub fn signed_message_from(
    outcome: Result<Option<Vec<u8>>, sp_keystore::Error>,
    message: Vec<u8>,
    public: AuthorityId,
) -> (signed: Option<SignedMessage>)
    ensures
        is_signed_from(signed, outcome, message, public),
{
    match outcome {
        Ok(Some(raw)) => match AuthoritySignature::from_slice(raw.as_slice()) {
            Some(signature) => Some(SignedMessage { message, signature, id: public }),
            None => None,
        },
        _ => None,
    }
}

/// Localizes `message` to the given view and set and has the key store sign the payload.
///
/// `keystore` is the one operation that is asked of a key store: to sign the bytes of a
/// request with the key that the request names. It is called once, with the request
/// that `signing_request` makes, and whatever it answers decides the result as
/// `signed_message_from` says.
pub fn sign_message<F>(
    keystore: F,
    message: Vec<u8>,
    public: AuthorityId,
    view: ViewNumber,
    set_id: SetId,
) -> (signed: Option<SignedMessage>) where
    F: FnOnce(SigningRequest) -> Result<Option<Vec<u8>>, sp_keystore::Error>,

    requires
        forall|request: SigningRequest|
            is_request_for(request, message@, public, view, set_id) ==> call_requires(
                keystore,
                (request,),
            ),
    ensures
        exists|request: SigningRequest, outcome: Result<Option<Vec<u8>>, sp_keystore::Error>|
            {
                &&& is_request_for(request, message@, public, view, set_id)
                &&& call_ensures(keystore, (request,), outcome)
                &&& is_signed_from(signed, outcome, message, public)
            },
{
    let request = signing_request(message.as_slice(), public, view, set_id);
    let ghost asked = request;
    let outcome = keystore(request);
    let ghost answered = outcome;
    let signed = signed_message_from(outcome, message, public);
    assert(is_request_for(asked, message@, public, view, set_id) && call_ensures(
        keystore,
        (asked,),
        answered,
    ) && is_signed_from(signed, answered, message, public));
    signed
}

/// Signing and checking agree on the bytes: a signed message whose signature the scheme
/// accepts for the requested payload is valid in the view and the set that it was signed
/// for.
pub proof fn lemma_signed_message_checks(
    request: SigningRequest,
    outcome: Result<Option<Vec<u8>>, sp_keystore::Error>,
    message: Vec<u8>,
    public: AuthorityId,
    view: ViewNumber,
    set_id: SetId,
    signed: SignedMessage,
)
    requires
        is_request_for(request, message@, public, view, set_id),
        is_signed_from(Some(signed), outcome, message, public),
        ed25519_valid(signed.signature@, request.payload@, request.public@),
    ensures
        message_signature_valid(signed.message@, signed.id@, signed.signature@, view, set_id),
{
}

} // verus!
