//! Identities, signatures and the fixed tags that every node must agree on.

use vstd::prelude::*;

verus! {

/// Position of an authority within an ordered authority list.
pub type AuthorityIndex = u64;

/// Generation counter of the authority set.
pub type SetId = u64;

/// Round counter within one authority-set generation.
pub type ViewNumber = u64;

/// Ordered list of authorities; the position of an entry is its `AuthorityIndex`.
pub type AuthorityList = Vec<AuthorityId>;

/// Tag that namespaces the keys of this gadget in a key store: ASCII `pbft`.
pub const KEY_TYPE: [u8; 4] = [0x70, 0x62, 0x66, 0x74];

/// Tag that routes consensus digests to this gadget: ASCII `PBFT`.
pub const PBFT_ENGINE_ID: [u8; 4] = [0x50, 0x42, 0x46, 0x54];

/// Storage key under which the current authority list is kept: ASCII `:pbft_authorities`.
pub const PBFT_AUTHORITIES_KEY: [u8; 17] = [
    0x3a, 0x70, 0x62, 0x66, 0x74, 0x5f, 0x61, 0x75, 0x74, 0x68, 0x6f, 0x72, 0x69, 0x74, 0x69,
    0x65, 0x73,
];

/// Copies a slice of exactly `N` bytes into an array.
pub(crate) fn array_from_slice<const N: usize>(bytes: &[u8]) -> (out: [u8; N])
    requires
        bytes@.len() == N,
    ensures
        out@ == bytes@,
{
    let mut out: [u8; N] = [0u8; N];
    let mut i: usize = 0;
    while i < N
        invariant
            i <= N,
            bytes@.len() == N,
            out@.len() == N,
            forall|j: int| 0 <= j < i ==> out@[j] == bytes@[j],
        decreases N - i,
    {
        out[i] = bytes[i];
        i += 1;
    }
    assert(out@ =~= bytes@);
    out
}

/// Public identity of an authority: an Ed25519 public key.
#[derive(Clone, Copy, Debug, PartialEq, Eq, Hash)]
pub struct AuthorityId(pub [u8; 32]);

impl View for AuthorityId {
    type V = Seq<u8>;

    open spec fn view(&self) -> Seq<u8> {
        self.0@
    }
}

impl AuthorityId {
    /// The identity held in `bytes`, which must be exactly 32 bytes long.
    pub fn from_slice(bytes: &[u8]) -> (id: Option<AuthorityId>)
        ensures
            bytes@.len() == 32 <==> id.is_some(),
            id matches Some(found) ==> found@ == bytes@,
    {
        if bytes.len() == 32 {
            Some(AuthorityId(array_from_slice(bytes)))
        } else {
            None
        }
    }

    /// Two identities with the same bytes are the same identity.
    pub proof fn lemma_view_injective(a: AuthorityId, b: AuthorityId)
        requires
            a@ == b@,
        ensures
            a == b,
    {
        assert(a.0 =~= b.0);
    }
}

/// Signature of an authority: an Ed25519 signature.
#[derive(Clone, Copy, Debug, PartialEq, Eq, Hash)]
pub struct AuthoritySignature(pub [u8; 64]);

impl View for AuthoritySignature {
    type V = Seq<u8>;

    open spec fn view(&self) -> Seq<u8> {
        self.0@
    }
}

impl AuthoritySignature {
    /// The signature held in `bytes`, which must be exactly 64 bytes long.
    pub fn from_slice(bytes: &[u8]) -> (signature: Option<AuthoritySignature>)
        ensures
            bytes@.len() == 64 <==> signature.is_some(),
            signature matches Some(found) ==> found@ == bytes@,
    {
        if bytes.len() == 64 {
            Some(AuthoritySignature(array_from_slice(bytes)))
        } else {
            None
        }
    }
}

} // verus!
