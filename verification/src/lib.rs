//! Authority-set signals and vote authentication for a PBFT-style finality gadget.
//!
//! A block may carry signals that schedule or force a change of the authority set, or
//! that pause, resume or disable authorities; `log` holds them and the rule that picks
//! the one to honor, `encoding` their wire format. Votes are signed and checked over a
//! payload that binds the message to a view and to a generation of the authority set;
//! `payload` builds it and `message` signs and checks.

pub mod authority;
pub mod encoding;
pub mod log;
pub mod message;
pub mod payload;
pub mod runtime;
pub mod wire;

pub use crate::authority::{
    AuthorityId, AuthorityIndex, AuthorityList, AuthoritySignature, SetId, ViewNumber, KEY_TYPE,
    PBFT_AUTHORITIES_KEY, PBFT_ENGINE_ID,
};
pub use crate::encoding::{decode_authorities, encode_authorities_to};
pub use crate::log::{earliest_of_kind, select_change, ConsensusLog, ScheduledChange, SignalKind};
pub use crate::message::{
    check_message_signature, check_message_signature_with_buffer, sign_message,
    signed_message_from, signing_request, SignedMessage, SigningRequest,
};
pub use crate::payload::{localized_payload, localized_payload_with_buffer};
pub use crate::runtime::PbftApi;
pub use crate::wire::BlockNumber;
