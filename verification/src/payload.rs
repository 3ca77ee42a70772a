//! The bytes that are signed and verified: a message bound to a view and a set id.

use vstd::prelude::*;

use crate::authority::SetId;
use crate::wire::{
    encode_u64_to, le_bytes_u64, lemma_concat_parts, lemma_le_bytes_u64_injective,
};

verus! {

/// The localized payload: the encoded message, then the view, then the set id, each
/// number as eight little-endian bytes.
pub open spec fn localized_payload_spec(view: u64, set_id: SetId, message: Seq<u8>) -> Seq<u8> {
    message + le_bytes_u64(view) + le_bytes_u64(set_id)
}

/// Encodes a message localized to a view and a set id into a fresh buffer.
///
/// `message` is the encoded form of the message.
pub fn localized_payload(view: u64, set_id: SetId, message: &[u8]) -> (payload: Vec<u8>)
    ensures
        payload@ == localized_payload_spec(view, set_id, message@),
{
    let mut buf: Vec<u8> = Vec::new();
    localized_payload_with_buffer(view, set_id, message, &mut buf);
    buf
}

/// Encodes a message localized to a view and a set id into `buf`.
///
/// Whatever `buf` held is discarded; the payload starts at the start of the buffer and is
/// all that the buffer holds afterwards.
pub fn localized_payload_with_buffer(view: u64, set_id: SetId, message: &[u8], buf: &mut Vec<u8>)
    ensures
        final(buf)@ == localized_payload_spec(view, set_id, message@),
{
    buf.clear();
    buf.extend_from_slice(message);
    encode_u64_to(view, buf);
    encode_u64_to(set_id, buf);
    assert(buf@ =~= localized_payload_spec(view, set_id, message@));
}

/// The payload depends on the view, the set id and the message alone: two calls give the
/// same bytes, and the variant that fills a buffer gives the bytes of the variant that
/// allocates, whatever the buffer held before.
pub proof fn lemma_payload_deterministic(
    view: u64,
    set_id: SetId,
    message: &[u8],
    payload: Vec<u8>,
    again: Vec<u8>,
    buf: &mut Vec<u8>,
)
    requires
        call_ensures(localized_payload, (view, set_id, message), payload),
        call_ensures(localized_payload, (view, set_id, message), again),
        call_ensures(localized_payload_with_buffer, (view, set_id, message, buf), ()),
    ensures
        payload@ == again@,
        final(buf)@ == payload@,
{
}

/// A payload names its context: two payloads are equal only if the messages, the views
/// and the set ids are. Bytes signed for one view of one set are therefore never the
/// bytes of another view, another set or another message.
pub proof fn lemma_payload_binds_context(
    view_a: u64,
    set_a: SetId,
    message_a: Seq<u8>,
    view_b: u64,
    set_b: SetId,
    message_b: Seq<u8>,
)
    requires
        localized_payload_spec(view_a, set_a, message_a) == localized_payload_spec(
            view_b,
            set_b,
            message_b,
        ),
    ensures
        view_a == view_b,
        set_a == set_b,
        message_a == message_b,
{
    let tail_a = le_bytes_u64(view_a) + le_bytes_u64(set_a);
    let tail_b = le_bytes_u64(view_b) + le_bytes_u64(set_b);
    assert(localized_payload_spec(view_a, set_a, message_a) =~= message_a + tail_a);
    assert(localized_payload_spec(view_b, set_b, message_b) =~= message_b + tail_b);
    lemma_concat_parts(message_a, tail_a, message_b, tail_b);
    lemma_concat_parts(
        le_bytes_u64(view_a),
        le_bytes_u64(set_a),
        le_bytes_u64(view_b),
        le_bytes_u64(set_b),
    );
    lemma_le_bytes_u64_injective(view_a, view_b);
    lemma_le_bytes_u64_injective(set_a, set_b);
}

} // verus!
