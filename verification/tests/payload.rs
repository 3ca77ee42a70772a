use finality_pbft::{localized_payload, localized_payload_with_buffer};
use parity_scale_codec::Encode;

#[test]
fn payload_is_message_then_view_then_set_id() {
    let payload = localized_payload(5, 3, &[0xaa, 0xbb]);
    assert_eq!(
        payload,
        vec![0xaa, 0xbb, 5, 0, 0, 0, 0, 0, 0, 0, 3, 0, 0, 0, 0, 0, 0, 0]
    );
}

#[test]
fn payload_numbers_are_little_endian() {
    let payload = localized_payload(0x0102030405060708, 0xf1f2f3f4f5f6f7f8, &[]);
    assert_eq!(
        payload,
        vec![8, 7, 6, 5, 4, 3, 2, 1, 0xf8, 0xf7, 0xf6, 0xf5, 0xf4, 0xf3, 0xf2, 0xf1]
    );
}

#[test]
fn payload_of_extreme_numbers() {
    assert_eq!(localized_payload(0, 0, &[]), vec![0u8; 16]);
    assert_eq!(localized_payload(u64::MAX, u64::MAX, &[]), vec![0xffu8; 16]);
    let mut expected = vec![9u8];
    expected.extend_from_slice(&[0xff; 8]);
    expected.extend_from_slice(&[0; 8]);
    assert_eq!(localized_payload(u64::MAX, 0, &[9]), expected);
}

#[test]
fn buffer_variant_discards_old_contents() {
    let mut buf = vec![1u8, 2, 3, 4, 5, 6, 7, 8, 9];
    localized_payload_with_buffer(0x0102030405060708, 1, &[], &mut buf);
    assert_eq!(buf, vec![8, 7, 6, 5, 4, 3, 2, 1, 1, 0, 0, 0, 0, 0, 0, 0]);
}

#[test]
fn buffer_variant_can_be_reused() {
    let mut buf = Vec::new();
    localized_payload_with_buffer(1, 2, &[1, 2, 3, 4, 5, 6, 7, 8, 9, 10], &mut buf);
    assert_eq!(buf.len(), 26);
    localized_payload_with_buffer(3, 4, &[7], &mut buf);
    assert_eq!(buf, localized_payload(3, 4, &[7]));
    assert_eq!(buf.len(), 17);
}

#[test]
fn both_variants_give_the_same_bytes() {
    let message = [0x10u8, 0x20, 0x30, 0x40];
    for (view, set_id) in [(0u64, 0u64), (5, 3), (u64::MAX, 1), (1, u64::MAX)] {
        let mut buf = vec![0xee; 40];
        localized_payload_with_buffer(view, set_id, &message, &mut buf);
        assert_eq!(buf, localized_payload(view, set_id, &message));
    }
}

#[test]
fn repeated_calls_give_the_same_bytes() {
    let message = [1u8, 2, 3];
    let first = localized_payload(77, 12, &message);
    let second = localized_payload(77, 12, &message);
    assert_eq!(first, second);
}

#[test]
fn payload_changes_with_each_part_of_the_context() {
    let base = localized_payload(5, 3, &[1, 2, 3]);
    assert_ne!(base, localized_payload(5, 4, &[1, 2, 3]));
    assert_ne!(base, localized_payload(6, 3, &[1, 2, 3]));
    assert_ne!(base, localized_payload(5, 3, &[1, 2, 4]));
    assert_ne!(base, localized_payload(3, 5, &[1, 2, 3]));
    assert_ne!(base, localized_payload(5, 3, &[1, 2]));
}

#[test]
fn payload_is_the_codec_encoding_of_the_triple() {
    let message =
        finality_grandpa::Message::Prevote(finality_grandpa::Prevote::new([7u8; 32], 9u32));
    let expected = (&message, 5u64, 3u64).encode();
    assert_eq!(localized_payload(5, 3, &message.encode()), expected);

    let commit =
        finality_grandpa::Message::Precommit(finality_grandpa::Precommit::new([1u8; 32], 2u64));
    let expected = (&commit, u64::MAX, 0x1234u64).encode();
    let mut buf = vec![1, 2, 3];
    localized_payload_with_buffer(u64::MAX, 0x1234, &commit.encode(), &mut buf);
    assert_eq!(buf, expected);
}
