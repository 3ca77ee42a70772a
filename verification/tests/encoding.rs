use finality_pbft::{
    decode_authorities, encode_authorities_to, AuthorityId, BlockNumber, ConsensusLog,
    ScheduledChange,
};
use parity_scale_codec::Encode;

fn ids(count: usize) -> Vec<AuthorityId> {
    (0..count)
        .map(|i| {
            let mut key = [0u8; 32];
            key[..8].copy_from_slice(&(i as u64).to_le_bytes());
            key[31] = 0xa5;
            AuthorityId(key)
        })
        .collect()
}

fn raw(list: &[AuthorityId]) -> Vec<[u8; 32]> {
    list.iter().map(|id| id.0).collect()
}

fn samples_u32() -> Vec<ConsensusLog<u32>> {
    vec![
        ConsensusLog::ScheduledChange(ScheduledChange { next_authorities: ids(3), delay: 7 }),
        ConsensusLog::ForcedChange(
            0x0a0b0c0d,
            ScheduledChange { next_authorities: ids(2), delay: u32::MAX },
        ),
        ConsensusLog::OnDisabled(0x0102030405060708),
        ConsensusLog::Pause(10),
        ConsensusLog::Resume(0),
    ]
}

#[test]
fn numbers_are_written_little_endian() {
    let mut out = vec![0xee];
    BlockNumber::encode_to(&0x01020304u32, &mut out);
    assert_eq!(out, vec![0xee, 4, 3, 2, 1]);
    let mut out = vec![0xee];
    BlockNumber::encode_to(&0x0102030405060708u64, &mut out);
    assert_eq!(out, vec![0xee, 8, 7, 6, 5, 4, 3, 2, 1]);
}

#[test]
fn numbers_are_read_little_endian() {
    let input = [4u8, 3, 2, 1, 9, 9];
    let (number, rest) = <u32 as BlockNumber>::decode(&input).unwrap();
    assert_eq!(number, 0x01020304);
    assert_eq!(rest, &[9u8, 9][..]);
    let input = [8u8, 7, 6, 5, 4, 3, 2, 1, 9];
    let (number, rest) = <u64 as BlockNumber>::decode(&input).unwrap();
    assert_eq!(number, 0x0102030405060708);
    assert_eq!(rest, &[9u8][..]);
}

#[test]
fn numbers_need_all_their_bytes() {
    assert!(<u32 as BlockNumber>::decode(&[1, 2, 3]).is_none());
    assert!(<u32 as BlockNumber>::decode(&[]).is_none());
    assert!(<u64 as BlockNumber>::decode(&[1, 2, 3, 4, 5, 6, 7]).is_none());
    assert_eq!(<u32 as BlockNumber>::decode(&[0xff; 4]).unwrap().0, u32::MAX);
    assert_eq!(<u64 as BlockNumber>::decode(&[0xff; 8]).unwrap().0, u64::MAX);
}

#[test]
fn list_length_takes_one_byte_below_64() {
    let mut out = Vec::new();
    encode_authorities_to(&ids(0), &mut out);
    assert_eq!(out, vec![0]);
    let mut out = vec![0x77];
    encode_authorities_to(&ids(1), &mut out);
    assert_eq!(out.len(), 2 + 32);
    assert_eq!(&out[..2], &[0x77, 4]);
    assert_eq!(&out[2..], &ids(1)[0].0[..]);
    let mut out = Vec::new();
    encode_authorities_to(&ids(63), &mut out);
    assert_eq!(out[0], 0xfc);
    assert_eq!(out.len(), 1 + 63 * 32);
}

#[test]
fn list_length_takes_two_bytes_from_64() {
    let mut out = Vec::new();
    encode_authorities_to(&ids(64), &mut out);
    assert_eq!(&out[..2], &[0x01, 0x01]);
    assert_eq!(out.len(), 2 + 64 * 32);
    let mut out = Vec::new();
    encode_authorities_to(&ids(16383), &mut out);
    assert_eq!(&out[..2], &[0xfd, 0xff]);
    assert_eq!(out.len(), 2 + 16383 * 32);
}

#[test]
fn list_length_takes_four_bytes_from_16384() {
    let list = ids(16384);
    let mut out = Vec::new();
    encode_authorities_to(&list, &mut out);
    assert_eq!(&out[..4], &[0x02, 0x00, 0x01, 0x00]);
    assert_eq!(out.len(), 4 + 16384 * 32);
    let (back, rest) = decode_authorities(&out).unwrap();
    assert_eq!(back, list);
    assert!(rest.is_empty());
}

#[test]
fn lists_are_written_as_the_codec_writes_them() {
    for count in [0usize, 1, 2, 63, 64, 65, 300] {
        let list = ids(count);
        let mut out = Vec::new();
        encode_authorities_to(&list, &mut out);
        assert_eq!(out, raw(&list).encode());
    }
}

#[test]
fn lists_round_trip_and_leave_the_rest() {
    for count in [0usize, 1, 63, 64, 200] {
        let list = ids(count);
        let mut bytes = Vec::new();
        encode_authorities_to(&list, &mut bytes);
        bytes.extend_from_slice(&[0xde, 0xad]);
        let (back, rest) = decode_authorities(&bytes).unwrap();
        assert_eq!(back, list);
        assert_eq!(rest, &[0xde, 0xad][..]);
    }
}

#[test]
fn list_with_missing_bytes_is_refused() {
    let mut bytes = Vec::new();
    encode_authorities_to(&ids(2), &mut bytes);
    assert!(decode_authorities(&bytes[..bytes.len() - 1]).is_none());
    assert!(decode_authorities(&bytes[..1]).is_none());
    assert!(decode_authorities(&[]).is_none());
}

#[test]
fn list_length_in_a_longer_form_than_needed_is_refused() {
    // 1 written in two bytes, and in four.
    assert!(decode_authorities(&[0x05, 0x00]).is_none());
    assert!(decode_authorities(&[0x06, 0x00, 0x00, 0x00]).is_none());
    // 0 written in five bytes; a first byte that announces more than four bytes.
    assert!(decode_authorities(&[0x03, 0, 0, 0, 0]).is_none());
    assert!(decode_authorities(&[0x07, 0, 0, 0, 0, 0x40]).is_none());
    // A length in five bytes that is large enough, with no keys behind it.
    assert!(decode_authorities(&[0x03, 0, 0, 0, 0x40]).is_none());
    // A two-byte length cut short.
    assert!(decode_authorities(&[0x01]).is_none());
}

#[test]
fn each_signal_starts_with_its_discriminant() {
    let firsts: Vec<u8> = samples_u32().iter().map(|log| log.encode()[0]).collect();
    assert_eq!(firsts, vec![1, 2, 3, 4, 5]);
}

#[test]
fn signals_have_their_exact_bytes() {
    let pause: ConsensusLog<u32> = ConsensusLog::Pause(7);
    assert_eq!(pause.encode(), vec![4, 7, 0, 0, 0]);
    let resume: ConsensusLog<u64> = ConsensusLog::Resume(0x0102);
    assert_eq!(resume.encode(), vec![5, 2, 1, 0, 0, 0, 0, 0, 0]);
    let disabled: ConsensusLog<u32> = ConsensusLog::OnDisabled(9);
    assert_eq!(disabled.encode(), vec![3, 9, 0, 0, 0, 0, 0, 0, 0]);

    let change = ScheduledChange { next_authorities: vec![AuthorityId([0xab; 32])], delay: 5u32 };
    let mut expected = vec![1u8, 4];
    expected.extend_from_slice(&[0xab; 32]);
    expected.extend_from_slice(&[5, 0, 0, 0]);
    assert_eq!(ConsensusLog::ScheduledChange(change.clone()).encode(), expected);

    let mut expected = vec![2u8, 0x10, 0x20, 0, 0, 4];
    expected.extend_from_slice(&[0xab; 32]);
    expected.extend_from_slice(&[5, 0, 0, 0]);
    assert_eq!(ConsensusLog::ForcedChange(0x2010, change).encode(), expected);
}

#[test]
fn signals_are_written_as_the_codec_writes_them() {
    let list = ids(70);
    let scheduled: ConsensusLog<u32> = ConsensusLog::ScheduledChange(ScheduledChange {
        next_authorities: list.clone(),
        delay: 12,
    });
    assert_eq!(scheduled.encode(), (1u8, raw(&list), 12u32).encode());
    let forced: ConsensusLog<u64> = ConsensusLog::ForcedChange(
        99,
        ScheduledChange { next_authorities: list.clone(), delay: 12 },
    );
    assert_eq!(forced.encode(), (2u8, 99u64, raw(&list), 12u64).encode());
    let disabled: ConsensusLog<u32> = ConsensusLog::OnDisabled(77);
    assert_eq!(disabled.encode(), (3u8, 77u64).encode());
    let pause: ConsensusLog<u32> = ConsensusLog::Pause(10);
    assert_eq!(pause.encode(), (4u8, 10u32).encode());
    let resume: ConsensusLog<u64> = ConsensusLog::Resume(20);
    assert_eq!(resume.encode(), (5u8, 20u64).encode());
}

#[test]
fn encode_to_appends() {
    let pause: ConsensusLog<u32> = ConsensusLog::Pause(7);
    let mut out = vec![0xaa, 0xbb];
    pause.encode_to(&mut out);
    assert_eq!(out, vec![0xaa, 0xbb, 4, 7, 0, 0, 0]);
    let change = ScheduledChange { next_authorities: Vec::new(), delay: 1u64 };
    change.encode_to(&mut out);
    assert_eq!(out, vec![0xaa, 0xbb, 4, 7, 0, 0, 0, 0, 1, 0, 0, 0, 0, 0, 0, 0]);
}

#[test]
fn every_signal_round_trips() {
    for log in samples_u32() {
        let bytes = log.encode();
        let (back, rest) = ConsensusLog::<u32>::decode(&bytes).unwrap();
        assert_eq!(back, log);
        assert!(rest.is_empty());
        assert_eq!(back.encode(), bytes);
    }
    let wide: Vec<ConsensusLog<u64>> = vec![
        ConsensusLog::ScheduledChange(ScheduledChange { next_authorities: ids(65), delay: 1 << 40 }),
        ConsensusLog::ForcedChange(u64::MAX, ScheduledChange { next_authorities: ids(0), delay: 0 }),
        ConsensusLog::OnDisabled(u64::MAX),
        ConsensusLog::Pause(u64::MAX),
        ConsensusLog::Resume(1),
    ];
    for log in wide {
        let bytes = log.encode();
        let (back, rest) = ConsensusLog::<u64>::decode(&bytes).unwrap();
        assert_eq!(back, log);
        assert!(rest.is_empty());
        assert_eq!(back.encode(), bytes);
    }
}

#[test]
fn decoding_reads_one_signal_and_leaves_the_rest() {
    let mut bytes = Vec::new();
    for log in samples_u32() {
        log.encode_to(&mut bytes);
    }
    let mut input = &bytes[..];
    let mut read = Vec::new();
    while !input.is_empty() {
        let (log, rest) = ConsensusLog::<u32>::decode(input).unwrap();
        assert_eq!(&bytes[bytes.len() - input.len()..bytes.len() - rest.len()], &log.encode()[..]);
        read.push(log);
        input = rest;
    }
    assert_eq!(read, samples_u32());
}

#[test]
fn scheduled_change_round_trips() {
    let change = ScheduledChange { next_authorities: ids(5), delay: 0x11223344u32 };
    let mut bytes = Vec::new();
    change.encode_to(&mut bytes);
    assert_eq!(bytes, (raw(&ids(5)), 0x11223344u32).encode());
    bytes.push(0x99);
    let (back, rest) = ScheduledChange::<u32>::decode(&bytes).unwrap();
    assert_eq!(back, change);
    assert_eq!(rest, &[0x99][..]);
    assert!(ScheduledChange::<u32>::decode(&bytes[..bytes.len() - 2]).is_none());
    assert!(ScheduledChange::<u32>::decode(&[]).is_none());
}

#[test]
fn unknown_discriminants_are_refused() {
    assert!(ConsensusLog::<u32>::decode(&[]).is_none());
    assert!(ConsensusLog::<u32>::decode(&[0, 0, 0, 0, 0]).is_none());
    assert!(ConsensusLog::<u32>::decode(&[6, 0, 0, 0, 0]).is_none());
    assert!(ConsensusLog::<u32>::decode(&[255, 0, 0, 0, 0, 0, 0, 0, 0]).is_none());
}

#[test]
fn signals_cut_short_are_refused() {
    for log in samples_u32() {
        let bytes = log.encode();
        for len in 0..bytes.len() {
            assert!(ConsensusLog::<u32>::decode(&bytes[..len]).is_none());
        }
    }
    assert!(ConsensusLog::<u64>::decode(&[4, 7, 0, 0, 0]).is_none());
    assert!(ConsensusLog::<u32>::decode(&[2, 7, 0, 0, 0]).is_none());
    assert!(ConsensusLog::<u32>::decode(&[2, 7, 0, 0, 0, 4]).is_none());
}

#[test]
fn signals_with_ordinary_lists_are_encodable() {
    for log in samples_u32() {
        assert!(log.is_encodable());
    }
    let change = ScheduledChange { next_authorities: ids(100), delay: 0u64 };
    assert!(change.is_encodable());
    let empty: ScheduledChange<u32> = ScheduledChange { next_authorities: Vec::new(), delay: 0 };
    assert!(empty.is_encodable());
}
