use byteorder::{BigEndian, WriteBytesExt};
use encoder::algorithm::{algorithms, Algorithm};
use encoder::container::{
    container_header, encode_algos, write_container, write_runs, EncodedFrame, MergeAction,
    MergeState, MAX_COUNT,
};
use encoder::video::encode_video;
use encoder::error::SelectError;

fn frame(algorithm: Algorithm, payload: &[u8]) -> EncodedFrame {
    EncodedFrame { algorithm, payload: payload.to_vec() }
}

fn algorithm_of(code: u8) -> Algorithm {
    match code {
        0 => Algorithm::Uncompressed,
        1 => Algorithm::Same,
        2 => Algorithm::RunLengthRows,
        3 => Algorithm::RunLengthColumns,
        4 => Algorithm::PartialRowsUncompressed,
        _ => Algorithm::PartialColumnsUncompressed,
    }
}

/// Frames with the given codes; frame `i` has the payload `[i, i]`.
fn frames_of(codes: &[u8]) -> Vec<EncodedFrame> {
    let mut frames = Vec::new();
    for (i, code) in codes.iter().enumerate() {
        frames.push(frame(algorithm_of(*code), &[i as u8, i as u8]));
    }
    frames
}

/// Splits records whose frames all have payloads of two bytes.
fn split_records(bytes: &[u8]) -> Vec<(u8, u8, Vec<u8>)> {
    let mut records = Vec::new();
    let mut at = 0;
    while at < bytes.len() {
        let header = bytes[at];
        let frames = (header & 0x1f) as usize + 1;
        let payload = bytes[at + 1..at + 1 + 2 * frames].to_vec();
        records.push((header >> 5, header & 0x1f, payload));
        at += 1 + 2 * frames;
    }
    records
}

#[test]
fn header_is_width_height_framerate() {
    assert_eq!(container_header(8, 1, 30), vec![0x00, 0x08, 0x00, 0x01, 0x1E]);
    assert_eq!(container_header(0x0102, 0x0304, 5), vec![1, 2, 3, 4, 5]);
    assert_eq!(container_header(0xFFFF, 0, 255), vec![0xFF, 0xFF, 0, 0, 0xFF]);
    assert_eq!(container_header(256, 255, 0), vec![1, 0, 0, 255, 0]);
}

#[test]
fn header_is_what_a_big_endian_writer_writes() {
    for (w, h, r) in [(20u16, 15u16, 30u8), (640, 480, 24), (0xABCD, 0x1234, 60)] {
        let mut expected: Vec<u8> = Vec::new();
        expected.write_u16::<BigEndian>(w).unwrap();
        expected.write_u16::<BigEndian>(h).unwrap();
        expected.write_u8(r).unwrap();
        assert_eq!(container_header(w, h, r), expected);
    }
}

#[test]
fn record_is_header_byte_and_payloads() {
    let frames = vec![
        frame(Algorithm::Uncompressed, &[1, 2]),
        frame(Algorithm::RunLengthRows, &[3]),
        frame(Algorithm::RunLengthRows, &[]),
        frame(Algorithm::RunLengthRows, &[4, 5, 6]),
        frame(Algorithm::Same, &[]),
    ];
    assert_eq!(encode_algos(&frames, 2, 3, Algorithm::RunLengthRows), vec![0x42, 3, 4, 5, 6]);
    assert_eq!(encode_algos(&frames, 0, 0, Algorithm::Uncompressed), vec![0x00, 1, 2]);
    assert_eq!(encode_algos(&frames, 0, 4, Algorithm::Same), vec![0x20]);
    assert_eq!(encode_algos(&frames, 1, 2, Algorithm::RunLengthColumns), vec![0x61, 3]);
}

#[test]
fn header_byte_has_the_code_in_the_high_bits() {
    let frames = frames_of(&[0; 32]);
    assert_eq!(encode_algos(&frames, 31, 31, Algorithm::Uncompressed)[0], 0x1F);
    assert_eq!(encode_algos(&frames, 31, 31, Algorithm::Same)[0], 0x3F);
    assert_eq!(encode_algos(&frames, 0, 0, Algorithm::RunLengthColumns)[0], 0x60);
    assert_eq!(encode_algos(&frames, 7, 9, Algorithm::PartialColumnsUncompressed)[0], 0xA7);
}

#[test]
fn merge_steps_follow_the_state_machine() {
    let rows = Algorithm::RunLengthRows;
    let same = Algorithm::Same;
    assert_eq!(
        MergeState::Empty.step(rows),
        (MergeState::Open { algorithm: rows, count: 0 }, MergeAction::Keep)
    );
    assert_eq!(
        MergeState::Open { algorithm: rows, count: 0 }.step(rows),
        (MergeState::Open { algorithm: rows, count: 1 }, MergeAction::Keep)
    );
    assert_eq!(
        MergeState::Open { algorithm: rows, count: 29 }.step(rows),
        (MergeState::Open { algorithm: rows, count: 30 }, MergeAction::Keep)
    );
    assert_eq!(
        MergeState::Open { algorithm: rows, count: 30 }.step(rows),
        (MergeState::Empty, MergeAction::FlushThrough { algorithm: rows })
    );
    assert_eq!(
        MergeState::Open { algorithm: rows, count: 4 }.step(same),
        (
            MergeState::Open { algorithm: same, count: 0 },
            MergeAction::FlushBefore { algorithm: rows, count: 4 }
        )
    );
    assert_eq!(
        MergeState::Open { algorithm: rows, count: 30 }.step(same),
        (
            MergeState::Open { algorithm: same, count: 0 },
            MergeAction::FlushBefore { algorithm: rows, count: 30 }
        )
    );
    assert_eq!(MAX_COUNT, 31);
}

#[test]
fn frames_of_one_algorithm_share_a_record() {
    let frames = frames_of(&[0, 0, 0, 1, 1]);
    assert_eq!(
        write_runs(&frames),
        vec![(0 << 5) | 2, 0, 0, 1, 1, 2, 2, (1 << 5) | 1, 3, 3, 4, 4]
    );
}

#[test]
fn a_run_is_cut_at_32_frames() {
    let frames = frames_of(&[2; 33]);
    let records = split_records(&write_runs(&frames));
    assert_eq!(records.len(), 2);
    assert_eq!((records[0].0, records[0].1), (2, 31));
    assert_eq!((records[1].0, records[1].1), (2, 0));
    let mut first = Vec::new();
    for i in 0..32u8 {
        first.push(i);
        first.push(i);
    }
    assert_eq!(records[0].2, first);
    assert_eq!(records[1].2, vec![32, 32]);
}

#[test]
fn a_run_of_exactly_32_frames_is_one_record() {
    let records = split_records(&write_runs(&frames_of(&[3; 32])));
    assert_eq!(records.len(), 1);
    assert_eq!((records[0].0, records[0].1), (3, 31));
    let records = split_records(&write_runs(&frames_of(&[3; 64])));
    assert_eq!(records.len(), 2);
    assert_eq!((records[0].0, records[0].1), (3, 31));
    assert_eq!((records[1].0, records[1].1), (3, 31));
}

#[test]
fn a_single_frame_is_a_run_of_one() {
    assert_eq!(write_runs(&frames_of(&[1])), vec![0x20, 0, 0]);
    assert_eq!(write_runs(&vec![frame(Algorithm::Same, &[])]), vec![0x20]);
}

#[test]
fn no_frames_give_no_records() {
    assert_eq!(write_runs(&Vec::new()), Vec::<u8>::new());
    assert_eq!(write_container(20, 15, 30, &Vec::new()), vec![0, 20, 0, 15, 30]);
}

#[test]
fn runs_cover_every_frame_once_and_in_order() {
    let mut codes = Vec::new();
    let mut x: u32 = 7;
    for _ in 0..500 {
        x = x.wrapping_mul(1664525).wrapping_add(1013904223);
        let code = if (x >> 24) % 11 == 0 { ((x >> 8) % 4) as u8 } else { *codes.last().unwrap_or(&0) };
        codes.push(code);
    }
    let frames = frames_of(&codes);
    let records = split_records(&write_runs(&frames));
    let mut at = 0usize;
    for (i, (code, count, payload)) in records.iter().enumerate() {
        let n = *count as usize + 1;
        assert!(n >= 1 && n <= 32);
        for k in 0..n {
            assert_eq!(codes[at + k], *code);
            assert_eq!(payload[2 * k], (at + k) as u8);
        }
        // a run that is not full ends where the algorithm changes
        if n < 32 && at + n < codes.len() {
            assert_ne!(codes[at + n], *code);
        }
        at += n;
        assert!(i < 500);
    }
    assert_eq!(at, codes.len());
}

#[test]
fn container_is_header_then_records() {
    let frames = frames_of(&[0, 0, 0, 1, 1]);
    let mut expected = vec![0x01, 0x40, 0x00, 0xF0, 25];
    expected.extend(write_runs(&frames));
    assert_eq!(write_container(320, 240, 25, &frames), expected);
}

#[test]
fn single_black_frame_uncompressed() {
    // 8 x 1, all black, encoded by the bit packer
    let pixels = vec![0u8; 8];
    let payload = Algorithm::Uncompressed.encode(&pixels, &vec![0u8; 8], 8, 1).unwrap();
    let frames = vec![EncodedFrame { algorithm: Algorithm::Uncompressed, payload }];
    assert_eq!(
        write_container(8, 1, 30, &frames),
        vec![0x00, 0x08, 0x00, 0x01, 0x1E, 0x00, 0x00]
    );
    assert_eq!(
        encode_video(8, 1, 30, &vec![Algorithm::Uncompressed], &vec![pixels]),
        Ok(vec![0x00, 0x08, 0x00, 0x01, 0x1E, 0x00, 0x00])
    );
}

#[test]
fn video_is_encoded_frame_by_frame() {
    let a = vec![1, 0, 1, 0, 1, 0, 1, 0];
    let b = vec![1u8; 8];
    let frames = vec![vec![0u8; 8], a.clone(), a.clone(), a.clone(), b.clone(), b.clone()];
    // repeat | raster | repeat repeat | raster | repeat
    assert_eq!(
        encode_video(8, 1, 30, &algorithms(), &frames),
        Ok(vec![0, 8, 0, 1, 30, 0x20, 0x00, 0xAA, 0x21, 0x00, 0xFF, 0x20])
    );
}

#[test]
fn video_without_frames_is_the_header() {
    assert_eq!(encode_video(20, 15, 30, &algorithms(), &Vec::new()), Ok(vec![0, 20, 0, 15, 30]));
}

#[test]
fn video_stops_at_the_first_frame_that_fails() {
    let good = vec![0u8; 8];
    assert_eq!(
        encode_video(8, 1, 30, &algorithms(), &vec![good.clone(), vec![0u8; 9], good.clone()]),
        Err(SelectError::GeometryMismatch)
    );
    assert_eq!(
        encode_video(8, 1, 30, &vec![Algorithm::Same], &vec![good.clone(), vec![1u8; 8]]),
        Err(SelectError::NoCandidate)
    );
    // the first failure decides
    assert_eq!(
        encode_video(8, 1, 30, &vec![Algorithm::Same], &vec![vec![1u8; 8], vec![0u8; 3]]),
        Err(SelectError::NoCandidate)
    );
    assert_eq!(
        encode_video(8, 1, 30, &vec![Algorithm::Same], &vec![vec![0u8; 3], vec![1u8; 8]]),
        Err(SelectError::GeometryMismatch)
    );
}

#[test]
fn encoding_twice_gives_the_same_bytes() {
    let mut frames = Vec::new();
    let mut x: u32 = 99;
    let mut pixels = vec![0u8; 20 * 15];
    for _ in 0..80 {
        x = x.wrapping_mul(1664525).wrapping_add(1013904223);
        if (x >> 20) % 3 != 0 {
            for p in pixels.iter_mut() {
                x = x.wrapping_mul(1664525).wrapping_add(1013904223);
                if (x >> 16) % 13 == 0 {
                    *p ^= 1;
                }
            }
        }
        frames.push(pixels.clone());
    }
    let first = encode_video(20, 15, 30, &algorithms(), &frames);
    let second = encode_video(20, 15, 30, &algorithms(), &frames.clone());
    assert!(first.is_ok());
    assert_eq!(first, second);
}
