use encoder::algorithm::{algorithms, Algorithm};
use encoder::error::{EncodeError, SelectError};

#[test]
fn codes_are_stable() {
    assert_eq!(Algorithm::Uncompressed.code(), 0);
    assert_eq!(Algorithm::Same.code(), 1);
    assert_eq!(Algorithm::RunLengthRows.code(), 2);
    assert_eq!(Algorithm::RunLengthColumns.code(), 3);
    assert_eq!(Algorithm::PartialRowsUncompressed.code(), 4);
    assert_eq!(Algorithm::PartialColumnsUncompressed.code(), 5);
}

#[test]
fn names_are_those_of_the_report() {
    assert_eq!(Algorithm::Uncompressed.name(), "1bpp");
    assert_eq!(Algorithm::Same.name(), "Frame repeat");
    assert_eq!(Algorithm::RunLengthRows.name(), "Run-length Row");
    assert_eq!(Algorithm::RunLengthColumns.name(), "Run-length Column");
    assert_eq!(Algorithm::PartialRowsUncompressed.name(), "Partial Rows 1bpp");
    assert_eq!(Algorithm::PartialColumnsUncompressed.name(), "Partial Rows 1bpp");
}

#[test]
fn active_list_is_in_tie_order() {
    assert_eq!(
        algorithms(),
        vec![
            Algorithm::Uncompressed,
            Algorithm::Same,
            Algorithm::RunLengthRows,
            Algorithm::RunLengthColumns
        ]
    );
}

#[test]
fn uncompressed_encodes_the_bit_packed_raster() {
    let current = vec![1, 0, 0, 0, 0, 0, 1, 1, 0, 0, 0, 0, 1, 1, 1, 1];
    let last = vec![0; 16];
    assert_eq!(Algorithm::Uncompressed.encode(&current, &last, 4, 4), Ok(vec![0x83, 0x0F]));
}

#[test]
fn frame_repeat_gives_an_empty_payload_for_an_equal_frame() {
    let frame = vec![0, 1, 1, 0, 1, 1];
    assert_eq!(Algorithm::Same.encode(&frame, &frame.clone(), 3, 2), Ok(Vec::new()));
    assert_eq!(Algorithm::Same.encode(&Vec::new(), &Vec::new(), 0, 0), Ok(Vec::new()));
}

#[test]
fn frame_repeat_does_not_apply_to_a_differing_frame() {
    let current = vec![0, 1, 1, 0, 1, 1];
    let mut last = current.clone();
    last[5] = 0;
    assert_eq!(Algorithm::Same.encode(&current, &last, 3, 2), Err(EncodeError::NotApplicable));
    last[5] = 1;
    last[0] = 1;
    assert_eq!(Algorithm::Same.encode(&current, &last, 3, 2), Err(EncodeError::NotApplicable));
}

#[test]
fn run_lengths_encode_by_rows_and_by_columns() {
    // 3 x 2:  1 0 0
    //         1 1 0
    let current = vec![1, 0, 0, 1, 1, 0];
    let last = vec![0; 6];
    assert_eq!(
        Algorithm::RunLengthRows.encode(&current, &last, 3, 2),
        Ok(vec![0x80, 0x01, 0x81, 0x00])
    );
    assert_eq!(
        Algorithm::RunLengthColumns.encode(&current, &last, 3, 2),
        Ok(vec![0x81, 0x00, 0x80, 0x01])
    );
}

#[test]
fn reserved_algorithms_encode_nothing() {
    let frame = vec![0; 6];
    assert_eq!(
        Algorithm::PartialRowsUncompressed.encode(&frame, &frame, 3, 2),
        Err(EncodeError::Reserved)
    );
    assert_eq!(
        Algorithm::PartialColumnsUncompressed.encode(&frame, &frame, 3, 2),
        Err(EncodeError::Reserved)
    );
    assert_eq!(
        Algorithm::PartialColumnsUncompressed.encode(&frame, &frame, 1, 1),
        Err(EncodeError::Reserved)
    );
}

#[test]
fn a_frame_of_another_size_is_refused_by_every_algorithm() {
    let good = vec![0; 6];
    let short = vec![0; 5];
    let long = vec![0; 7];
    for algorithm in algorithms() {
        assert_eq!(algorithm.encode(&short, &good, 3, 2), Err(EncodeError::GeometryMismatch));
        assert_eq!(algorithm.encode(&long, &good, 3, 2), Err(EncodeError::GeometryMismatch));
        assert_eq!(algorithm.encode(&good, &short, 3, 2), Err(EncodeError::GeometryMismatch));
        assert_eq!(algorithm.encode(&good, &long, 3, 2), Err(EncodeError::GeometryMismatch));
        assert!(algorithm.encode(&good, &good, 3, 2).is_ok());
    }
}

#[test]
fn errors_describe_themselves() {
    assert_eq!(EncodeError::Reserved.message(), "reserved algorithm");
    assert_eq!(
        EncodeError::GeometryMismatch.message(),
        "frame size does not match width and height"
    );
    assert_eq!(EncodeError::NotApplicable.message(), "frame differs from the previous frame");
    assert_eq!(
        SelectError::GeometryMismatch.message(),
        "frame size does not match width and height"
    );
    assert_eq!(SelectError::NoCandidate.message(), "no algorithm could encode the frame");
}
