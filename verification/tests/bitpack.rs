use encoder::bitpack::uncompressed;
use encoder::frame::{binarize, blank_frame, frames_equal, matches_geometry, pixel_count, THRESHOLD};

fn unpack(bytes: &[u8]) -> Vec<u8> {
    let mut pixels = Vec::new();
    for byte in bytes {
        for j in 0..8 {
            pixels.push((byte >> (7 - j)) & 1);
        }
    }
    pixels
}

#[test]
fn packs_most_significant_bit_first() {
    assert_eq!(uncompressed(&vec![1, 0, 0, 0, 0, 0, 0, 0]), vec![0x80]);
    assert_eq!(uncompressed(&vec![0, 0, 0, 0, 0, 0, 0, 1]), vec![0x01]);
    assert_eq!(uncompressed(&vec![1, 0, 1, 0, 0, 1, 0, 1]), vec![0xA5]);
}

#[test]
fn packs_across_rows_without_realigning() {
    // a 4 x 4 frame: two rows share each byte
    let pixels = vec![1, 1, 1, 1, 0, 0, 0, 0, 0, 1, 0, 1, 1, 0, 1, 0];
    assert_eq!(uncompressed(&pixels), vec![0xF0, 0x5A]);
}

#[test]
fn packed_length_is_pixel_count_over_eight_rounded_down() {
    for n in 0..40usize {
        let pixels = vec![1u8; n];
        assert_eq!(uncompressed(&pixels).len(), n / 8);
    }
}

#[test]
fn incomplete_last_byte_is_dropped() {
    assert_eq!(uncompressed(&vec![1, 1, 1, 1, 1, 1, 1]), Vec::<u8>::new());
    assert_eq!(uncompressed(&vec![1, 1, 1, 1, 1, 1, 1, 1, 1, 1, 1]), vec![0xFF]);
    assert_eq!(uncompressed(&Vec::new()), Vec::<u8>::new());
}

#[test]
fn unpacking_an_aligned_frame_gives_it_back() {
    let mut pixels = Vec::new();
    for i in 0..64u32 {
        pixels.push(((i * 7 + i / 3) % 2) as u8);
    }
    let packed = uncompressed(&pixels);
    assert_eq!(packed.len(), 8);
    assert_eq!(unpack(&packed), pixels);
}

#[test]
fn unpacking_an_unaligned_frame_gives_its_full_groups_back() {
    let pixels = vec![0, 1, 1, 0, 1, 0, 0, 1, 1, 1, 0];
    let packed = uncompressed(&pixels);
    assert_eq!(unpack(&packed), pixels[..8].to_vec());
}

#[test]
fn binarize_cuts_above_the_threshold() {
    assert_eq!(THRESHOLD, 127);
    assert_eq!(binarize(&vec![0, 1, 126, 127, 128, 200, 255]), vec![0, 0, 0, 0, 1, 1, 1]);
    assert_eq!(binarize(&Vec::new()), Vec::<u8>::new());
}

#[test]
fn blank_frame_is_all_zero() {
    assert_eq!(blank_frame(3, 2), vec![0u8; 6]);
    assert_eq!(blank_frame(0, 7), Vec::<u8>::new());
    assert_eq!(blank_frame(300, 300).len(), 90000);
}

#[test]
fn pixel_count_is_width_times_height() {
    assert_eq!(pixel_count(20, 15), 300);
    assert_eq!(pixel_count(0, 9), 0);
    assert_eq!(pixel_count(65535, 65535), 4294836225);
}

#[test]
fn geometry_is_matched_by_the_pixel_count() {
    assert!(matches_geometry(&vec![0; 6], 3, 2));
    assert!(matches_geometry(&vec![0; 6], 2, 3));
    assert!(!matches_geometry(&vec![0; 5], 3, 2));
    assert!(!matches_geometry(&vec![0; 7], 3, 2));
    assert!(matches_geometry(&Vec::new(), 0, 4));
}

#[test]
fn frames_are_equal_pixel_for_pixel() {
    assert!(frames_equal(&vec![0, 1, 1], &vec![0, 1, 1]));
    assert!(!frames_equal(&vec![0, 1, 1], &vec![0, 1, 0]));
    assert!(!frames_equal(&vec![0, 1, 1], &vec![0, 1]));
    assert!(!frames_equal(&vec![0, 1], &vec![0, 1, 1]));
    assert!(frames_equal(&Vec::new(), &Vec::new()));
}
