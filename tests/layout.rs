use harness::{
    align_copy_bytes_per_row, copy_bytes_per_row, depad_frame, depad_rows, readback_buffer_size,
    COPY_BYTES_PER_ROW_ALIGNMENT,
};

#[test]
fn alignment_rounds_up_to_multiple_of_256() {
    assert_eq!(COPY_BYTES_PER_ROW_ALIGNMENT, 256);
    assert_eq!(align_copy_bytes_per_row(0), 0);
    assert_eq!(align_copy_bytes_per_row(1), 256);
    assert_eq!(align_copy_bytes_per_row(256), 256);
    assert_eq!(align_copy_bytes_per_row(257), 512);
    assert_eq!(align_copy_bytes_per_row(1920 * 4), 7680);
    assert_eq!(align_copy_bytes_per_row(100 * 4), 512);
}

#[test]
fn depad_without_padding_is_identity() {
    let data: Vec<u8> = (0..48u8).collect();
    assert_eq!(depad_rows(&data, 16, 16, 3), data);
    // The buffer is copied as it is even where its length is not a whole
    // number of rows.
    let odd: Vec<u8> = (0..21u8).collect();
    assert_eq!(depad_rows(&odd, 8, 8, 2), odd);
}

#[test]
fn depad_strips_row_padding() {
    // Three rows of 6 pixel bytes, each padded to 8 bytes.
    let data: Vec<u8> = vec![
        1, 2, 3, 4, 5, 6, 0, 0, //
        7, 8, 9, 10, 11, 12, 0, 0, //
        13, 14, 15, 16, 17, 18, 0, 0,
    ];
    let out = depad_rows(&data, 6, 8, 3);
    assert_eq!(out.len(), 6 * 3);
    assert_eq!(out, (1..=18u8).collect::<Vec<u8>>());
}

#[test]
fn depad_stops_at_height() {
    let data: Vec<u8> = vec![1, 2, 0, 3, 4, 0, 5, 6, 0];
    assert_eq!(depad_rows(&data, 2, 3, 2), vec![1, 2, 3, 4]);
}

#[test]
fn depad_truncates_short_buffer() {
    // Room for three rows of 4 bytes at stride 6, but only 14 bytes arrived:
    // two full rows, then a chunk of 2 bytes.
    let data: Vec<u8> = vec![1, 2, 3, 4, 0, 0, 5, 6, 7, 8, 0, 0, 9, 10];
    assert_eq!(depad_rows(&data, 4, 6, 3), vec![1, 2, 3, 4, 5, 6, 7, 8, 9, 10]);
    assert_eq!(depad_rows(&[], 4, 6, 3), Vec::<u8>::new());
}

#[test]
fn depad_frame_uses_aligned_stride() {
    // Two rows of 3 RGBA pixels: 12 pixel bytes, stride 256.
    let mut frame = vec![0u8; 512];
    for i in 0..12 {
        frame[i] = i as u8 + 1;
        frame[256 + i] = i as u8 + 101;
    }
    let out = depad_frame(&frame, 3, 2, 4);
    let mut expected: Vec<u8> = (1..=12u8).collect();
    expected.extend(101..=112u8);
    assert_eq!(out, expected);
}

#[test]
fn depad_frame_of_aligned_width_is_identity() {
    let frame: Vec<u8> = (0..=255u8).chain(0..=255u8).collect();
    assert_eq!(depad_frame(&frame, 64, 2, 4), frame);
}

#[test]
fn copy_stride_for_formats() {
    assert_eq!(copy_bytes_per_row(1920, 1, 4), Some(7680));
    assert_eq!(copy_bytes_per_row(100, 1, 4), Some(512));
    // Block-compressed: 4x4 blocks of 16 bytes.
    assert_eq!(copy_bytes_per_row(100, 4, 16), Some(512));
    assert_eq!(copy_bytes_per_row(3, 4, 16), None);
    assert_eq!(copy_bytes_per_row(0, 1, 4), None);
    assert_eq!(copy_bytes_per_row(u32::MAX, 1, 4), None);
}

#[test]
fn readback_buffer_sizes() {
    assert_eq!(readback_buffer_size(1920, 1080, 4), Some(7680 * 1080));
    assert_eq!(readback_buffer_size(100, 10, 4), Some(512 * 10));
    assert_eq!(readback_buffer_size(0, 10, 4), Some(0));
    assert_eq!(readback_buffer_size(u32::MAX, u32::MAX, u32::MAX), None);
}

#[test]
fn depad_ignores_bytes_past_height() {
    // Two padded rows followed by slack that the device buffer had left over.
    let data: Vec<u8> = vec![1, 2, 3, 0, 4, 5, 6, 0, 9, 9, 9, 9, 9];
    let out = depad_rows(&data, 3, 4, 2);
    assert_eq!(out.len(), 3 * 2);
    assert_eq!(out, vec![1, 2, 3, 4, 5, 6]);
}
