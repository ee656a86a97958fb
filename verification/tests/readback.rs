use shinra::readback::{padded_bytes_per_row, readback_size, unpad_rows, COPY_BYTES_PER_ROW_ALIGNMENT};

#[test]
fn rows_are_padded_to_the_alignment() {
    assert_eq!(COPY_BYTES_PER_ROW_ALIGNMENT, 256);
    assert_eq!(padded_bytes_per_row(64, 256), 256);
    assert_eq!(padded_bytes_per_row(65, 256), 512);
    assert_eq!(padded_bytes_per_row(320, 256), 1280);
    assert_eq!(padded_bytes_per_row(0, 256), 0);
    assert_eq!(readback_size(1280, 180), 230_400);
}

#[test]
fn padding_is_stripped() {
    let data: Vec<u8> = (0..24u8).collect();
    let px = unpad_rows(&data, 1, 3, 8);
    assert_eq!(px, vec![0, 1, 2, 3, 8, 9, 10, 11, 16, 17, 18, 19]);
    assert_eq!(unpad_rows(&data, 2, 3, 8), data);
    assert!(unpad_rows(&[], 5, 0, 20).is_empty());
}
