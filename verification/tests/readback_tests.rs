use shad_env::{padded_row_bytes, rgba_from_padded_bgra};

#[test]
fn padded_row_bytes_rounds_up_to_alignment() {
    assert_eq!(padded_row_bytes(0, 256), 0);
    assert_eq!(padded_row_bytes(1, 256), 256);
    assert_eq!(padded_row_bytes(64, 256), 256);
    assert_eq!(padded_row_bytes(65, 256), 512);
    assert_eq!(padded_row_bytes(600, 256), 2560);
    assert_eq!(padded_row_bytes(3, 4), 12);
}

#[test]
fn readback_swizzles_bgra_to_rgba() {
    // one pixel, rows padded to 8 bytes
    let data = [10u8, 20, 30, 40, 0, 0, 0, 0];
    assert_eq!(rgba_from_padded_bgra(&data, 1, 1, 8), vec![30, 20, 10, 40]);
}

#[test]
fn readback_drops_row_padding() {
    // 2x2 image, each row 12 bytes: 8 of pixels, 4 of padding
    let data = [
        1u8, 2, 3, 4, 5, 6, 7, 8, 99, 99, 99, 99, //
        9, 10, 11, 12, 13, 14, 15, 16, 98, 98, 98, 98,
    ];
    let out = rgba_from_padded_bgra(&data, 2, 2, 12);
    assert_eq!(out, vec![3, 2, 1, 4, 7, 6, 5, 8, 11, 10, 9, 12, 15, 14, 13, 16]);
}

#[test]
fn readback_of_empty_image_is_empty() {
    assert!(rgba_from_padded_bgra(&[], 0, 0, 0).is_empty());
    assert!(rgba_from_padded_bgra(&[1, 2, 3], 0, 3, 1).is_empty());
}

#[test]
fn readback_swizzle_twice_restores_pixels() {
    let data: Vec<u8> = (0u8..64).collect();
    let once = rgba_from_padded_bgra(&data, 4, 4, 16);
    let twice = rgba_from_padded_bgra(&once, 4, 4, 16);
    assert_eq!(twice, data);
}
