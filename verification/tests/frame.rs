use annex::frame::{bgra_to_rgb, pack_rows, sampled_luma, timestamp_micros};

#[test]
fn padded_rows_are_packed_without_shearing() {
    // Two rows of two pixels, stride 12 bytes (4 bytes of padding).
    let base: Vec<u8> = (0..24).collect();
    let out = pack_rows(&base, 2, 2, 12);
    assert_eq!(out, vec![0, 1, 2, 3, 4, 5, 6, 7, 12, 13, 14, 15, 16, 17, 18, 19]);
    assert_eq!(pack_rows(&[], 0, 0, 0), Vec::<u8>::new());
}

#[test]
fn luma_samples_every_sixty_fourth_pixel() {
    let mut px = vec![0u8; 256 * 3 + 10];
    // First sample pixel: white. Second: pure red. Third: black.
    px[0] = 255;
    px[1] = 255;
    px[2] = 255;
    px[256 + 2] = 255;
    let (sum, n) = sampled_luma(&px);
    assert_eq!(n, 3);
    assert_eq!(sum, 255 + (299 * 255) / 1000);
    assert_eq!(sampled_luma(&[1, 2, 3]), (0, 0));
}

#[test]
fn bgra_becomes_rgb() {
    let bgra = [1, 2, 3, 255, 10, 20, 30, 255];
    assert_eq!(bgra_to_rgb(&bgra, 2, 1), vec![3, 2, 1, 30, 20, 10]);
    // Missing source pixels stay black.
    assert_eq!(bgra_to_rgb(&bgra[..4], 2, 1), vec![3, 2, 1, 0, 0, 0]);
}

#[test]
fn timestamps_convert_to_microseconds() {
    assert_eq!(timestamp_micros(90_000, 90_000), 1_000_000);
    assert_eq!(timestamp_micros(1, 3), 333_333);
    assert_eq!(timestamp_micros(-1, 3), -333_333);
    assert_eq!(timestamp_micros(42, 0), 0);
    assert_eq!(timestamp_micros(42, -5), 0);
    assert_eq!(
        timestamp_micros(i64::MAX, 1),
        ((i64::MAX as i128) * 1_000_000) as i64
    );
}
