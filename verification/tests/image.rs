use annex::frame::bgra_png;
use annex::image::rgba_png;

fn decode(bytes: &[u8]) -> (png::ColorType, u32, u32, Vec<u8>) {
    let decoder = png::Decoder::new(std::io::Cursor::new(bytes.to_vec()));
    let mut reader = decoder.read_info().expect("a PNG header");
    let mut buf = vec![0; reader.output_buffer_size()];
    let info = reader.next_frame(&mut buf).expect("one frame");
    buf.truncate(info.buffer_size());
    (info.color_type, info.width, info.height, buf)
}

#[test]
fn rgba_images_encode_to_png_and_back() {
    let px = vec![255, 0, 0, 255, 0, 0, 0, 0];
    let file = rgba_png(&px, 2, 1).expect("encodes");
    assert_eq!(&file[..8], &[137, 80, 78, 71, 13, 10, 26, 10]);
    assert_ne!(file, px);
    assert_eq!(decode(&file), (png::ColorType::Rgba, 2, 1, px));
}

#[test]
fn png_refuses_empty_or_mismatched_images() {
    assert_eq!(rgba_png(&[], 0, 0), None);
    assert_eq!(rgba_png(&[0; 4], 1, 0), None);
    assert_eq!(rgba_png(&[0; 7], 2, 1), None);
    assert_eq!(rgba_png(&[0; 12], 2, 1), None);
    assert_eq!(bgra_png(&[0; 4], 0, 1), None);
}

#[test]
fn frames_become_rgb_pngs_with_channels_swapped() {
    // Two BGRA pixels: pure blue, then pure red.
    let bgra = [255, 0, 0, 255, 0, 0, 255, 255];
    let file = bgra_png(&bgra, 2, 1).expect("encodes");
    assert_eq!(decode(&file), (png::ColorType::Rgb, 2, 1, vec![0, 0, 255, 255, 0, 0]));
}
