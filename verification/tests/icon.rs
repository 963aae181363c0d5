use annex::icon::{
    downsample, iconset_name, iconset_sizes, qr_image_from_modules, qr_rgba, qr_text,
    qr_text_from_modules, tray_rgba,
};

fn alpha(px: &[u8], x: usize, y: usize) -> u8 {
    px[(y * 36 + x) * 4 + 3]
}

#[test]
fn the_tray_glyph_is_a_black_template() {
    let (px, w, h) = tray_rgba();
    assert_eq!((w, h), (36, 36));
    assert_eq!(px.len(), 36 * 36 * 4);
    // Only alpha carries the shape.
    for (i, b) in px.iter().enumerate() {
        if i % 4 != 3 {
            assert_eq!(*b, 0);
        }
    }
    assert_eq!(alpha(&px, 4, 10), 255); // left edge of the screen
    assert_eq!(alpha(&px, 4, 7), 0); // corner knocked off
    assert_eq!(alpha(&px, 17, 17), 0); // inside the screen
    assert_eq!(alpha(&px, 15, 26), 255); // neck
    assert_eq!(alpha(&px, 10, 31), 255); // foot
    assert_eq!(alpha(&px, 0, 0), 0);
}

#[test]
fn downsampling_averages_each_block() {
    // A 4x4 image; each 2x2 block has distinct values per channel.
    let mut src = vec![0u8; 4 * 4 * 4];
    for y in 0..4 {
        for x in 0..4 {
            let i = (y * 4 + x) * 4;
            src[i] = (x * 10) as u8;
            src[i + 1] = (y * 10) as u8;
            src[i + 2] = 7;
            src[i + 3] = if x == 0 { 0 } else { 255 };
        }
    }
    let out = downsample(&src, 4, 2);
    assert_eq!(out.len(), 2 * 2 * 4);
    // Top-left block: x in {0,1}, y in {0,1}.
    assert_eq!(&out[0..4], &[5, 5, 7, 127]);
    // Bottom-right block: x in {2,3}, y in {2,3}.
    assert_eq!(&out[12..16], &[25, 25, 7, 255]);
    assert_eq!(downsample(&src, 4, 4), vec![15, 15, 7, 191]);
    assert_eq!(downsample(&src, 4, 5), Vec::<u8>::new());
}

#[test]
fn qr_modules_render_with_a_quiet_zone() {
    let text = qr_text_from_modules(&[true]).expect("square");
    assert_eq!(text, "    █████\n    ██▄██\n    █████\n");
    assert_eq!(qr_text_from_modules(&[true, false]), None);

    let (px, w, h) = qr_image_from_modules(&[true], 1).expect("square");
    assert_eq!((w, h), (9, 9));
    assert_eq!(px.len(), 9 * 9 * 4);
    let dark = (4 * 9 + 4) * 4;
    assert_eq!(&px[dark..dark + 4], &[0, 0, 0, 255]);
    assert_eq!(&px[0..4], &[255, 255, 255, 255]);
    let (px, w, _) = qr_image_from_modules(&[false, false, false, true], 2).expect("square");
    assert_eq!(w, 20);
    // Module (1,1) covers pixels 10..12 in both directions.
    let i = (10 * 20 + 10) * 4;
    assert_eq!(&px[i..i + 4], &[0, 0, 0, 255]);
    let j = (8 * 20 + 8) * 4;
    assert_eq!(&px[j..j + 4], &[255, 255, 255, 255]);
}

#[test]
fn qr_codes_for_text_are_square_and_sized_by_version() {
    // "hello" fits a version-1 code: 21 modules a side.
    let (px, w, h) = qr_rgba("hello", 2).expect("fits");
    assert_eq!((w, h), (58, 58));
    assert_eq!(px.len(), 58 * 58 * 4);
    let text = qr_text("hello").expect("fits");
    assert_eq!(text.lines().count(), 13);
    assert!(text.lines().all(|l| l.chars().count() == 4 + 25));
    // Far too long for any QR code.
    let long = "x".repeat(8000);
    assert!(qr_rgba(&long, 1).is_none());
    assert!(qr_text(&long).is_none());
}

#[test]
fn iconset_entries_are_named_as_the_tool_requires() {
    let sizes = iconset_sizes();
    assert_eq!(sizes.len(), 10);
    assert_eq!(sizes[0], (16, 1));
    assert_eq!(sizes[9], (512, 2));
    assert_eq!(iconset_name(16, 1), "icon_16x16.png");
    assert_eq!(iconset_name(512, 2), "icon_512x512@2x.png");
}
