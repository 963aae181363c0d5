use annex::capture::{path_is_bundled, permission_help, CaptureConfig, CaptureError};
use annex::shared::{Codec, EncodedSample, EncoderConfig, Error, PixFmt};
use annex::virtual_display::{closest_mode, largest_first, mode_is_hidpi, mode_label, VdError, CLS_DISPLAY};

#[test]
fn encoder_defaults_favour_latency_over_size() {
    let c = EncoderConfig::default();
    assert_eq!((c.width, c.height, c.fps), (1920, 1080, 60));
    assert_eq!(c.bitrate_kbps, 12_000);
    assert_eq!(c.codec, Codec::H264);
    assert_eq!(c.keyframe_interval, 120);
}

#[test]
fn errors_name_their_layer() {
    assert_eq!(Error::VirtualDisplay("gone".into()).message(), "virtual display: gone");
    assert_eq!(Error::Capture("denied".into()).message(), "capture: denied");
    assert_eq!(Error::Encode("x".into()).message(), "encoder: x");
    assert_eq!(Error::Transport("x".into()).message(), "transport: x");
    assert_eq!(Error::Input("x".into()).message(), "input: x");
    assert_eq!(Error::Config("x".into()).message(), "config: x");
    let io = std::io::Error::other("disk full");
    let e: Error = io.into();
    assert_eq!(e.message(), "io: disk full");
}

#[test]
fn samples_report_their_size() {
    let s = EncodedSample {
        data: vec![0, 0, 0, 1, 0x65],
        pts: 0,
        dur: std::time::Duration::from_millis(16),
        keyframe: true,
    };
    assert_eq!(s.len(), 5);
    assert!(!s.is_empty());
    let e = EncodedSample { data: vec![], pts: 1, dur: std::time::Duration::ZERO, keyframe: false };
    assert!(e.is_empty());
}

#[test]
fn permission_advice_depends_on_how_the_app_runs() {
    assert!(permission_help(true).contains("open Annex again"));
    assert!(permission_help(false).contains("quit and reopen the terminal"));
    assert!(path_is_bundled("/Applications/Annex.app/Contents/MacOS/annex"));
    assert!(!path_is_bundled("/Users/me/annex/target/debug/annex-host"));
    assert!(!path_is_bundled(""));
    let cfg = CaptureConfig { display_id: 3, fps: 30, pixel_format: PixFmt::Bgra };
    assert_eq!(cfg.pixel_format, PixFmt::Bgra);
    assert!(matches!(CaptureError::DisplayNotFound(3), CaptureError::DisplayNotFound(3)));
}

#[test]
fn the_closest_mode_is_chosen_by_squared_distance() {
    let modes = [(3840, 2160), (2560, 1440), (1920, 1080), (1600, 1200), (1920, 1080)];
    assert_eq!(closest_mode(&modes, 1920, 1080), Some(2));
    assert_eq!(closest_mode(&modes, 2400, 1400), Some(1));
    // 1700x1150 is nearer 1600x1200 (distance 12500) than 1920x1080 (53300).
    assert_eq!(closest_mode(&modes, 1700, 1150), Some(3));
    assert_eq!(closest_mode(&[], 1920, 1080), None);
}

#[test]
fn hidpi_modes_are_labelled() {
    assert!(mode_is_hidpi(1920, 3840));
    assert!(!mode_is_hidpi(1920, 1920));
    assert_eq!(mode_label(1920, 1080, true), "1920 x 1080 (HiDPI)");
    assert_eq!(mode_label(1280, 800, false), "1280 x 800");
    assert_eq!(CLS_DISPLAY, "CGVirtualDisplay");
    assert!(matches!(VdError::ClassNotFound("x"), VdError::ClassNotFound(_)));
}

#[test]
fn modes_are_listed_largest_first() {
    let sizes = [(1280, 720), (1920, 1080), (1280, 720), (3840, 2160), (1920, 1200)];
    assert_eq!(largest_first(&sizes), vec![3, 4, 1, 0, 2]);
    assert_eq!(largest_first(&[]), Vec::<usize>::new());
    assert_eq!(largest_first(&[(800, 600)]), vec![0]);
}
