use annex::tray::{clients_line, input_line, menu_lines, mode_checks, status_line, Status};

#[test]
fn the_menu_says_who_is_watching() {
    assert_eq!(clients_line(0, 30), "No clients connected");
    assert_eq!(clients_line(1, 30), "1 client  ·  30 fps");
    assert_eq!(clients_line(3, 60), "3 clients  ·  60 fps");
    assert_eq!(status_line("a new desktop", (1920, 1080)), "Streaming a new desktop at 1920x1080");
    assert_eq!(input_line(true), "Clients CAN control this Mac");
    assert_eq!(input_line(false), "View only");
}

#[test]
fn the_tick_follows_the_live_mode() {
    let modes = vec!["1920 x 1080".to_string(), "2560 x 1440".to_string()];
    assert_eq!(mode_checks(&modes, "2560 x 1440"), vec![false, true]);
    assert_eq!(mode_checks(&modes, "800 x 600"), vec![false, false]);
}

#[test]
fn menu_lines_follow_the_status() {
    let s = Status {
        url: "http://192.168.1.75:8787/?t=abc".to_string(),
        clients: 2,
        fps_out: 59,
        source: "this screen".to_string(),
        resolution: (2560, 1440),
        modes: vec![],
        current_mode: String::new(),
        input_enabled: false,
    };
    let (a, b, c, d) = menu_lines(&s);
    assert_eq!(a, "Streaming this screen at 2560x1440");
    assert_eq!(b, "2 clients  ·  59 fps");
    assert_eq!(c, "View only");
    assert_eq!(d, s.url);
}
