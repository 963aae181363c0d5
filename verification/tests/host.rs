use annex::host::{bitrate_change_matters, help_text, parse_command, parse_unsigned, Command, Options};

fn args(v: &[&str]) -> Vec<String> {
    v.iter().map(|s| s.to_string()).collect()
}

#[test]
fn defaults_extend_and_stay_view_only() {
    let o = Options::default();
    assert!(o.extend);
    assert!(!o.allow_input);
    assert_eq!(o.port, 8787);
    assert_eq!(o.fps, 60);
    assert_eq!(o.bitrate_kbps, 12_000);
    assert!(o.print_qr);
    assert_eq!(o.max_clients, 4);
}

#[test]
fn no_arguments_runs_the_application() {
    assert_eq!(parse_command(&[]), Command::Run(Options::default()));
    assert_eq!(
        parse_command(&args(&["mirror"])),
        Command::Run(Options { extend: false, ..Options::default() })
    );
    assert_eq!(parse_command(&args(&["extend"])), Command::Run(Options::default()));
}

#[test]
fn flags_are_recognised_wherever_they_appear() {
    // `annex --input` must not silently run a harness.
    assert_eq!(
        parse_command(&args(&["--input"])),
        Command::Run(Options { allow_input: true, ..Options::default() })
    );
    assert_eq!(
        parse_command(&args(&["mirror", "--port", "9000", "--input"])),
        Command::Run(Options { extend: false, allow_input: true, port: 9000, ..Options::default() })
    );
    // A port that does not parse falls back to the default.
    assert_eq!(
        parse_command(&args(&["extend", "--port", "99999"])),
        Command::Run(Options::default())
    );
    // The port's value is not a flag, so on its own it names the mode.
    assert_eq!(
        parse_command(&args(&["--port", "9000"])),
        Command::Unknown("9000".to_string())
    );
}

#[test]
fn harnesses_read_their_arguments() {
    assert_eq!(parse_command(&args(&["m0"])), Command::M0 { hold_secs: 20 });
    assert_eq!(parse_command(&args(&["m0", "60"])), Command::M0 { hold_secs: 60 });
    assert_eq!(parse_command(&args(&["m1"])), Command::M1 { frames: 10, scale: 1 });
    assert_eq!(parse_command(&args(&["m1", "4", "2"])), Command::M1 { frames: 4, scale: 2 });
    assert_eq!(parse_command(&args(&["m2", "45"])), Command::M2 { frames: 45 });
    assert_eq!(parse_command(&args(&["m2", "x"])), Command::M2 { frames: 60 });
    assert_eq!(
        parse_command(&args(&["m3"])),
        Command::M3 { use_virtual: false, port: 8787 }
    );
    assert_eq!(
        parse_command(&args(&["m3", "virtual"])),
        Command::M3 { use_virtual: true, port: 8787 }
    );
    assert_eq!(
        parse_command(&args(&["m3", "8788"])),
        Command::M3 { use_virtual: false, port: 8788 }
    );
}

#[test]
fn unknown_arguments_are_not_guessed_at() {
    // A bare number used to mean "M0 hold seconds".
    assert_eq!(parse_command(&args(&["8788"])), Command::Unknown("8788".to_string()));
    assert_eq!(parse_command(&args(&["help"])), Command::Help);
    assert_eq!(parse_command(&args(&["m1", "--help"])), Command::Help);
    assert_eq!(parse_command(&args(&["-h"])), Command::Help);
    assert_eq!(
        parse_command(&args(&["--emit-iconset", "out.iconset"])),
        Command::EmitIconset("out.iconset".to_string())
    );
    assert_eq!(
        parse_command(&args(&["--emit-iconset"])),
        Command::EmitIconset("Annex.iconset".to_string())
    );
    assert!(help_text().starts_with("Annex: turn any laptop"));
}

#[test]
fn numbers_parse_as_std_parses_them() {
    assert_eq!(parse_unsigned("8787", 65535), Some(8787));
    assert_eq!(parse_unsigned("+12", 65535), Some(12));
    assert_eq!(parse_unsigned("007", 65535), Some(7));
    assert_eq!(parse_unsigned("65536", 65535), None);
    assert_eq!(parse_unsigned("", 65535), None);
    assert_eq!(parse_unsigned("+", 65535), None);
    assert_eq!(parse_unsigned("-1", 65535), None);
    assert_eq!(parse_unsigned("12a", 65535), None);
    assert_eq!(parse_unsigned("18446744073709551615", u64::MAX), Some(u64::MAX));
    assert_eq!(parse_unsigned("18446744073709551616", u64::MAX), None);
    for s in ["0", "65535", "65536", "+1", "x", "", "99999999999999999999"] {
        assert_eq!(parse_unsigned(s, 65535), s.parse::<u16>().ok().map(u64::from));
    }
}

#[test]
fn only_meaningful_bitrate_changes_are_applied() {
    // A twentieth of a 12000 kbps ceiling is 600.
    assert!(!bitrate_change_matters(11_500, 12_000, 12_000));
    assert!(!bitrate_change_matters(11_400, 12_000, 12_000));
    assert!(bitrate_change_matters(11_399, 12_000, 12_000));
    assert!(bitrate_change_matters(9_000, 8_000, 12_000));
}
