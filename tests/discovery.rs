use pagenode::{
    parse_announcement, parse_port, resolve_override, scan, settle, trim_white_space, BackendPort,
    ScanState, SidecarEvent,
};

fn line(s: &str) -> SidecarEvent {
    SidecarEvent::Stdout(s.as_bytes().to_vec())
}

#[test]
fn override_value_is_used_and_sidecar_skipped() {
    let mut port = BackendPort::new();
    assert!(resolve_override(&mut port, Some("8421")));
    assert_eq!(port.get(), 8421);
}

#[test]
fn malformed_override_falls_back_to_sidecar_announcement() {
    let mut port = BackendPort::new();
    assert!(!resolve_override(&mut port, Some("not-a-number")));
    assert_eq!(port.get(), 0);
    let events = vec![line("starting up"), line("PORT=5173"), line("ready")];
    let (state, taken) = scan(&mut port, &events);
    assert_eq!(state, ScanState::Resolved(5173));
    assert_eq!(taken, 2);
    assert_eq!(port.get(), 5173);
}

#[test]
fn out_of_range_announcement_leaves_port_unresolved() {
    let mut port = BackendPort::new();
    assert!(!resolve_override(&mut port, None));
    let events = vec![line("PORT=99999")];
    let (state, taken) = scan(&mut port, &events);
    assert_eq!(state, ScanState::Aborted);
    assert_eq!(taken, 1);
    assert_eq!(port.get(), 0);
}

#[test]
fn override_accepts_padded_and_edge_values() {
    let mut port = BackendPort::new();
    assert!(resolve_override(&mut port, Some("  8080\n")));
    assert_eq!(port.get(), 8080);

    let mut port = BackendPort::new();
    assert!(resolve_override(&mut port, Some("65535")));
    assert_eq!(port.get(), 65535);

    let mut port = BackendPort::new();
    assert!(resolve_override(&mut port, Some("0")));
    assert_eq!(port.get(), 0);
}

#[test]
fn override_rejects_out_of_range_and_non_numeric() {
    for value in ["65536", "99999", "abc", "", "   ", "-1", "80 80", "8O"] {
        let mut port = BackendPort::new();
        assert!(!resolve_override(&mut port, Some(value)), "{value:?}");
        assert_eq!(port.get(), 0);
    }
}

#[test]
fn single_announcement_among_plain_lines() {
    let mut port = BackendPort::new();
    let events = vec![
        line("booting"),
        line("PORT=abc"),
        line("  PORT=3000  "),
        line("listening"),
        SidecarEvent::Error("late".to_string()),
    ];
    let (state, taken) = scan(&mut port, &events);
    assert_eq!(state, ScanState::Resolved(3000));
    assert_eq!(taken, 3);
    assert_eq!(port.get(), 3000);
}

#[test]
fn first_of_two_announcements_wins() {
    let mut port = BackendPort::new();
    let events = vec![line("x"), line("PORT=4000"), line("PORT=5000")];
    let (state, taken) = scan(&mut port, &events);
    assert_eq!(state, ScanState::Resolved(4000));
    assert_eq!(taken, 2);
    assert_eq!(port.get(), 4000);
}

#[test]
fn error_before_announcement_aborts() {
    let mut port = BackendPort::new();
    let events = vec![
        line("starting"),
        SidecarEvent::Other,
        SidecarEvent::Error("crashed".to_string()),
        line("PORT=6000"),
    ];
    let (state, taken) = scan(&mut port, &events);
    assert_eq!(state, ScanState::Aborted);
    assert_eq!(taken, 3);
    assert_eq!(port.get(), 0);
}

#[test]
fn empty_stream_aborts() {
    let mut port = BackendPort::new();
    let (state, taken) = scan(&mut port, &vec![]);
    assert_eq!(state, ScanState::Aborted);
    assert_eq!(taken, 0);
    assert_eq!(port.get(), 0);
}

#[test]
fn stream_ending_without_announcement_aborts() {
    let mut port = BackendPort::new();
    let events = vec![line("a"), SidecarEvent::Other, line("PORT=")];
    let (state, taken) = scan(&mut port, &events);
    assert_eq!(state, ScanState::Aborted);
    assert_eq!(taken, 3);
    assert_eq!(port.get(), 0);
}

#[test]
fn undecodable_bytes_are_replaced_before_matching() {
    let mut port = BackendPort::new();
    let events = vec![SidecarEvent::Stdout(vec![b'P', b'O', b'R', b'T', b'=', b'7', 0xff])];
    let (state, _) = scan(&mut port, &events);
    assert_eq!(state, ScanState::Aborted);

    let events = vec![SidecarEvent::Stdout(vec![0xff]), SidecarEvent::Stdout(b"PORT=7".to_vec())];
    let (state, taken) = scan(&mut port, &events);
    assert_eq!(state, ScanState::Resolved(7));
    assert_eq!(taken, 2);
    assert_eq!(port.get(), 7);
}

#[test]
fn state_machine_steps() {
    let s = ScanState::Scanning;
    assert!(!s.is_done());
    assert_eq!(s.on_event(&line("noise")), ScanState::Scanning);
    assert_eq!(s.on_event(&SidecarEvent::Other), ScanState::Scanning);
    assert_eq!(s.on_event(&line("PORT=1234")), ScanState::Resolved(1234));
    assert_eq!(s.on_event(&SidecarEvent::Error("e".to_string())), ScanState::Aborted);
    assert_eq!(s.on_end(), ScanState::Aborted);
    let r = ScanState::Resolved(9);
    assert!(r.is_done());
    assert_eq!(r.on_event(&line("PORT=1")), r);
    assert_eq!(r.on_end(), r);
    assert_eq!(ScanState::Aborted.on_event(&line("PORT=1")), ScanState::Aborted);
}

#[test]
fn resolved_port_is_never_overwritten() {
    let mut port = BackendPort::new();
    assert!(port.resolve(1111));
    assert!(!port.resolve(2222));
    assert_eq!(port.get(), 1111);
    settle(&mut port, ScanState::Resolved(3333));
    assert_eq!(port.get(), 1111);

    let mut port = BackendPort::new();
    settle(&mut port, ScanState::Aborted);
    assert_eq!(port.get(), 0);
    settle(&mut port, ScanState::Resolved(42));
    assert_eq!(port.get(), 42);
}

#[test]
fn port_numbers_read_like_u16_from_str() {
    assert_eq!(parse_port("0"), Some(0));
    assert_eq!(parse_port("007"), Some(7));
    assert_eq!(parse_port("+80"), Some(80));
    assert_eq!(parse_port("65535"), Some(65535));
    assert_eq!(parse_port("65536"), None);
    assert_eq!(parse_port("123456789012"), None);
    assert_eq!(parse_port(""), None);
    assert_eq!(parse_port("+"), None);
    assert_eq!(parse_port("-1"), None);
    assert_eq!(parse_port("1a"), None);
    assert_eq!(parse_port(" 1"), None);
    for text in ["0", "+1", "65535", "65536", "", "+", "-0", "12x", "٣"] {
        assert_eq!(parse_port(text), text.parse::<u16>().ok(), "{text:?}");
    }
}

#[test]
fn trimming_removes_unicode_white_space() {
    assert_eq!(trim_white_space("  a b \t\n"), "a b");
    assert_eq!(trim_white_space("\u{a0}\u{3000}x\u{2028}"), "x");
    assert_eq!(trim_white_space(" \r\n "), "");
    assert_eq!(trim_white_space("\u{200b}x"), "\u{200b}x");
    for text in ["", " ", "\u{85}a\u{205f}", "\u{1680} b \u{202f}", "\u{200a}\u{2000}"] {
        assert_eq!(trim_white_space(text), text.trim(), "{text:?}");
    }
}

#[test]
fn announcement_lines() {
    assert_eq!(parse_announcement("PORT=5173"), Some(5173));
    assert_eq!(parse_announcement("  PORT= 42 \r\n"), Some(42));
    assert_eq!(parse_announcement("\u{a0}PORT=1\u{3000}"), Some(1));
    assert_eq!(parse_announcement("PORT="), None);
    assert_eq!(parse_announcement("PORT=99999"), None);
    assert_eq!(parse_announcement("port=80"), None);
    assert_eq!(parse_announcement("PORT 80"), None);
    assert_eq!(parse_announcement("X PORT=80"), None);
    assert_eq!(parse_announcement("PORT=80 ready"), None);
}
