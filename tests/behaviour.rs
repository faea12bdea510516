use tmux_cc::{
    parse_layout, parse_line, unvis, unvis_bytes, Event, FeedError, Guarded, LayoutError,
    LineError, PaneLayout, Parser, UnvisError, WindowLayout,
};

fn pane(pane_id: u64, pane_width: u64, pane_height: u64, pane_left: u64, pane_top: u64) -> PaneLayout {
    PaneLayout { pane_id, pane_width, pane_height, pane_left, pane_top }
}

fn guarded(error: bool, timestamp: i64, number: u64, flags: i64, output: &str) -> Event {
    Event::Guarded(Guarded { error, timestamp, number, flags, output: output.to_owned() })
}

#[test]
fn begin_alone_emits_nothing_then_end_closes_it() {
    let mut p = Parser::new();
    assert_eq!(p.advance_string("%begin 12345 321 0\n").unwrap(), vec![]);
    assert_eq!(
        p.advance_string("%end 12345 321 0\n").unwrap(),
        vec![guarded(false, 12345, 321, 0, "")]
    );
}

#[test]
fn guarded_block_collects_body_lines() {
    let mut p = Parser::new();
    let events = p
        .advance_string("%begin 1604279270 310 0\nstuff\nin\nhere\n%end 1604279270 310 0\n")
        .unwrap();
    assert_eq!(events, vec![guarded(false, 1604279270, 310, 0, "stuff\nin\nhere\n")]);
}

#[test]
fn error_terminator_sets_error_flag() {
    let mut p = Parser::new();
    let events = p.advance_string("%begin 7 8 1\nbad command\n%error 7 8 1\n").unwrap();
    assert_eq!(events, vec![guarded(true, 7, 8, 1, "bad command\n")]);
}

#[test]
fn body_lines_are_not_decoded_and_may_look_like_notifications() {
    let mut p = Parser::new();
    let events = p
        .advance_string("%begin 1 2 0\n\\033x\n%window-add @3\n%end 1 2 0\n")
        .unwrap();
    assert_eq!(events, vec![guarded(false, 1, 2, 0, "\\033x\n%window-add @3\n")]);
}

#[test]
fn begin_inside_open_block_drops_it_and_opens_a_new_one() {
    let mut p = Parser::new();
    let events = p
        .advance_string("%begin 1 1 0\nx\n%begin 2 2 0\ny\n%end 2 2 0\n")
        .unwrap();
    assert_eq!(events, vec![guarded(false, 2, 2, 0, "y\n")]);
}

#[test]
fn mismatched_end_drops_the_open_block() {
    let mut p = Parser::new();
    let events = p
        .advance_string("%begin 1 2 0\nbody\n%end 1 3 0\n%end 1 2 0\n%window-add @4\n")
        .unwrap();
    assert_eq!(events, vec![Event::WindowAdd { window: 4 }]);
}

#[test]
fn stray_end_and_error_are_ignored() {
    let mut p = Parser::new();
    let events = p.advance_string("%end 1 2 0\n%error 1 2 0\n%sessions-changed\n").unwrap();
    assert_eq!(events, vec![Event::SessionsChanged]);
}

#[test]
fn output_payload_is_decoded_to_raw_bytes() {
    let mut p = Parser::new();
    let events = p.advance_string("%output %1 \\033[Km\n").unwrap();
    assert_eq!(events, vec![Event::Output { pane: 1, text: vec![0x1b, b'[', b'K', b'm'] }]);
}

#[test]
fn output_payload_keeps_invalid_utf8() {
    let mut p = Parser::new();
    let events = p.advance_bytes(b"%extended-output %7 a\xffb\\377\n").unwrap();
    assert_eq!(
        events,
        vec![Event::ExtendedOutput { pane: 7, text: vec![b'a', 0xff, b'b', 0xff] }]
    );
}

#[test]
fn layout_change_with_all_fields() {
    let mut p = Parser::new();
    let events = p
        .advance_string("%layout-change @1 cafd,120x29,0,0,0 cafd,120x29,0,0,0 *\n")
        .unwrap();
    assert_eq!(
        events,
        vec![Event::LayoutChange {
            window: 1,
            layout: "cafd,120x29,0,0,0".to_owned(),
            visible_layout: Some("cafd,120x29,0,0,0".to_owned()),
            raw_flags: Some("*".to_owned()),
        }]
    );
}

#[test]
fn exit_with_and_without_reason() {
    let mut p = Parser::new();
    assert_eq!(
        p.advance_string("%exit I said so\n").unwrap(),
        vec![Event::Exit { reason: Some("I said so".to_owned()) }]
    );
    assert_eq!(p.advance_string("%exit\n").unwrap(), vec![Event::Exit { reason: None }]);
}

#[test]
fn remaining_notification_shapes() {
    let mut p = Parser::new();
    let events = p
        .advance_string(
            "%session-window-changed $2 @5\n%window-pane-changed @5 %9\n%window-renamed @5 my\\040win\n%session-renamed new name\n",
        )
        .unwrap();
    assert_eq!(
        events,
        vec![
            Event::SessionWindowChanged { session: 2, window: 5 },
            Event::WindowPaneChanged { window: 5, pane: 9 },
            Event::WindowRenamed { window: 5, name: "my win".to_owned() },
            Event::SessionRenamed { name: "new name".to_owned() },
        ]
    );
}

#[test]
fn partial_line_produces_no_event() {
    let mut p = Parser::new();
    assert_eq!(p.advance_string("%window-add @1").unwrap(), vec![]);
    assert_eq!(p.advance_string("2").unwrap(), vec![]);
    assert_eq!(p.advance_string("\n").unwrap(), vec![Event::WindowAdd { window: 12 }]);
}

#[test]
fn advance_byte_reports_event_on_line_feed_only() {
    let mut p = Parser::new();
    for &b in b"%pause %3" {
        assert_eq!(p.advance_byte(b).unwrap(), None);
    }
    assert_eq!(p.advance_byte(b'\n').unwrap(), Some(Event::Pause { pane: 3 }));
}

#[test]
fn crlf_is_the_same_as_lf() {
    let mut a = Parser::new();
    let mut b = Parser::new();
    let with_cr = a.advance_string("%begin 1 1 0\r\nline\r\n%end 1 1 0\r\n%window-close @2\r\n").unwrap();
    let without = b.advance_string("%begin 1 1 0\nline\n%end 1 1 0\n%window-close @2\n").unwrap();
    assert_eq!(with_cr, without);
    assert_eq!(with_cr[0], guarded(false, 1, 1, 0, "line\n"));
}

#[test]
fn chunked_feeding_equals_whole_feeding() {
    let input: &[u8] = b"%sessions-changed\n%begin 5 6 0\nabc\n%end 5 6 0\n%output %2 hi\\012\n%exit\n";
    let mut whole = Parser::new();
    let expected = whole.advance_bytes(input).unwrap();
    assert_eq!(expected.len(), 4);
    for split in 0..=input.len() {
        let mut p = Parser::new();
        let mut events = p.advance_bytes(&input[..split]).unwrap();
        events.extend(p.advance_bytes(&input[split..]).unwrap());
        assert_eq!(events, expected);
    }
}

#[test]
fn unknown_line_fails_with_line_and_rest() {
    let mut p = Parser::new();
    let err = p.advance_string("%window-add @1\n%bogus thing\n%window-add @2\n").unwrap_err();
    assert_eq!(
        err,
        FeedError { line: b"%bogus thing".to_vec(), rest: b"\n%window-add @2\n".to_vec() }
    );
}

#[test]
fn advance_byte_failure_carries_the_line() {
    let mut p = Parser::new();
    for &b in b"%window-add 1" {
        p.advance_byte(b).unwrap();
    }
    let err = p.advance_byte(b'\n').unwrap_err();
    assert_eq!(err, FeedError { line: b"%window-add 1".to_vec(), rest: vec![] });
}

#[test]
fn line_errors() {
    assert_eq!(parse_line(b"%bogus"), Err(LineError::Syntax));
    assert_eq!(parse_line(b"plain text"), Err(LineError::Syntax));
    assert_eq!(parse_line(b"%window-add @18446744073709551616"), Err(LineError::Syntax));
    assert_eq!(parse_line(b"%begin 9223372036854775808 1 0"), Err(LineError::Syntax));
    assert_eq!(parse_line(b"%session-changed $1 two words"), Err(LineError::Syntax));
    assert_eq!(parse_line(b"%sessions-changed now"), Err(LineError::Syntax));
    assert_eq!(
        parse_line(b"%message oops\\q"),
        Err(LineError::Text(UnvisError::BadEscape(b'q')))
    );
    assert_eq!(
        parse_line(b"%message \\377"),
        Err(LineError::Text(UnvisError::NotUtf8))
    );
    assert_eq!(
        parse_line(b"%window-add @18446744073709551615"),
        Ok(Event::WindowAdd { window: u64::MAX })
    );
}

#[test]
fn unvis_escapes() {
    assert_eq!(unvis_bytes(b"a\\\\b").unwrap(), b"a\\b".to_vec());
    assert_eq!(unvis_bytes(b"\\n\\r\\b\\a\\v\\t\\f\\s\\E").unwrap(), vec![10, 13, 8, 7, 11, 9, 12, 32, 27]);
    assert_eq!(unvis_bytes(b"\\M-a").unwrap(), vec![0xe1]);
    assert_eq!(unvis_bytes(b"\\^A\\^?").unwrap(), vec![0x01, 0x7f]);
    assert_eq!(unvis_bytes(b"\\M^A").unwrap(), vec![0x81]);
    assert_eq!(unvis_bytes(b"x\\\ny\\$z").unwrap(), b"xyz".to_vec());
    assert_eq!(unvis_bytes(b"\\1x").unwrap(), vec![1, b'x']);
    assert_eq!(unvis_bytes(b"\\12x").unwrap(), vec![10, b'x']);
    assert_eq!(unvis_bytes(b"\\1\\\\").unwrap(), vec![1, b'\\']);
    assert_eq!(unvis_bytes(b"\\101\\0123").unwrap(), vec![b'A', 10, b'3']);
}

#[test]
fn unvis_errors() {
    assert_eq!(unvis_bytes(b"ab\\q"), Err(UnvisError::BadEscape(b'q')));
    assert_eq!(unvis_bytes(b"\\Mx"), Err(UnvisError::BadEscape(b'x')));
    assert_eq!(unvis("\\377"), Err(UnvisError::NotUtf8));
}

#[test]
fn unvis_text_decodes_utf8() {
    assert_eq!(unvis("caf\\303\\251").unwrap(), "café".to_owned());
    assert_eq!(unvis("plain").unwrap(), "plain".to_owned());
    assert_eq!(unvis("").unwrap(), "".to_owned());
}

#[test]
fn unvis_undoes_octal_quoting_of_every_byte() {
    let all: Vec<u8> = (0..=255u8).collect();
    let mut quoted = Vec::new();
    for &b in &all {
        if b == b'\\' {
            quoted.extend_from_slice(b"\\\\");
        } else if (32..=126).contains(&b) {
            quoted.push(b);
        } else {
            quoted.extend_from_slice(format!("\\{:03o}", b).as_bytes());
        }
    }
    assert_eq!(unvis_bytes(&quoted).unwrap(), all);
}

#[test]
fn layout_single_pane() {
    let layout = parse_layout("158x40,0,0,72").unwrap();
    assert_eq!(layout.len(), 1);
    match &layout[0] {
        WindowLayout::SinglePane(p) => assert_eq!(*p, pane(72, 158, 40, 0, 0)),
        _ => panic!("expected a single pane"),
    }
}

#[test]
fn layout_with_checksum_and_no_id() {
    let layout = parse_layout("b25d,80x24,0,0,0").unwrap();
    match &layout[..] {
        [WindowLayout::SinglePane(p)] => assert_eq!(*p, pane(0, 80, 24, 0, 0)),
        _ => panic!("expected a single pane"),
    }
}

#[test]
fn layout_nested_splits_entries() {
    let layout = parse_layout(
        "158x40,0,0[158x20,0,0,69,158x19,0,21{79x19,0,21,70,78x19,80,21[78x9,80,21,71,78x9,80,31,73]}]",
    )
    .unwrap();
    assert_eq!(layout.len(), 3);
    match &layout[0] {
        WindowLayout::SplitVertical(v) => assert_eq!(
            v,
            &vec![pane(73, 158, 40, 0, 0), pane(69, 158, 20, 0, 0), pane(73, 158, 19, 0, 21)]
        ),
        _ => panic!("expected a vertical split"),
    }
    match &layout[1] {
        WindowLayout::SplitHorizontal(v) => assert_eq!(
            v,
            &vec![pane(73, 158, 19, 0, 21), pane(70, 79, 19, 0, 21), pane(73, 78, 19, 80, 21)]
        ),
        _ => panic!("expected a horizontal split"),
    }
    match &layout[2] {
        WindowLayout::SplitVertical(v) => assert_eq!(
            v,
            &vec![pane(73, 78, 19, 80, 21), pane(71, 78, 9, 80, 21), pane(73, 78, 9, 80, 31)]
        ),
        _ => panic!("expected a vertical split"),
    }
}

#[test]
fn layout_sibling_splits_in_left_to_right_order() {
    let layout = parse_layout("10x10,0,0{5x10,0,0[5x5,0,0,1,5x4,0,6,2],4x10,6,0[4x5,6,0,3,4x4,6,6,4]}").unwrap();
    assert_eq!(layout.len(), 3);
    assert!(matches!(&layout[0], WindowLayout::SplitHorizontal(_)));
    match (&layout[1], &layout[2]) {
        (WindowLayout::SplitVertical(a), WindowLayout::SplitVertical(b)) => {
            assert_eq!(a[0], pane(2, 5, 10, 0, 0));
            assert_eq!(b[0], pane(4, 4, 10, 6, 0));
        }
        _ => panic!("expected two vertical splits"),
    }
}

#[test]
fn layout_errors() {
    assert_eq!(parse_layout("garbage").unwrap_err(), LayoutError);
    assert_eq!(parse_layout("80x24,0").unwrap_err(), LayoutError);
    assert_eq!(parse_layout("80x24,0,0{40x24,0,0,1").unwrap_err(), LayoutError);
    assert_eq!(parse_layout("80x24,0,0,1 trailing").unwrap_err(), LayoutError);
    assert_eq!(parse_layout("").unwrap_err(), LayoutError);
}

#[test]
fn layout_single_split_keeps_every_pane() {
    let layout = parse_layout("80x24,0,0{40x24,0,0,1,39x24,41,0,2}").unwrap();
    match &layout[..] {
        [WindowLayout::SplitHorizontal(v)] => assert_eq!(
            v,
            &vec![pane(2, 80, 24, 0, 0), pane(1, 40, 24, 0, 0), pane(2, 39, 24, 41, 0)]
        ),
        _ => panic!("expected one horizontal split"),
    }
}

#[test]
fn layout_round_trip_keeps_every_leaf() {
    let text = "10x10,0,0{5x10,0,0[5x5,0,0,1,5x4,0,6,2],4x10,6,0,3}";
    let layout = parse_layout(text).unwrap();
    let mut regions = Vec::new();
    let mut parts = Vec::new();
    for entry in &layout {
        match entry {
            WindowLayout::SplitHorizontal(v) | WindowLayout::SplitVertical(v) => {
                regions.push(v[0]);
                parts.extend_from_slice(&v[1..]);
            }
            WindowLayout::SinglePane(p) => parts.push(*p),
        }
    }
    let leaves: Vec<PaneLayout> = parts.into_iter().filter(|p| !regions.contains(p)).collect();
    assert_eq!(
        leaves,
        vec![pane(3, 4, 10, 6, 0), pane(1, 5, 5, 0, 0), pane(2, 5, 4, 0, 6)]
    );
    assert_eq!(regions, vec![pane(3, 10, 10, 0, 0), pane(2, 5, 10, 0, 0)]);
}
