use terminal_rtl::input::{
    key_bytes, mouse_bytes, paste_bytes, KeyCode, KeyEvent, KeyEventKind, KeyModifiers,
    MouseButton, MouseEvent, MouseEventKind, MouseProtocolEncoding, MouseProtocolMode,
};
use terminal_rtl::hyperlink::Hyperlink;
use terminal_rtl::protocol::{OscAction, Protocol, ScreenState};

/// Drives the library's protocol from the parser's callbacks.
struct Adapter {
    protocol: Protocol,
    link: Option<Hyperlink>,
}

impl Adapter {
    fn new() -> Adapter {
        Adapter { protocol: Protocol::default(), link: None }
    }
}

fn state(screen: &vt100::Screen) -> ScreenState {
    let (rows, cols) = screen.size();
    let (cursor_row, cursor_col) = screen.cursor_position();
    ScreenState {
        rows,
        cols,
        cursor_row,
        cursor_col,
        application_cursor: screen.application_cursor(),
        hide_cursor: screen.hide_cursor(),
        alternate_screen: screen.alternate_screen(),
        bracketed_paste: screen.bracketed_paste(),
    }
}

impl vt100::Callbacks for Adapter {
    fn audible_bell(&mut self, _: &mut vt100::Screen) {
        self.protocol.audible_bell();
    }

    fn unhandled_escape(&mut self, _: &mut vt100::Screen, i1: Option<u8>, _: Option<u8>, c: u8) {
        self.protocol.unhandled_escape(i1, c);
    }

    fn unhandled_csi(
        &mut self,
        screen: &mut vt100::Screen,
        i1: Option<u8>,
        i2: Option<u8>,
        params: &[&[u16]],
        c: char,
    ) {
        let params: Vec<Vec<u16>> = params.iter().map(|p| p.to_vec()).collect();
        self.protocol.unhandled_csi(state(screen), i1, i2, &params, c);
    }

    fn unhandled_osc(&mut self, _: &mut vt100::Screen, params: &[&[u8]]) {
        let params: Vec<Vec<u8>> = params.iter().map(|p| p.to_vec()).collect();
        if let OscAction::SetHyperlink(link) = self.protocol.unhandled_osc(&params, 7) {
            self.link = link;
        }
    }
}

fn parser(rows: u16, cols: u16) -> vt100::Parser<Adapter> {
    vt100::Parser::new_with_callbacks(rows, cols, 0, Adapter::new())
}

fn none() -> KeyModifiers {
    KeyModifiers::none()
}

#[test]
fn protocol_input_preserves_hebrew_and_control_keys() {
    assert_eq!(
        key_bytes(KeyEvent::new(KeyCode::Char('ש'), none()), false),
        "ש".as_bytes()
    );
    assert_eq!(
        key_bytes(KeyEvent::new(KeyCode::Char('c'), KeyModifiers::control()), false),
        [3]
    );
    assert_eq!(
        key_bytes(KeyEvent::new(KeyCode::Char('b'), KeyModifiers::alt()), false),
        b"\x1bb"
    );
    assert_eq!(key_bytes(KeyEvent::new(KeyCode::Up, none()), true), b"\x1bOA");
    assert_eq!(
        key_bytes(KeyEvent::new(KeyCode::Left, KeyModifiers::control()), false),
        b"\x1b[1;5D"
    );
    assert!(key_bytes(
        KeyEvent::new_with_kind(KeyCode::Char('a'), none(), KeyEventKind::Release),
        false
    )
    .is_empty());
}

#[test]
fn input_preserves_hebrew_and_control_keys() {
    assert_eq!(
        key_bytes(KeyEvent::new(KeyCode::Char('ש'), none()), false),
        "ש".as_bytes()
    );
    assert_eq!(
        key_bytes(KeyEvent::new(KeyCode::Char('c'), KeyModifiers::control()), false),
        [3]
    );
    assert_eq!(
        key_bytes(KeyEvent::new(KeyCode::Char('b'), KeyModifiers::alt()), false),
        b"\x1bb"
    );
    assert_eq!(key_bytes(KeyEvent::new(KeyCode::Up, none()), true), b"\x1bOA");
    assert_eq!(
        key_bytes(KeyEvent::new(KeyCode::Left, KeyModifiers::control()), false),
        b"\x1b[1;5D"
    );
    assert!(key_bytes(
        KeyEvent::new_with_kind(KeyCode::Char('a'), none(), KeyEventKind::Release),
        false
    )
    .is_empty());
}

#[test]
fn modified_enter_is_distinct_from_submit() {
    assert_eq!(key_bytes(KeyEvent::new(KeyCode::Enter, none()), false), b"\r");
    assert_eq!(
        key_bytes(KeyEvent::new(KeyCode::Enter, KeyModifiers::shift()), false),
        b"\x1b[13;2u"
    );
    assert_eq!(
        key_bytes(KeyEvent::new(KeyCode::Enter, KeyModifiers::alt()), false),
        b"\x1b\r"
    );
    assert_eq!(
        key_bytes(
            KeyEvent::new(KeyCode::Enter, KeyModifiers::shift().union(KeyModifiers::alt())),
            false
        ),
        b"\x1b[13;4u"
    );
}

#[test]
fn protocol_paste_uses_the_childs_mode_and_preserves_original_order() {
    for (text, bracketed) in [
        ("שלום\nworld", "\x1b[200~שלום\nworld\x1b[201~"),
        (
            "שלום\n\x1b[200~literal\x1b[201~",
            "\x1b[200~שלום\n\x1b[200~literal\x1b[201~\x1b[201~",
        ),
    ] {
        assert_eq!(paste_bytes(text, false), text.as_bytes());
        assert_eq!(paste_bytes(text, true), bracketed.as_bytes());
    }
}

#[test]
fn paste_uses_the_childs_mode_and_preserves_original_order() {
    assert_eq!(paste_bytes("שלום\nworld", false), "שלום\nworld".as_bytes());
    assert_eq!(
        paste_bytes("שלום\nworld", true),
        "\x1b[200~שלום\nworld\x1b[201~".as_bytes()
    );
}

#[test]
fn protocol_mouse_reports_logical_coordinates() {
    let event = MouseEvent {
        kind: MouseEventKind::Down(MouseButton::Left),
        column: 0,
        row: 3,
        modifiers: none(),
    };
    assert_eq!(
        mouse_bytes(event, MouseProtocolMode::PressRelease, MouseProtocolEncoding::Sgr, 7),
        b"\x1b[<0;8;4M"
    );
    assert!(mouse_bytes(event, MouseProtocolMode::Disabled, MouseProtocolEncoding::Sgr, 7)
        .is_empty());
}

#[test]
fn mouse_reports_logical_coordinates() {
    let event = MouseEvent {
        kind: MouseEventKind::Down(MouseButton::Left),
        column: 0,
        row: 3,
        modifiers: none(),
    };
    assert_eq!(
        mouse_bytes(event, MouseProtocolMode::PressRelease, MouseProtocolEncoding::Sgr, 7),
        b"\x1b[<0;8;4M"
    );
    assert!(mouse_bytes(event, MouseProtocolMode::Disabled, MouseProtocolEncoding::Sgr, 7)
        .is_empty());
}

#[test]
fn function_editing_and_legacy_mouse_encodings() {
    for (key, expected) in [
        (KeyCode::Home, "\x1b[H"),
        (KeyCode::End, "\x1b[F"),
        (KeyCode::Insert, "\x1b[2~"),
        (KeyCode::Delete, "\x1b[3~"),
        (KeyCode::PageUp, "\x1b[5~"),
        (KeyCode::PageDown, "\x1b[6~"),
    ] {
        assert_eq!(key_bytes(KeyEvent::new(key, none()), false), expected.as_bytes());
    }
    for (number, expected) in [
        (1, "\x1bOP"),
        (2, "\x1bOQ"),
        (3, "\x1bOR"),
        (4, "\x1bOS"),
        (5, "\x1b[15~"),
        (6, "\x1b[17~"),
        (7, "\x1b[18~"),
        (8, "\x1b[19~"),
        (9, "\x1b[20~"),
        (10, "\x1b[21~"),
        (11, "\x1b[23~"),
        (12, "\x1b[24~"),
    ] {
        assert_eq!(
            key_bytes(KeyEvent::new(KeyCode::F(number), none()), false),
            expected.as_bytes()
        );
    }
    let event = MouseEvent {
        kind: MouseEventKind::Down(MouseButton::Left),
        column: 0,
        row: 3,
        modifiers: none(),
    };
    assert_eq!(
        mouse_bytes(event, MouseProtocolMode::Press, MouseProtocolEncoding::Default, 7),
        b"\x1b[M ($"
    );
    assert_eq!(
        mouse_bytes(event, MouseProtocolMode::Press, MouseProtocolEncoding::Utf8, 223),
        "\x1b[M Ā$".as_bytes()
    );
}

#[test]
fn protocol_cursor_queries_use_logical_position_even_when_split_across_chunks() {
    let mut parser = parser(24, 80);
    for byte in "שלום\x1b[6n\x1b[5n\x1b[18t".as_bytes() {
        parser.process(&[*byte]);
    }
    assert_eq!(parser.callbacks().protocol.replies, b"\x1b[1;5R\x1b[0n\x1b[8;24;80t");
    assert_eq!(parser.screen().contents(), "שלום");
}

#[test]
fn cursor_queries_use_logical_position_even_when_split_across_chunks() {
    let mut parser = parser(24, 80);
    for byte in "שלום\x1b[6n\x1b[5n\x1b[18t".as_bytes() {
        parser.process(&[*byte]);
    }
    assert_eq!(parser.callbacks().protocol.replies, b"\x1b[1;5R\x1b[0n\x1b[8;24;80t");
    assert_eq!(parser.screen().contents(), "שלום");
}

#[test]
fn protocol_handles_capability_focus_paste_and_synchronized_output_queries() {
    let mut parser = parser(24, 80);
    parser.process(b"\x1b[c\x1b[>c\x1b[?u\x1b[?1004h\x1b[?2026h\x1b[?2004h\x1b[?2004$p");
    assert!(parser.callbacks().protocol.focus_events);
    assert!(parser.callbacks().protocol.synchronized_output);
    assert!(parser.screen().bracketed_paste());
    assert_eq!(
        parser.callbacks().protocol.replies,
        b"\x1b[?1;2c\x1b[>0;100;0c\x1b[?0u\x1b[?2004;1$y"
    );
    parser.process(b"\x1b[?2026l\x1b[?1004l");
    assert!(!parser.callbacks().protocol.focus_events);
    assert!(!parser.callbacks().protocol.synchronized_output);
}

#[test]
fn handles_capability_focus_paste_and_synchronized_output_queries() {
    let mut parser = parser(24, 80);
    parser.process(b"\x1b[c\x1b[>c\x1b[?u\x1b[?1004h\x1b[?2026h\x1b[?2004h\x1b[?2004$p");
    assert!(parser.callbacks().protocol.focus_events);
    assert!(parser.callbacks().protocol.synchronized_output);
    assert!(parser.screen().bracketed_paste());
    assert_eq!(
        parser.callbacks().protocol.replies,
        b"\x1b[?1;2c\x1b[>0;100;0c\x1b[?0u\x1b[?2004;1$y"
    );
    parser.process(b"\x1b[?2026l\x1b[?1004l");
    assert!(!parser.callbacks().protocol.focus_events);
    assert!(!parser.callbacks().protocol.synchronized_output);
}

#[test]
fn protocol_escape_sequences_never_leak_as_visible_text() {
    let mut parser = parser(4, 30);
    parser.process(
        b"\x1b]0;title\x07\x1b]11;?\x1b\\\x1b]8;;https://example.com\x1b\\link\x1b]8;;\x1b\\",
    );
    assert_eq!(parser.screen().contents(), "link");
    assert_eq!(
        parser.callbacks().protocol.replies,
        b"\x1b]11;rgb:1111/1111/1111\x1b\\"
    );
}

#[test]
fn escape_sequences_never_leak_as_visible_text() {
    let mut parser = parser(4, 30);
    parser.process(
        b"\x1b]0;title\x07\x1b]11;?\x1b\\\x1b]8;;https://example.com\x1b\\link\x1b]8;;\x1b\\",
    );
    assert_eq!(parser.screen().contents(), "link");
    assert_eq!(
        parser.callbacks().protocol.replies,
        b"\x1b]11;rgb:1111/1111/1111\x1b\\"
    );
}

#[test]
fn invalid_link_metadata_cannot_emit_terminal_controls() {
    assert!(Hyperlink::new("https://example.com/\u{009c}".into(), "id".into()).is_none());
    assert!(Hyperlink::new("https://example.com/\x1b[2J".into(), "id".into()).is_none());
    assert!(Hyperlink::new("https://example.com".into(), "id;other".into()).is_none());
    assert!(Hyperlink::new("x".repeat(8193), "id".into()).is_none());
}

#[test]
fn decid_and_colour_queries_are_answered() {
    let mut parser = parser(4, 30);
    parser.process(b"\x1bZ\x1b]10;?\x07");
    assert_eq!(
        parser.callbacks().protocol.replies,
        b"\x1b[?1;2c\x1b]10;rgb:dddd/dddd/dddd\x1b\\"
    );
}

#[test]
fn private_cursor_report_and_mode_reports() {
    let mut parser = parser(4, 30);
    parser.process(b"ab\x1b[?6n\x1b[?1$p\x1b[?25$p\x1b[?9999$p");
    assert_eq!(
        parser.callbacks().protocol.replies,
        b"\x1b[?1;3R\x1b[?1;2$y\x1b[?25;1$y\x1b[?9999;0$y"
    );
}

#[test]
fn bell_and_reset_clear_owned_state() {
    let mut parser = parser(4, 30);
    parser.process(b"\x07\x1b[?1004h\x1b[5n");
    assert!(parser.callbacks().protocol.bell);
    assert!(!parser.callbacks().protocol.replies.is_empty());
    parser.callbacks_mut().protocol.reset();
    assert!(!parser.callbacks().protocol.bell);
    assert!(!parser.callbacks().protocol.focus_events);
    assert!(parser.callbacks().protocol.replies.is_empty());
}

#[test]
fn erase_saved_lines_is_reported() {
    let mut protocol = Protocol::new();
    let screen = ScreenState {
        rows: 2,
        cols: 4,
        cursor_row: 0,
        cursor_col: 0,
        application_cursor: false,
        hide_cursor: false,
        alternate_screen: false,
        bracketed_paste: false,
    };
    assert!(protocol.unhandled_csi(screen, None, None, &[vec![3]], 'J'));
    assert!(protocol.clear_scrollback);
    assert!(!protocol.unhandled_csi(screen, None, None, &[vec![2]], 'J'));
}

#[test]
fn hyperlinks_get_scoped_identifiers() {
    let mut parser = parser(2, 20);
    parser.process(b"\x1b]8;id=abc;https://example.com/a;b\x07x");
    let link = parser.callbacks().link.as_ref().unwrap().duplicate();
    assert_eq!(link.uri(), "https://example.com/a;b");
    assert_eq!(link.id(), "rtl-7-id-abc");
    parser.process(b"\x1b]8;;https://example.com\x07");
    let link = parser.callbacks().link.as_ref().unwrap().duplicate();
    assert_eq!(link.id(), "rtl-7-auto-2");
    parser.process(b"\x1b]8;;\x07");
    assert!(parser.callbacks().link.is_none());
}

#[test]
fn host_query_responses_are_incremental_and_exactly_once() {
    let mut host = parser(12, 60);
    let mut replies = Vec::new();
    for byte in b"\x1b[6n\x1b[4;8H\x1b[6ntext" {
        host.process(&[*byte]);
        replies.extend(std::mem::take(&mut host.callbacks_mut().protocol.replies));
    }
    assert_eq!(replies, b"\x1b[1;1R\x1b[4;8R");
}

#[test]
fn ctrl_and_alt_enter_stay_plain_submits() {
    assert_eq!(key_bytes(KeyEvent::new(KeyCode::Enter, KeyModifiers::control()), false), b"\r");
    assert_eq!(
        key_bytes(
            KeyEvent::new(KeyCode::Enter, KeyModifiers::control().union(KeyModifiers::alt())),
            false
        ),
        b"\x1b\r"
    );
}

#[test]
fn semicolon_destinations_are_joined_whole() {
    for separators in [12, 13, 14, 16, 100] {
        let uri = format!("https://example.com/{}end", "a;".repeat(separators));
        let mut params: Vec<Vec<u8>> = vec![b"8".to_vec(), Vec::new()];
        params.extend(uri.split(';').map(|p| p.as_bytes().to_vec()));
        let mut protocol = Protocol::new();
        match protocol.unhandled_osc(&params, 7) {
            OscAction::SetHyperlink(Some(link)) => assert_eq!(link.uri(), uri),
            _ => panic!("expected a link"),
        }
    }
}

#[test]
fn link_destinations_with_controls_close_the_link() {
    for malformed in [b"https://example.com/\x01bad".as_slice(), b"https://example.com/\x1b[2Jbad"] {
        let params = vec![b"8".to_vec(), Vec::new(), malformed.to_vec()];
        let mut protocol = Protocol::new();
        assert!(matches!(protocol.unhandled_osc(&params, 7), OscAction::SetHyperlink(None)));
    }
    let oversized = vec![b"8".to_vec(), Vec::new(), vec![b'a'; 9300]];
    assert!(matches!(Protocol::new().unhandled_osc(&oversized, 7), OscAction::SetHyperlink(None)));
}
