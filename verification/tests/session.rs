use terminal_rtl::display::{Direction, Layout, Renderer};
use terminal_rtl::input::{
    KeyCode, KeyEvent, KeyEventKind, KeyModifiers, MouseButton, MouseEvent, MouseEventKind,
    MouseProtocolEncoding, MouseProtocolMode,
};
use terminal_rtl::session::command::{
    batch_extension, encoded_command, pathext_candidates, powershell_batch_script,
    resolution_suffixes, supported_windows_extension,
};
use terminal_rtl::session::console::{
    console_modifiers, decode_console_sequence, native_key_input, sgr_mouse_event,
    ConsoleSequence, KeyRecord,
};
use terminal_rtl::session::engine::{frame_offset, replay_wanted, Engine, Step};
use terminal_rtl::session::host::{
    child_geometry, configure_renderer, mouse_console_mode, signal_exit_code, Options,
};
use terminal_rtl::session::interaction::{
    ChildModes, HostEvent, HostInput, InputAction, SessionInput,
};
use terminal_rtl::session::keys::ConsoleInput;
use terminal_rtl::session::mouse::{position_event, ConsoleMouse};

fn text_key(unit: u16) -> KeyRecord {
    KeyRecord {
        virtual_key_code: 0,
        virtual_scan_code: 0,
        unicode_char: unit,
        key_down: 1,
        control_key_state: 0,
        repeat_count: 1,
    }
}

fn units(s: &str) -> Vec<u16> {
    s.encode_utf16().collect()
}

#[test]
fn conpty_envelopes_preserve_fragmented_paste_and_mouse_events() {
    let mut reader = ConsoleInput::new(0);
    let paste = "\x1b[200~שלום 😀\x1b[200~inside\x1dquit\x1b[201~";
    for unit in paste.encode_utf16() {
        let envelope = format!("\x1b[0;0;{unit};1;0;1_");
        for ascii in envelope.encode_utf16() {
            reader.accept_key(text_key(ascii), 0);
        }
    }
    let input = reader.pop().unwrap();
    match input.event {
        HostEvent::Paste(text) => assert_eq!(text, "שלום 😀\x1b[200~inside\x1dquit"),
        _ => panic!("expected paste"),
    }
    assert!(reader.pop().is_none());
    for unit in "\x1b[<64;4;5M\x1b[<65;4;5M".encode_utf16() {
        for ascii in format!("\x1b[0;0;{unit};1;0;1_").encode_utf16() {
            reader.accept_key(text_key(ascii), 0);
        }
    }
    for kind in [MouseEventKind::ScrollUp, MouseEventKind::ScrollDown] {
        let HostEvent::Mouse(mouse) = reader.pop().unwrap().event else {
            panic!("expected mouse");
        };
        assert_eq!(mouse.kind, kind);
        assert_eq!((mouse.column, mouse.row), (3, 4));
    }
    assert!(reader.pop().is_none());
}

fn modes() -> ChildModes {
    ChildModes {
        rows: 10,
        application_cursor: false,
        bracketed_paste: true,
        alternate_screen: false,
        mouse_mode: MouseProtocolMode::Disabled,
        mouse_encoding: MouseProtocolEncoding::Default,
        focus_events: true,
    }
}

fn key(code: KeyCode, modifiers: KeyModifiers) -> HostInput {
    HostInput { event: HostEvent::Key(KeyEvent::new(code, modifiers)), native_key: None }
}

fn prefix() -> HostInput {
    key(KeyCode::Char(']'), KeyModifiers::control())
}

fn sent(action: InputAction) -> Option<(Vec<u8>, bool)> {
    match action {
        InputAction::Send { bytes, redraw } => Some((bytes, redraw)),
        _ => None,
    }
}

#[test]
fn prefix_commands_toggle_quit_and_escape_the_prefix() {
    let renderer = Renderer::default();
    let mut input = SessionInput::new(false, 100);
    assert!(input.enabled);
    assert!(matches!(input.handle(prefix(), &modes(), &renderer), InputAction::Ignore));
    assert!(matches!(
        input.handle(key(KeyCode::Char('r'), KeyModifiers::none()), &modes(), &renderer),
        InputAction::Redraw
    ));
    assert!(!input.enabled);
    input.handle(prefix(), &modes(), &renderer);
    assert_eq!(sent(input.handle(prefix(), &modes(), &renderer)), Some((vec![0x1d], false)));
    input.handle(prefix(), &modes(), &renderer);
    assert_eq!(
        sent(input.handle(key(KeyCode::Char('x'), KeyModifiers::none()), &modes(), &renderer)),
        Some((vec![0x1d, b'x'], false))
    );
    input.handle(prefix(), &modes(), &renderer);
    assert!(matches!(
        input.handle(key(KeyCode::Char('q'), KeyModifiers::none()), &modes(), &renderer),
        InputAction::Quit
    ));
}

#[test]
fn scrollback_browsing_is_bounded_and_typing_returns_live() {
    let renderer = Renderer::default();
    let mut input = SessionInput::new(true, 12);
    assert!(!input.enabled);
    let page_up = key(KeyCode::PageUp, KeyModifiers::shift());
    assert!(matches!(input.handle(page_up, &modes(), &renderer), InputAction::Redraw));
    assert_eq!(input.scrollback, 9);
    input.handle(key(KeyCode::PageUp, KeyModifiers::shift()), &modes(), &renderer);
    assert_eq!(input.scrollback, 12);
    let wheel = HostInput {
        event: HostEvent::Mouse(MouseEvent {
            kind: MouseEventKind::ScrollDown,
            column: 0,
            row: 0,
            modifiers: KeyModifiers::none(),
        }),
        native_key: None,
    };
    input.handle(wheel, &modes(), &renderer);
    assert_eq!(input.scrollback, 9);
    assert_eq!(
        sent(input.handle(key(KeyCode::Char('a'), KeyModifiers::none()), &modes(), &renderer)),
        Some((b"a".to_vec(), true))
    );
    assert_eq!(input.scrollback, 0);
}

#[test]
fn paste_focus_resize_and_native_keys_are_routed() {
    let renderer = Renderer::default();
    let mut input = SessionInput::new(false, 10);
    let paste = HostInput { event: HostEvent::Paste("שלום".into()), native_key: None };
    assert_eq!(
        sent(input.handle(paste, &modes(), &renderer)),
        Some(("\x1b[200~שלום\x1b[201~".as_bytes().to_vec(), true))
    );
    let focus = HostInput { event: HostEvent::FocusGained, native_key: None };
    assert_eq!(sent(input.handle(focus, &modes(), &renderer)), Some((b"\x1b[I".to_vec(), false)));
    let resize = HostInput { event: HostEvent::Resize(80, 24), native_key: None };
    assert!(matches!(input.handle(resize, &modes(), &renderer), InputAction::Resize(80, 24)));
    let native = HostInput {
        event: HostEvent::Key(KeyEvent::new(KeyCode::Char('a'), KeyModifiers::none())),
        native_key: Some(b"\x1b[65;30;97;1;0;1_".to_vec()),
    };
    assert_eq!(
        sent(input.handle(native, &modes(), &renderer)),
        Some((b"\x1b[65;30;97;1;0;1_".to_vec(), false))
    );
    let release = HostInput {
        event: HostEvent::Key(KeyEvent::new_with_kind(
            KeyCode::Char('a'),
            KeyModifiers::none(),
            KeyEventKind::Release,
        )),
        native_key: None,
    };
    assert!(matches!(input.handle(release, &modes(), &renderer), InputAction::Ignore));
}

#[test]
fn mouse_clicks_use_logical_columns_beside_the_margin() {
    let mut renderer = Renderer::default();
    renderer.set_agent_label(Some("codex"));
    let mut input = SessionInput::new(false, 10);
    let mut m = modes();
    m.mouse_mode = MouseProtocolMode::PressRelease;
    m.mouse_encoding = MouseProtocolEncoding::Sgr;
    let click = |column| HostInput {
        event: HostEvent::Mouse(MouseEvent {
            kind: MouseEventKind::Down(MouseButton::Left),
            column,
            row: 2,
            modifiers: KeyModifiers::none(),
        }),
        native_key: None,
    };
    assert_eq!(sent(input.handle(click(10), &m, &renderer)), Some((b"\x1b[<0;3;3M".to_vec(), false)));
    assert!(matches!(input.handle(click(3), &m, &renderer), InputAction::Ignore));
}

#[test]
fn console_sequences_decode_keys_mouse_and_paste() {
    let record = match decode_console_sequence(&units("\x1b[65;30;97;1;8;2_")) {
        ConsoleSequence::Key(k) => k,
        _ => panic!("expected a key record"),
    };
    assert_eq!(
        record,
        KeyRecord {
            virtual_key_code: 65,
            virtual_scan_code: 30,
            unicode_char: 97,
            key_down: 1,
            control_key_state: 8,
            repeat_count: 2,
        }
    );
    assert!(matches!(decode_console_sequence(&units("\x1b[200~")), ConsoleSequence::Paste));
    let shift_enter = match decode_console_sequence(&units("\x1b[13;2u")) {
        ConsoleSequence::Key(k) => k,
        _ => panic!("expected a key record"),
    };
    assert_eq!(shift_enter.control_key_state, 16);
    assert_eq!(shift_enter.virtual_scan_code, 28);
    match decode_console_sequence(&units("\x1b[5;2~")) {
        ConsoleSequence::Input(HostInput { event: HostEvent::Key(k), native_key }) => {
            assert_eq!(k.code, KeyCode::PageUp);
            assert!(k.modifiers.shift);
            assert_eq!(native_key.unwrap(), b"\x1b[5;2~");
        }
        _ => panic!("expected page up"),
    }
    match decode_console_sequence(&units("\x1b[<0;10;3m")) {
        ConsoleSequence::Input(HostInput { event: HostEvent::Mouse(m), native_key: None }) => {
            assert_eq!(m.kind, MouseEventKind::Up(MouseButton::Left));
            assert_eq!((m.column, m.row), (9, 2));
        }
        _ => panic!("expected mouse"),
    }
    match decode_console_sequence(&units("\x1b[x")) {
        ConsoleSequence::Input(HostInput { event: HostEvent::Key(k), native_key }) => {
            assert_eq!(k.code, KeyCode::Null);
            assert_eq!(native_key.unwrap(), b"\x1b[x");
        }
        _ => panic!("expected fallback"),
    }
    match decode_console_sequence(&units("\x1b[+5~")) {
        ConsoleSequence::Input(HostInput { event: HostEvent::Key(k), .. }) => {
            assert_eq!(k.code, KeyCode::PageUp)
        }
        _ => panic!("a plus sign parses"),
    }
}

#[test]
fn sgr_mouse_reports_wheel_motion_and_modifiers() {
    let chars = |s: &str| s.chars().collect::<Vec<_>>();
    let up = sgr_mouse_event(&chars("64;1;1"), false).unwrap();
    assert_eq!(up.kind, MouseEventKind::ScrollUp);
    let drag = sgr_mouse_event(&chars("36;5;6"), false).unwrap();
    assert_eq!(drag.kind, MouseEventKind::Drag(MouseButton::Left));
    assert!(drag.modifiers.shift);
    assert_eq!(sgr_mouse_event(&chars("35;1;1"), false).unwrap().kind, MouseEventKind::Moved);
    assert!(sgr_mouse_event(&chars("0;0;1"), false).is_none());
    assert!(sgr_mouse_event(&chars("0;1"), false).is_none());
    assert!(sgr_mouse_event(&chars("0;;1"), false).is_none());
}

#[test]
fn native_records_keep_every_field() {
    let record = KeyRecord {
        virtual_key_code: 33,
        virtual_scan_code: 73,
        unicode_char: 0,
        key_down: 1,
        control_key_state: 0x10,
        repeat_count: 1,
    };
    let input = native_key_input(record);
    match input.event {
        HostEvent::Key(k) => {
            assert_eq!(k.code, KeyCode::PageUp);
            assert!(k.modifiers.shift);
        }
        _ => panic!("expected a key"),
    }
    assert_eq!(input.native_key.unwrap(), b"\x1b[33;73;0;1;16;1_");
    let ctrl_bracket = native_key_input(KeyRecord {
        virtual_key_code: 221,
        virtual_scan_code: 27,
        unicode_char: 29,
        key_down: 1,
        control_key_state: 0x8,
        repeat_count: 1,
    });
    match ctrl_bracket.event {
        HostEvent::Key(k) => {
            assert_eq!(k.code, KeyCode::Char(']'));
            assert!(k.modifiers.control);
        }
        _ => panic!("expected a key"),
    }
    let hebrew = native_key_input(KeyRecord {
        virtual_key_code: 0x53,
        virtual_scan_code: 31,
        unicode_char: 0x5e9,
        key_down: 1,
        control_key_state: 0,
        repeat_count: 1,
    });
    match hebrew.event {
        HostEvent::Key(k) => assert_eq!(k.code, KeyCode::Char('ש')),
        _ => panic!("expected a key"),
    }
    let surrogate = native_key_input(KeyRecord {
        virtual_key_code: 0x41,
        virtual_scan_code: 30,
        unicode_char: 0xd83d,
        key_down: 1,
        control_key_state: 0,
        repeat_count: 1,
    });
    match surrogate.event {
        HostEvent::Key(k) => assert_eq!(k.code, KeyCode::Null),
        _ => panic!("expected a key"),
    }
    let m = console_modifiers(0x1 | 0x4);
    assert!(m.alt && m.control && !m.shift);
}

#[test]
fn a_lone_escape_expires_into_an_escape_key() {
    let mut reader = ConsoleInput::new(0);
    reader.accept_key(text_key(27), 10);
    reader.expire(50);
    assert!(reader.pop().is_none());
    reader.expire(110);
    let input = reader.pop().unwrap();
    assert!(matches!(input.event, HostEvent::Key(KeyEvent { code: KeyCode::Esc, .. })));
    assert_eq!(input.native_key.unwrap(), b"\x1b");
    reader.accept_key(
        KeyRecord {
            virtual_key_code: 16,
            virtual_scan_code: 42,
            unicode_char: 0,
            key_down: 1,
            control_key_state: 0x10,
            repeat_count: 1,
        },
        120,
    );
    assert!(reader.pop().is_none());
}

#[test]
fn console_mouse_tracks_buttons_and_wheel() {
    let mut mouse = ConsoleMouse::new();
    assert_eq!(mouse.decode_kind(1, 0), Some(MouseEventKind::Down(MouseButton::Left)));
    assert_eq!(mouse.decode_kind(1, 1), Some(MouseEventKind::Drag(MouseButton::Left)));
    assert_eq!(mouse.decode_kind(0, 0), Some(MouseEventKind::Up(MouseButton::Left)));
    assert_eq!(mouse.decode_kind(120 << 16, 4), Some(MouseEventKind::ScrollUp));
    assert_eq!(mouse.decode_kind((-120i16 as u16 as u32) << 16, 4), Some(MouseEventKind::ScrollDown));
    assert_eq!(mouse.decode_kind(0, 4), None);
    let event = position_event(MouseEventKind::Moved, 12, 5, 2, 1, 0).unwrap();
    assert_eq!((event.column, event.row), (10, 4));
    assert!(position_event(MouseEventKind::Moved, 1, 5, 2, 1, 0).is_none());
}

fn options(agent: Option<&str>, attribution: bool) -> Options {
    Options {
        no_bidi: false,
        direction: Direction::Auto,
        layout: Layout::Columns,
        scrollback: 100,
        no_replay: false,
        pretty: false,
        agent_label: agent.map(str::to_string),
        attribution,
        inline: false,
    }
}

#[test]
fn decorations_give_way_before_the_child_loses_its_last_cells() {
    let (size, labels) = child_geometry(&options(Some("codex"), true), 80, 24);
    assert_eq!((size.cols, size.rows, labels), (72, 23, true));
    let (size, labels) = child_geometry(&options(Some("codex"), true), 9, 1);
    assert_eq!((size.cols, size.rows, labels), (9, 1, false));
    let (size, _) = child_geometry(&options(None, false), 0, 0);
    assert_eq!((size.cols, size.rows), (1, 1));
    let mut renderer = Renderer::default();
    configure_renderer(&mut renderer, &options(Some("grok"), true), 80, 24);
    assert_eq!(renderer.margin(), 8);
    configure_renderer(&mut renderer, &options(Some("grok"), true), 9, 24);
    assert_eq!(renderer.margin(), 0);
    assert_eq!(signal_exit_code(15), Some(143));
    assert_eq!(signal_exit_code(0), None);
}

#[test]
fn windows_batch_arguments_use_literal_powershell_strings() {
    let args: Vec<String> = ["space value", "", "O'Brien", "שלום", "a&b", "a|b", "a>b", "%PATH%", "$HOME", "(parentheses)"]
        .iter()
        .map(|s| s.to_string())
        .collect();
    let script = powershell_batch_script("C:\\space folder\\O'Brien.cmd", &args);
    assert!(script.contains(
        "'space value' '' 'O''Brien' 'שלום' 'a&b' 'a|b' 'a>b' '%PATH%' '$HOME' '(parentheses)'"
    ));
    assert!(script.contains("& 'C:\\space folder\\O''Brien.cmd'"));
    assert!(script.ends_with("exit $LASTEXITCODE } else { exit 1 }"));
    assert_eq!(encoded_command("ab"), "YQBiAA==");
}

#[test]
fn windows_extensions_ignore_case_and_pathext_order() {
    assert!(supported_windows_extension("EXE"));
    assert!(supported_windows_extension("cmd"));
    assert!(!supported_windows_extension("ps1"));
    assert!(batch_extension("Bat"));
    assert!(!batch_extension("exe"));
    assert_eq!(pathext_candidates(".CMD;.EXE;.PS1"), [".CMD", ".EXE"]);
    assert_eq!(pathext_candidates(".EXE;;..com"), [".EXE", "..com"]);
    assert_eq!(resolution_suffixes(Some("exe"), ".CMD"), [None]);
    assert!(resolution_suffixes(Some("ps1"), ".CMD").is_empty());
    assert_eq!(
        resolution_suffixes(None, ".CMD;.EXE;.PS1"),
        [Some(".CMD".to_string()), Some(".EXE".to_string())]
    );
}

#[test]
fn engine_paces_frames_and_ends_after_exit() {
    let mut engine = Engine::new((80, 24), false, 0);
    assert!(engine.render_due(0, false));
    engine.rendered(0);
    engine.on_output();
    assert!(!engine.render_due(10, false));
    assert!(engine.render_due(16, false));
    engine.synchronized(true, 16);
    assert!(!engine.render_due(100, false));
    assert!(engine.render_due(266, false));
    engine.child_exited(3, 300);
    assert_eq!(engine.finished(400), None);
    assert_eq!(engine.finished(800), Some(3));
    engine.on_eof();
    assert_eq!(engine.finished(301), Some(3));
    assert!(matches!(
        engine.on_action(InputAction::Send { bytes: b"x".to_vec(), redraw: false }),
        Step::Continue
    ));
    assert_eq!(frame_offset(5, false, 3), 3);
    assert_eq!(frame_offset(5, true, 3), 0);
    assert!(!replay_wanted(false, false, true, Some(1)));
    assert!(replay_wanted(false, false, false, Some(1)));
}

#[test]
fn engine_handles_shutdown_and_mouse_capture() {
    let mut engine = Engine::new((80, 24), true, 0);
    assert!(engine.on_shutdown_request(Some(143), 5));
    assert!(!engine.on_shutdown_request(Some(143), 6));
    assert_eq!(engine.shutdown_done(100), None);
    assert_eq!(engine.shutdown_done(505), Some(143));
    assert!(!engine.mouse_capture);
    assert_eq!(engine.mouse_change(true, 0, MouseProtocolMode::Press), Some(true));
    assert_eq!(engine.mouse_change(true, 0, MouseProtocolMode::Press), None);
    assert_eq!(engine.mouse_change(true, 3, MouseProtocolMode::Press), Some(false));
    assert!(engine.size_check_due(200, false));
    assert!(!engine.size_check_due(300, false));
    assert!(engine.host_size((100, 30)));
    assert!(!engine.host_size((100, 30)));
    assert!(matches!(engine.on_action(InputAction::Quit), Step::Quit(130)));
}

#[test]
fn console_mouse_mode_keeps_other_bits() {
    assert_eq!(mouse_console_mode(0x47, true), 0x9f);
    assert_eq!(mouse_console_mode(0x9f, false), 0x8f);
}
