use terminal_rtl::display::{
    final_screen, replay, visual_row, Cell, Direction, Glyph, Layout, Renderer, Screen, Style,
};
use terminal_rtl::hyperlink::Hyperlink;
use terminal_rtl::input::{KeyCode, KeyModifiers};
use terminal_rtl::pretty::{detect, RowFormat};
use terminal_rtl::session::console::{decode_console_sequence, native_key_input, ConsoleSequence, KeyRecord};
use terminal_rtl::session::interaction::{ChildModes, HostEvent, HostInput, SessionInput};

fn cells(text: &str, width: usize) -> Vec<Cell> {
    let mut row: Vec<Cell> = text
        .chars()
        .map(|c| {
            let mut cell = Cell::blank();
            cell.contents = c.to_string();
            cell
        })
        .collect();
    while row.len() < width {
        row.push(Cell::blank());
    }
    row
}

fn screen(rows: &[&str], width: usize) -> Screen {
    Screen {
        history: Vec::new(),
        live: rows.iter().map(|r| cells(r, width)).collect(),
        width: width as u16,
        cursor_row: 0,
        cursor_col: 0,
        hide_cursor: false,
        scrollback: 0,
    }
}

#[test]
fn a_second_render_of_the_same_screen_sends_nothing() {
    let s = screen(&["שלום עולם", "| a | b |", "> x"], 20);
    for pretty in [false, true] {
        let mut renderer = Renderer::default();
        renderer.set_pretty(pretty);
        renderer.set_attribution(true);
        let mut first = Vec::new();
        renderer.render(&s, true, Direction::Auto, &mut first);
        assert!(!first.is_empty());
        let mut second = Vec::new();
        renderer.render(&s, true, Direction::Auto, &mut second);
        assert!(second.is_empty());
    }
}

#[test]
fn link_bytes_carry_no_controls() {
    let link = Hyperlink::new("https://example.com/שלום".into(), "id-1".into()).unwrap();
    let mut row = cells("ab", 4);
    row[0].hyperlink = Some(link.duplicate());
    let mut s = screen(&[], 4);
    s.live = vec![row];
    let bytes = replay(&s, true, Direction::Auto, Layout::Columns);
    let open = b"\x1b]8;id=";
    let start = bytes.windows(open.len()).position(|w| w == open).unwrap() + open.len();
    let end = start + bytes[start..].iter().position(|b| *b == 0x1b).unwrap();
    assert_eq!(&bytes[end..end + 2], b"\x1b\\");
    assert!(bytes[start..end].iter().all(|b| *b >= 0x20 && *b != 0x7f));
    assert!(String::from_utf8_lossy(&bytes[start..end]).contains("https://example.com/שלום"));
}

#[test]
fn the_cursor_row_is_never_decorated() {
    let rows = vec![cells("# Title", 10), cells("# Other", 10)];
    let formats = detect(&rows, Some(0));
    assert!(formats[0].same(&RowFormat::plain()));
    assert!(!formats[1].same(&RowFormat::plain()));
}

#[test]
fn enveloped_key_records_decode_back() {
    let record = KeyRecord {
        virtual_key_code: 65,
        virtual_scan_code: 30,
        unicode_char: 0x5e9,
        key_down: 1,
        control_key_state: 0x18,
        repeat_count: 3,
    };
    let bytes = native_key_input(record).native_key.unwrap();
    let units: Vec<u16> = String::from_utf8(bytes).unwrap().encode_utf16().collect();
    match decode_console_sequence(&units) {
        ConsoleSequence::Key(k) => assert_eq!(k, record),
        _ => panic!("expected the same record"),
    }
}

#[test]
fn decoration_keeps_widths_columns_and_links() {
    let rows = vec![cells("| a   | b   |", 13), cells("| --- | --- |", 13), cells("| c   | d   |", 13)];
    let formats = detect(&rows, None);
    let before: Vec<Glyph> = visual_row(&rows[1], false, Direction::Auto).glyphs;
    let mut after: Vec<Glyph> = before.iter().map(|g| g.duplicate()).collect();
    formats[1].apply(&mut after);
    for (a, b) in before.iter().zip(&after) {
        assert_eq!((a.width, a.logical_col), (b.width, b.logical_col));
    }
    assert!(after[0].style.dim);
    assert_eq!(after[0].text, "├");
    assert_eq!(after[2].text, "─");
    assert_eq!(before[0].style, Style::default_style());
}

#[test]
fn scrollback_browsing_stops_at_the_retained_history() {
    let renderer = Renderer::default();
    let modes = ChildModes {
        rows: 30,
        application_cursor: false,
        bracketed_paste: false,
        alternate_screen: false,
        mouse_mode: terminal_rtl::input::MouseProtocolMode::Disabled,
        mouse_encoding: terminal_rtl::input::MouseProtocolEncoding::Default,
        focus_events: false,
    };
    let mut input = SessionInput::new(false, 40);
    for _ in 0..5 {
        input.handle(
            HostInput {
                event: HostEvent::Key(terminal_rtl::input::KeyEvent::new(
                    KeyCode::PageUp,
                    KeyModifiers::shift(),
                )),
                native_key: None,
            },
            &modes,
            &renderer,
        );
        assert!(input.scrollback <= 40);
    }
    assert_eq!(input.scrollback, 40);
}

#[test]
fn exit_text_drops_trailing_blank_rows() {
    let s = screen(&["שלום  ", "abc", "", ""], 8);
    assert_eq!(final_screen(&s, true, Direction::Auto), "םולש\nabc\n".as_bytes());
    assert!(final_screen(&screen(&["", ""], 4), true, Direction::Auto).is_empty());
}

#[test]
fn history_rows_go_to_the_host_scrollback() {
    let mut renderer = Renderer::default();
    let s = screen(&["one", "two"], 6);
    renderer.render(&s, true, Direction::Auto, &mut Vec::new());
    let mut out = Vec::new();
    renderer.append_history(&[cells("old", 6)], (6, 3), true, Direction::Auto, &mut out);
    assert!(out.starts_with(b"\x1b[?25l\x1b[r\x1b[1;1H\x1b[0m"));
    assert!(out.ends_with(b"\x1b[0m\x1b[K\x1b[3;1H\r\n"));
    let mut again = Vec::new();
    renderer.render(&s, true, Direction::Auto, &mut again);
    assert!(!again.is_empty());
}

#[test]
fn only_the_changed_row_is_repainted() {
    let mut renderer = Renderer::default();
    let s1 = screen(&["one", "two", "three"], 8);
    renderer.render(&s1, true, Direction::Auto, &mut Vec::new());
    let s2 = screen(&["one", "TWO", "three"], 8);
    let mut out = Vec::new();
    renderer.render(&s2, true, Direction::Auto, &mut out);
    let text = String::from_utf8(out).unwrap();
    assert!(text.contains("\x1b[2;1H\x1b[0m"));
    assert!(!text.contains("\x1b[1;1H\x1b[0m"));
    assert!(!text.contains("\x1b[3;1H\x1b[0m"));
}

#[test]
fn browsing_past_the_history_keeps_the_cursor_hidden() {
    let mut s = screen(&["live"], 6);
    s.history = vec![cells("old", 6)];
    let mut a = Renderer::default();
    let mut b = Renderer::default();
    let mut far = Vec::new();
    let mut clamped = Vec::new();
    a.render_scrollback(&s, 50, true, Direction::Auto, &mut far);
    b.render_scrollback(&s, 1, true, Direction::Auto, &mut clamped);
    assert_eq!(far, clamped);
    assert!(!String::from_utf8(far).unwrap().contains("\x1b[?25h"));
}

#[test]
fn a_hidden_cursor_is_never_shown_by_any_part_of_the_frame() {
    let mut s = screen(&["you: (שלום) [x]", "codex: done ⟨ok⟩"], 24);
    let link = Hyperlink::new("https://example.com/?25h".into(), "id".into()).unwrap();
    s.live[0][6].hyperlink = Some(link);
    s.hide_cursor = true;
    let mut r = Renderer::default();
    r.set_attribution(true);
    r.set_pretty(true);
    r.set_agent_label(Some("codex"));
    let mut out = Vec::new();
    r.render_scrollback(&s, 0, true, Direction::Rtl, &mut out);
    let text = String::from_utf8(out).unwrap();
    assert!(text.starts_with("\x1b[?25l"));
    assert!(text.contains("Powered by"));
    assert!(!text.contains("\x1b[?25h"));
}

#[test]
fn borders_gaps_indentation_and_markers_keep_their_columns() {
    let row = visual_row(&cells("│ שלום  abc │", 14), true, Direction::Auto);
    for c in [0usize, 1, 6, 7, 12] {
        assert_eq!(row.visual_to_logical[c] as usize, c);
        assert_eq!(row.logical_to_visual[c] as usize, c);
    }
    assert_eq!(row.visual_to_logical[2], 5);
    assert_eq!(row.visual_to_logical[5], 2);
    let prompt = visual_row(&cells("  > שלום", 10), true, Direction::Auto);
    for c in [0usize, 1, 2, 3] {
        assert_eq!(prompt.visual_to_logical[c] as usize, c);
        assert_eq!(prompt.logical_to_visual[c] as usize, c);
    }
    assert_eq!(prompt.glyphs[2].text, ">");
}

#[test]
fn uncorrected_rows_show_the_cells_in_place() {
    let row = visual_row(&cells("שלום abc", 10), false, Direction::Auto);
    let identity: Vec<u16> = (0..10).collect();
    assert_eq!(row.logical_to_visual, identity);
    assert_eq!(row.visual_to_logical, identity);
    let text: String = row.glyphs.iter().map(|g| g.text.as_str()).collect();
    assert_eq!(text.trim_end(), "שלום abc");
}
