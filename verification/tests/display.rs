use terminal_rtl::display::{
    visual_row, visual_row_with_layout, Cell, Color, Direction, Layout, Renderer, Screen, Style,
    VisualRow,
};

fn color(c: vt100::Color) -> Color {
    match c {
        vt100::Color::Default => Color::Default,
        vt100::Color::Idx(i) => Color::Idx(i),
        vt100::Color::Rgb(r, g, b) => Color::Rgb(r, g, b),
    }
}

fn cell(c: &vt100::Cell) -> Cell {
    Cell {
        contents: c.contents().to_string(),
        wide: c.is_wide(),
        wide_continuation: c.is_wide_continuation(),
        style: Style {
            fg: color(c.fgcolor()),
            bg: color(c.bgcolor()),
            bold: c.bold(),
            dim: c.dim(),
            italic: c.italic(),
            underline: c.underline(),
            inverse: c.inverse(),
        },
        hyperlink: None,
    }
}

fn row_cells(screen: &vt100::Screen, row: u16) -> Vec<Cell> {
    let cols = screen.size().1;
    (0..cols).map(|c| screen.cell(row, c).map_or_else(Cell::blank, cell)).collect()
}

/// The rows the screen shows now.
fn viewport_rows(screen: &vt100::Screen) -> Vec<Vec<Cell>> {
    (0..screen.size().0).map(|r| row_cells(screen, r)).collect()
}

/// The library's snapshot of a parser's screen: retained history, live rows,
/// cursor and scroll offset.
fn screen_of(screen: &vt100::Screen) -> Screen {
    let offset = screen.scrollback();
    let mut view = screen.clone();
    view.set_scrollback(usize::MAX);
    let retained = view.scrollback();
    let mut history = Vec::new();
    for i in 0..retained {
        view.set_scrollback(retained - i);
        history.push(row_cells(&view, 0));
    }
    view.set_scrollback(0);
    let (cursor_row, cursor_col) = view.cursor_position();
    Screen {
        history,
        live: viewport_rows(&view),
        width: view.size().1,
        cursor_row,
        cursor_col,
        hide_cursor: view.hide_cursor(),
        scrollback: offset,
    }
}

fn draw(renderer: &mut Renderer, screen: &vt100::Screen, enabled: bool, out: &mut Vec<u8>) {
    renderer.render(&screen_of(screen), enabled, Direction::Auto, out);
}

fn render(parser: &vt100::Parser, renderer: &mut Renderer) -> vt100::Parser {
    let mut bytes = Vec::new();
    draw(renderer, parser.screen(), true, &mut bytes);
    let (rows, cols) = parser.screen().size();
    let mut host = vt100::Parser::new(rows, cols, 0);
    host.process(&bytes);
    host
}

fn row(text: &str, width: u16) -> VisualRow {
    let mut parser = vt100::Parser::new(3, width, 0);
    parser.process(text.as_bytes());
    visual_row(&row_cells(parser.screen(), 0), true, Direction::Auto)
}

fn text(row: &VisualRow) -> String {
    row.glyphs
        .iter()
        .map(|g| g.text.as_str())
        .collect::<String>()
        .trim_end()
        .to_owned()
}

#[test]
fn hebrew_and_punctuation_are_in_visual_order() {
    assert_eq!(text(&row("שלום עולם!", 40)), "!םלוע םולש");
}

#[test]
fn english_numbers_paths_and_cli_flags_keep_their_internal_order() {
    let output = text(&row("שלום English 123 src/main.rs --help", 60));
    assert!(output.contains("English 123 src/main.rs --help"), "{output}");
    assert!(output.contains("םולש"));
    assert_eq!(text(&row("cargo test --locked", 40)), "cargo test --locked");
}

#[test]
fn mirrors_parentheses_and_keeps_marks_attached() {
    assert_eq!(text(&row("שלום (עולם)", 40)), "(םלוע) םולש");
    let output = text(&row("שָׁלוֹם", 40));
    assert_eq!(output, "םוֹלשָׁ");
}

#[test]
fn preserves_borders_indentation_and_prompt_columns() {
    assert_eq!(text(&row("│ שלום  │  ready │", 40)), "│ םולש  │  ready │");
    assert_eq!(text(&row("  > שלום עולם", 40)), "  > םלוע םולש");
}

#[test]
fn wide_cells_move_as_units_and_mouse_mapping_is_reversible() {
    let output = row("אב 界 גד", 20);
    assert_eq!(text(&output), "דג 界 בא");
    assert_eq!(output.glyphs.iter().map(|g| g.width).sum::<u16>(), 20);
    let wide = output.glyphs.iter().find(|g| g.text == "界").unwrap();
    assert_eq!(wide.width, 2);
    for logical in 0..8 {
        let visual = output.logical_to_visual[logical];
        assert_eq!(output.visual_to_logical[usize::from(visual)], logical as u16);
    }
}

#[test]
fn colours_travel_with_hebrew_letters() {
    let output = row("\x1b[31mאב\x1b[32mגד\x1b[0m", 20);
    assert_eq!(text(&output), "דגבא");
    assert_eq!(output.glyphs[0].style.fg, Color::Idx(2));
    assert_eq!(output.glyphs[3].style.fg, Color::Idx(1));
}

#[test]
fn cursor_maps_to_visual_letter_and_end_of_rtl_input() {
    let output = row("> אבגד", 20);
    assert_eq!(output.logical_to_visual[2], 5);
    assert_eq!(output.logical_to_visual[5], 2);
    assert_eq!(output.logical_to_visual[6], 2);
}

#[test]
fn fragmented_utf8_and_ansi_do_not_corrupt_the_logical_screen() {
    let source = "\x1b[31mשלום\x1b[0m עולם!".as_bytes();
    let mut whole = vt100::Parser::new(4, 40, 20);
    whole.process(source);
    let mut fragmented = vt100::Parser::new(4, 40, 20);
    let mut renderer = Renderer::default();
    let mut host = vt100::Parser::new(4, 40, 0);
    for byte in source {
        fragmented.process(&[*byte]);
        let mut output = Vec::new();
        draw(&mut renderer, fragmented.screen(), true, &mut output);
        host.process(&output);
    }
    assert_eq!(fragmented.screen().contents(), whole.screen().contents());
    assert_eq!(host.screen().contents(), "!םלוע םולש");
    assert_eq!(host.screen().cell(0, 8).unwrap().fgcolor(), vt100::Color::Idx(1));
}

#[test]
fn redraw_erase_and_alternate_screen_round_trip() {
    let mut logical = vt100::Parser::new(4, 30, 20);
    let mut host = vt100::Parser::new(4, 30, 0);
    let mut renderer = Renderer::default();
    for bytes in ["שלום עולם", "\r\x1b[2Kחדש", "\x1b[?1049hתפריט", "\x1b[?1049l"] {
        logical.process(bytes.as_bytes());
        let mut output = Vec::new();
        draw(&mut renderer, logical.screen(), true, &mut output);
        host.process(&output);
    }
    assert_eq!(logical.screen().contents(), "חדש");
    assert_eq!(host.screen().contents(), "שדח");
    let mut unchanged = Vec::new();
    draw(&mut renderer, logical.screen(), true, &mut unchanged);
    assert!(unchanged.is_empty(), "an idle frame should emit no bytes");
}

#[test]
fn wrap_resize_and_toggle_keep_rows_in_bounds() {
    let mut parser = vt100::Parser::new(3, 8, 20);
    parser.process("אבגדהוזחטיכלמנסע".as_bytes());
    let mut renderer = Renderer::default();
    let mut output = Vec::new();
    draw(&mut renderer, parser.screen(), true, &mut output);
    let mut host = vt100::Parser::new(3, 8, 0);
    host.process(&output);
    assert_eq!(
        host.screen().rows(0, 8).take(2).collect::<Vec<_>>(),
        ["חזוהדגבא", "עסנמלכיט"]
    );
    output.clear();
    draw(&mut renderer, parser.screen(), false, &mut output);
    host.process(&output);
    assert_eq!(
        host.screen().rows(0, 8).collect::<Vec<_>>(),
        parser.screen().rows(0, 8).collect::<Vec<_>>()
    );
    parser.screen_mut().set_size(2, 5);
    draw(&mut renderer, parser.screen(), true, &mut Vec::new());
}

#[test]
fn scrollback_view_does_not_change_live_content() {
    let mut parser = vt100::Parser::new(2, 20, 20);
    parser.process("אחד\r\nשתיים\r\nשלוש\r\nארבע".as_bytes());
    let live = parser.screen().contents();
    let mut history = parser.screen().clone();
    history.set_scrollback(2);
    let mut renderer = Renderer::default();
    let mut bytes = Vec::new();
    draw(&mut renderer, &history, true, &mut bytes);
    let mut host = vt100::Parser::new(2, 20, 0);
    host.process(&bytes);
    assert!(host.screen().contents().contains("דחא"));
    assert_eq!(parser.screen().contents(), live);
}

#[test]
fn table_decoration_preserves_native_status_prompt_columns_and_logical_text() {
    let mut parser = vt100::Parser::new(8, 40, 0);
    parser.process("| Name | Value |\r\n| ---- | ----- |\r\n| שלום | ready |\r\n\r\nSTATUS: model / context\r\n> ".as_bytes());
    let original = parser.screen().contents();
    let mut renderer = Renderer::default();
    renderer.set_pretty(true);
    let host = render(&parser, &mut renderer);
    assert!(host.screen().contents().contains("│ םולש │ ready │"));
    assert!(host.screen().contents().contains("├──────┼───────┤"));
    assert!(host.screen().cell(0, 2).unwrap().bold());
    assert_eq!(host.screen().rows(0, 40).nth(4).unwrap(), "STATUS: model / context");
    assert_eq!(host.screen().cursor_position(), parser.screen().cursor_position());
    assert_eq!(parser.screen().contents(), original);
    assert_eq!(renderer.logical_column(2, 7), 7);
}

#[test]
fn incomplete_tables_code_and_active_input_are_not_reinterpreted() {
    for input in [
        "x | y\r\n--|--\r\nz | w",
        "| A | B |\r\n| --- | --- |",
        "```\r\n| A   | B   |\r\n| --- | --- |\r\n| C   | D   |\r\n```",
    ] {
        let mut parser = vt100::Parser::new(10, 40, 0);
        parser.process(input.as_bytes());
        let mut renderer = Renderer::default();
        renderer.set_pretty(true);
        let host = render(&parser, &mut renderer);
        assert!(!host.screen().contents().contains('┼'));
    }
    let mut parser = vt100::Parser::new(5, 40, 0);
    parser.process(b"| A   | B   |\r\n| --- | --- |\r\n| C   | D   |");
    let mut renderer = Renderer::default();
    renderer.set_pretty(true);
    assert!(!render(&parser, &mut renderer).screen().contents().contains('┼'));
}

#[test]
fn streamed_table_detection_invalidates_unchanged_header_and_can_be_disabled() {
    let mut parser = vt100::Parser::new(8, 40, 0);
    let mut renderer = Renderer::default();
    renderer.set_pretty(true);
    parser.process(b"| A   | B   |\r\n");
    render(&parser, &mut renderer);
    parser.process(b"| --- | --- |\r\n| C   | D   |\r\n> ");
    let host = render(&parser, &mut renderer);
    assert!(host.screen().cell(0, 2).unwrap().bold());
    renderer.set_pretty(false);
    assert_eq!(
        render(&parser, &mut renderer).screen().rows(0, 40).next().unwrap(),
        "| A   | B   |"
    );
}

#[test]
fn markdown_hierarchy_lists_quotes_and_code_keep_native_geometry_and_colors() {
    let mut parser = vt100::Parser::new(14, 50, 0);
    parser.process(b"# Title\r\n## Section\r\n### Detail\r\n- List item\r\n> Quoted text\r\n```rs\r\nlet value = 1;\r\n```\r\n\x1b[31m## Native red\x1b[0m\r\n\r\n> ");
    let original = parser.screen().contents();
    let mut renderer = Renderer::default();
    renderer.set_pretty(true);
    let host = render(&parser, &mut renderer);
    let cell = |row, col| host.screen().cell(row, col).unwrap();
    assert!(cell(0, 2).bold() && cell(0, 2).underline());
    assert!(cell(1, 3).bold() && !cell(1, 3).underline());
    assert_ne!(cell(1, 3).fgcolor(), cell(2, 4).fgcolor());
    assert!(cell(3, 0).bold());
    assert!(!cell(3, 2).bold());
    assert!(cell(4, 2).italic());
    assert!(!cell(6, 0).dim());
    assert!(cell(5, 0).dim());
    assert_eq!(cell(8, 3).fgcolor(), vt100::Color::Idx(1));
    assert_eq!(parser.screen().contents(), original);
    assert_eq!(
        host.screen().contents().lines().map(str::trim_end).collect::<Vec<_>>(),
        original.lines().map(str::trim_end).collect::<Vec<_>>()
    );
    assert_eq!(host.screen().cursor_position(), parser.screen().cursor_position());
}

#[test]
fn speaker_margin_keeps_native_text_cursor_and_mouse_coordinates() {
    for agent in ["codex", "grok"] {
        let mut parser = vt100::Parser::new(8, 32, 0);
        parser.process("› hello\r\n• שלום\r\nSTATUS model\r\n```\r\n• code\r\n```\r\n› ".as_bytes());
        let original = parser.screen().contents();
        let mut renderer = Renderer::default();
        renderer.set_agent_label(Some(agent));
        let mut bytes = Vec::new();
        draw(&mut renderer, parser.screen(), true, &mut bytes);
        let mut host = vt100::Parser::new(8, 40, 0);
        host.process(&bytes);
        assert!(host.screen().rows(0, 40).next().unwrap().starts_with("you:    › hello"));
        assert!(host
            .screen()
            .rows(0, 40)
            .nth(1)
            .unwrap()
            .starts_with(&format!("{:<8}• םולש", format!("{agent}:"))));
        assert!(host.screen().rows(0, 40).nth(2).unwrap().starts_with("        STATUS"));
        assert!(host.screen().rows(0, 40).nth(4).unwrap().starts_with("        • code"));
        assert_eq!(host.screen().cursor_position(), (6, 10));
        assert_eq!(renderer.logical_column(0, 10), 2);
        assert_eq!(renderer.logical_column(1, 10), 5);
        assert_eq!(parser.screen().contents(), original);
        parser.process(b"\x1b[H\x1b[2KSTATUS changed");
        bytes.clear();
        draw(&mut renderer, parser.screen(), true, &mut bytes);
        host.process(&bytes);
        assert!(host
            .screen()
            .rows(0, 40)
            .next()
            .unwrap()
            .starts_with("        STATUS changed"));
    }
}

#[test]
fn native_grok_transcript_and_boxed_composer_get_full_labels() {
    let mut parser = vt100::Parser::new(9, 72, 0);
    parser.process("     ❯ hello                         7:28 PM\r\n     ◆ Thought for 0.0s\r\n     hello                           7:28 PM\r\n     Worked for 2.2s\r\n  │ ❯                                │\r\n> Markdown quote\r\n".as_bytes());
    let grid = viewport_rows(parser.screen());
    let labels = terminal_rtl::pretty::speaker_labels(&grid, Some("grok"));
    assert_eq!(
        labels[..6],
        [Some("you:".into()), None, Some("grok:".into()), None, Some("you:".into()), None]
    );
}

#[test]
fn attribution_stays_below_native_content_across_redraw_and_resize() {
    let mut parser = vt100::Parser::new(5, 40, 0);
    let mut renderer = Renderer::default();
    renderer.set_attribution(true);
    let mut host = vt100::Parser::new(6, 40, 0);
    for text in [
        "\x1b[2J\x1b[H› hello\x1b[5;1HNative status",
        "\x1b[2J\x1b[H› שלום\x1b[5;1HUpdated status",
    ] {
        parser.process(text.as_bytes());
        let mut bytes = Vec::new();
        draw(&mut renderer, parser.screen(), true, &mut bytes);
        host.process(&bytes);
        assert_eq!(host.screen().rows(0, 40).nth(5).unwrap(), "Powered by: Gal Havkin");
        assert_eq!(host.screen().cursor_position(), parser.screen().cursor_position());
        assert!(host.screen().rows(0, 40).nth(4).unwrap().contains("status"));
    }
    parser.screen_mut().set_size(3, 30);
    host.screen_mut().set_size(4, 30);
    let mut bytes = Vec::new();
    draw(&mut renderer, parser.screen(), true, &mut bytes);
    host.process(&bytes);
    assert_eq!(host.screen().rows(0, 30).nth(3).unwrap(), "Powered by: Gal Havkin");
}

#[test]
fn unchanged_attribution_is_not_repainted() {
    let mut parser = vt100::Parser::new(3, 40, 0);
    let mut renderer = Renderer::default();
    renderer.set_attribution(true);
    draw(&mut renderer, parser.screen(), true, &mut Vec::new());
    parser.process(b"update");
    let mut bytes = Vec::new();
    draw(&mut renderer, parser.screen(), true, &mut bytes);
    assert!(!String::from_utf8(bytes).unwrap().contains("Powered by"));
}

#[test]
fn grok_minimal_labels_plain_replies_without_labeling_status_or_input_continuations() {
    let mut parser = vt100::Parser::new(16, 72, 0);
    parser.process("❯ hello\r\ncontinued user input\r\n\r\n┃◆ Thought for 0.2s\r\n┃thinking text\r\nhello\r\nWorked for 1.5s\r\n\r\n❯ second message\r\n\r\nplain reply\r\nminimal · /help\r\n❯\r\nGrok 4.6 (high) · ctrl+o transcript".as_bytes());
    let grid = viewport_rows(parser.screen());
    let labels = terminal_rtl::pretty::speaker_labels(&grid, Some("grok"));
    assert_eq!(labels[0].as_deref(), Some("you:"));
    assert_eq!(labels[1], None);
    assert_eq!(labels[3].as_deref(), Some("grok:"));
    assert_eq!(labels[5].as_deref(), Some("grok:"));
    assert_eq!(labels[6], None);
    assert_eq!(labels[8].as_deref(), Some("you:"));
    assert_eq!(labels[10].as_deref(), Some("grok:"));
    assert_eq!(labels[11], None);
    assert_eq!(labels[12].as_deref(), Some("you:"));
    assert_eq!(labels[13], None);
}

#[test]
fn timestamp_labels_require_valid_clock_boundaries() {
    for (clock, valid) in [
        ("00:00", true),
        ("23:59", true),
        ("1:05 PM", true),
        ("12:59 AM", true),
        ("24:00", false),
        ("23:60", false),
        ("00:30 AM", false),
        ("23:59 PM", false),
        ("+1:00", false),
        ("12:3", false),
    ] {
        let mut parser = vt100::Parser::new(1, 60, 0);
        parser.process(format!("message  {clock}").as_bytes());
        let labels =
            terminal_rtl::pretty::speaker_labels(&viewport_rows(parser.screen()), Some("grok"));
        assert_eq!(labels[0].is_some(), valid, "{clock}");
    }
}

#[test]
fn prose_layout_preserves_exact_space_runs_and_columns_remain_opt_in_default() {
    for (logical, prose, columns) in [
        ("שלום עולם", "םלוע םולש", "םלוע םולש"),
        ("שלום  עולם", "םלוע  םולש", "םולש  םלוע"),
        ("שלום   עולם", "םלוע   םולש", "םולש   םלוע"),
        ("  שלום  עולם", "  םלוע  םולש", "  םולש  םלוע"),
    ] {
        let mut p = vt100::Parser::new(1, 30, 0);
        p.process(logical.as_bytes());
        let rows = viewport_rows(p.screen());
        for (layout, expected) in [(Layout::Prose, prose), (Layout::Columns, columns)] {
            let visual = visual_row_with_layout(&rows[0], true, Direction::Auto, layout);
            let actual: String = visual.glyphs.iter().map(|g| g.text.as_str()).collect();
            assert_eq!(actual.trim_end(), expected, "{logical:?} {layout:?}");
            for glyph in &visual.glyphs {
                assert!(glyph.width <= 2);
            }
        }
    }
}

#[test]
fn prose_mixed_text_columns_links_and_coordinates_stay_consistent() {
    for (logical, expected) in [
        ("שלום  English  עולם", "םלוע  English  םולש"),
        ("שלום  (123)  עולם!", "!םלוע  (123)  םולש"),
        ("│ שלום  עולם │ English │", "│ םלוע  םולש │ English │"),
    ] {
        let mut p = vt100::Parser::new(1, 40, 0);
        p.process(logical.as_bytes());
        let link = terminal_rtl::hyperlink::Hyperlink::new(
            "https://example.com/full;destination".into(),
            "rtl-1-auto-1".into(),
        );
        let mut cells = viewport_rows(p.screen()).remove(0);
        for cell in cells.iter_mut().filter(|c| c.has_contents()) {
            cell.hyperlink = link.as_ref().map(|l| l.duplicate());
        }
        let visual = visual_row_with_layout(&cells, true, Direction::Auto, Layout::Prose);
        let actual: String = visual.glyphs.iter().map(|g| g.text.as_str()).collect();
        assert_eq!(actual.trim_end(), expected);
        for (logical, cell) in cells.iter().enumerate().filter(|(_, cell)| cell.has_contents()) {
            let mapped = usize::from(visual.logical_to_visual[logical]);
            assert_eq!(usize::from(visual.visual_to_logical[mapped]), logical);
            assert_eq!(
                visual.glyphs[mapped].hyperlink.as_ref().map(|l| l.uri().to_string()),
                cell.hyperlink.as_ref().map(|l| l.uri().to_string())
            );
        }
    }
    let mut p = vt100::Parser::new(1, 20, 0);
    p.process("שלום English".as_bytes());
    let cells = viewport_rows(p.screen()).remove(0);
    let text = |direction, enabled| {
        visual_row_with_layout(&cells, enabled, direction, Layout::Prose)
            .glyphs
            .iter()
            .map(|g| g.text.as_str())
            .collect::<String>()
            .trim_end()
            .to_owned()
    };
    assert_eq!(text(Direction::Ltr, true), "םולש English");
    assert_eq!(text(Direction::Rtl, true), "English םולש");
    assert_eq!(text(Direction::Rtl, false), "שלום English");
}

#[test]
fn historical_rows_survive_width_changes() {
    let mut p = vt100::Parser::new(2, 8, 10);
    p.process(b"abcdefgh\r\nijklmnop\r\nnext");
    for width in [12, 5, 1, 8] {
        p.screen_mut().set_size(2, width);
        p.screen_mut().set_scrollback(1);
        Renderer::default().render(&screen_of(p.screen()), true, Direction::Auto, &mut Vec::new());
    }
    assert_eq!(screen_of(p.screen()).history[0].len(), 8);
}
