use std::collections::VecDeque;

use pixelrs::cell::{Color, Paint, TermChar, empty_term_char};
use pixelrs::session::Client;
use pixelrs::tools::{Config, DrawTerm, KeyCode, KeyEvent, KeyEventKind, MouseButton, MouseEvent, MouseEventKind,
    TermCommand, Tool};

fn press(column: u16, row: u16) -> MouseEvent {
    MouseEvent { kind: MouseEventKind::Down(MouseButton::Left), column, row }
}

fn key(c: char) -> KeyEvent {
    KeyEvent { code: KeyCode::Char(c), kind: KeyEventKind::Press }
}

fn special(code: KeyCode) -> KeyEvent {
    KeyEvent { code, kind: KeyEventKind::Press }
}

/// Carries everything `from` has queued to `to`, as the relay would.
fn tick(from: &mut Option<Client>, to: &mut DrawTerm) {
    let client = from.as_mut().unwrap();
    let messages: Vec<Vec<u8>> = client.pending().iter().cloned().collect();
    client.broadcast_client_updates(messages.len(), false);
    let mut inbound: VecDeque<Vec<u8>> = messages.into_iter().collect();
    let dropped = to.on_netowrk_update_events(&mut inbound, &mut None);
    assert_eq!(dropped, 0);
    assert!(inbound.is_empty());
}

#[test]
fn two_sessions_mirror_brush_and_erase() {
    let mut a = DrawTerm::new(80, 24);
    let mut b = DrawTerm::new(80, 24);
    let mut link = Some(Client::new(&"127.0.0.1:7000".to_string()));
    a.on_key_event(key('c'), &link);
    a.on_mouse_event(press(6, 23), &mut link);
    assert_eq!(a.color_selected, Color::AnsiValue(3));
    a.on_mouse_event(press(10, 4), &mut link);
    tick(&mut link, &mut b);
    let item = b.screen.layers[0].get_item_at_absolute((10, 4)).expect("mirrored item");
    assert_eq!(item.chars[0][0].background_color, Color::AnsiValue(3));
    a.on_key_event(key('e'), &link);
    a.on_mouse_event(press(10, 4), &mut link);
    tick(&mut link, &mut b);
    assert!(b.screen.layers[0].get_item_at_absolute((10, 4)).is_none());
    assert!(b.screen.layers[0].items.is_empty());
}

#[test]
fn palette_overlay_toggles_sixteen_swatches() {
    let mut d = DrawTerm::new(80, 24);
    d.on_key_event(key('c'), &None);
    assert_eq!(d.config, Config::ColorSelection);
    let fg = &d.screen.layers[1];
    assert_eq!(fg.items.len(), 16);
    for (c, item) in fg.items.iter().enumerate() {
        assert_eq!(item.name, "color_selection_pixels");
        assert_eq!(item.offset, (2 * c as i32, 23));
        assert_eq!(item.chars[0][0].background_color, Color::AnsiValue(c as u8));
    }
    d.take_output();
    d.on_key_event(key('c'), &None);
    assert_eq!(d.config, Config::Idle);
    assert!(d.screen.layers[1].items.is_empty());
    let expected: Vec<TermCommand> =
        (0..32).map(|c| TermCommand::Paint(Paint { col: c, row: 23, cell: empty_term_char() })).collect();
    assert_eq!(d.take_output(), expected);
}

#[test]
fn ink_over_empty_canvas_selects_the_eraser() {
    let mut d = DrawTerm::new(80, 24);
    d.on_key_event(key('i'), &None);
    assert_eq!(d.tool, Tool::Ink);
    d.on_mouse_event(press(20, 10), &mut None);
    assert_eq!(d.tool, Tool::Erase);
}

#[test]
fn ink_over_a_filled_cell_picks_its_color() {
    let mut d = DrawTerm::new(80, 24);
    d.on_key_event(key('c'), &None);
    d.on_mouse_event(press(10, 23), &mut None);
    assert_eq!(d.color_selected, Color::AnsiValue(5));
    d.on_mouse_event(press(20, 10), &mut None);
    d.on_key_event(key('c'), &None);
    d.on_mouse_event(press(18, 23), &mut None);
    assert_eq!(d.color_selected, Color::AnsiValue(9));
    d.on_key_event(key('i'), &None);
    d.on_mouse_event(press(21, 10), &mut None);
    assert_eq!(d.tool, Tool::Brush);
    assert_eq!(d.color_selected, Color::AnsiValue(5));
}

#[test]
fn brush_then_erase_keeps_the_item_count() {
    let mut d = DrawTerm::new(80, 24);
    d.on_mouse_event(press(2, 2), &mut None);
    d.on_mouse_event(press(30, 7), &mut None);
    let before = d.screen.layers[0].items.len();
    d.on_mouse_event(press(12, 6), &mut None);
    assert_eq!(d.screen.layers[0].items.len(), before + 1);
    d.on_key_event(key('e'), &None);
    d.on_mouse_event(press(12, 6), &mut None);
    assert_eq!(d.screen.layers[0].items.len(), before);
}

#[test]
fn brush_snaps_to_even_columns_and_publishes() {
    let mut d = DrawTerm::new(80, 24);
    let mut link = Some(Client::new(&"h:1".to_string()));
    d.on_mouse_event(press(13, 6), &mut link);
    let item = &d.screen.layers[0].items[0];
    assert_eq!(item.name, "P");
    assert_eq!(item.offset, (12, 6));
    assert_eq!(link.as_ref().unwrap().pending().len(), 1);
}

#[test]
fn erase_over_nothing_changes_nothing() {
    let mut d = DrawTerm::new(80, 24);
    let mut link = Some(Client::new(&"h:1".to_string()));
    d.on_key_event(key('e'), &link);
    d.on_mouse_event(press(12, 6), &mut link);
    assert!(d.screen.layers[0].items.is_empty());
    assert!(link.as_ref().unwrap().pending().is_empty());
}

#[test]
fn move_pans_by_the_pointer_travel() {
    let mut d = DrawTerm::new(80, 24);
    d.on_mouse_event(press(4, 4), &mut None);
    d.on_key_event(key('m'), &None);
    d.on_mouse_event(MouseEvent { kind: MouseEventKind::Moved, column: 10, row: 5 }, &mut None);
    d.on_mouse_event(MouseEvent { kind: MouseEventKind::Drag(MouseButton::Left), column: 14, row: 6 }, &mut None);
    assert_eq!(d.screen.layers[0].offset, (4, 1));
    assert_eq!(d.screen.layers[0].items[0].offset, (4, 4));
    assert!(d.screen.layers[0].get_item_at_absolute((8, 5)).is_some());
    assert!(d.take_output().iter().any(|c| matches!(c, TermCommand::Frame(_))));
}

#[test]
fn text_session_types_and_deletes() {
    let mut d = DrawTerm::new(80, 24);
    d.on_key_event(key('a'), &None);
    assert_eq!(d.tool, Tool::Text);
    d.on_mouse_event(press(4, 2), &mut None);
    assert!(d.typing);
    assert_eq!(d.last_cursor_position, (4, 2));
    assert!(!d.on_key_event(key('h'), &None));
    assert!(!d.on_key_event(key('q'), &None));
    assert_eq!(d.last_cursor_position, (8, 2));
    assert_eq!(d.screen.layers[0].items.len(), 2);
    assert_eq!(d.screen.layers[0].items[0].chars[0][0].character, 'h');
    assert_eq!(d.screen.layers[0].items[0].offset, (4, 2));
    d.on_key_event(special(KeyCode::Backspace), &None);
    assert_eq!(d.last_cursor_position, (6, 2));
    assert_eq!(d.screen.layers[0].items.len(), 1);
    d.on_key_event(special(KeyCode::Enter), &None);
    assert!(!d.typing);
    assert_eq!(d.tool, Tool::Brush);
}

#[test]
fn quit_key_ends_the_loop() {
    let mut d = DrawTerm::new(80, 24);
    assert!(d.on_key_event(key('q'), &None));
    assert!(!d.on_key_event(KeyEvent { code: KeyCode::Char('e'), kind: KeyEventKind::Release }, &None));
    assert_eq!(d.tool, Tool::Brush);
}

#[test]
fn tool_keys_select_tools() {
    let mut d = DrawTerm::new(80, 24);
    for (c, t) in [('e', Tool::Erase), ('i', Tool::Ink), ('m', Tool::Move), ('a', Tool::Text), ('b', Tool::Brush)] {
        d.on_key_event(key(c), &None);
        assert_eq!(d.tool, t);
    }
}

#[test]
fn palette_from_the_eraser_switches_to_the_brush() {
    let mut d = DrawTerm::new(80, 24);
    d.on_key_event(key('e'), &None);
    d.on_key_event(key('c'), &None);
    assert_eq!(d.tool, Tool::Brush);
}

#[test]
fn connection_screen_blocks_pointer_input() {
    let mut d = DrawTerm::new(80, 24);
    d.on_key_event(key('x'), &None);
    assert_eq!(d.config, Config::Connection);
    let out = d.take_output();
    assert!(out.contains(&TermCommand::Message("No server available. Rerun with host port options".to_string())));
    d.on_mouse_event(press(10, 4), &mut None);
    assert!(d.screen.layers[0].items.is_empty());
    assert!(d.take_output().is_empty());
    d.on_key_event(key('x'), &None);
    assert_eq!(d.config, Config::Idle);
    let link = Some(Client::new(&"10.0.0.1:4000".to_string()));
    d.on_key_event(key('x'), &link);
    assert!(d.take_output().contains(&TermCommand::Message("10.0.0.1:4000".to_string())));
}

#[test]
fn cursor_glyph_follows_the_tool() {
    let mut d = DrawTerm::new(80, 24);
    let glyph = d.cursor_term_char();
    assert_eq!(glyph.character, 'B');
    assert_eq!(glyph.foreground_color, Color::White);
    d.color_selected = Color::AnsiValue(3);
    assert_eq!(d.cursor_term_char().foreground_color, Color::AnsiValue(3));
    d.tool = Tool::Move;
    assert_eq!(
        d.cursor_term_char(),
        TermChar { character: 'M', foreground_color: Color::White, background_color: Color::Reset, empty: false }
    );
}

fn readout_text(d: &DrawTerm, col: i32, row: i32) -> String {
    d.create_cursor_info_chars((col, row))[0].iter().map(|c| c.character).collect()
}

#[test]
fn readout_halves_the_column_and_pads() {
    let d = DrawTerm::new(80, 24);
    assert_eq!(readout_text(&d, 10, 3), "0005 0003");
    assert_eq!(readout_text(&d, -5, -2), "-002 -002");
    assert_eq!(readout_text(&d, -3, 0), "-001 0000");
    assert_eq!(readout_text(&d, 123456, 7), "61728 0007");
    assert_eq!(readout_text(&d, 1, 12345), "0000 12345");
}

#[test]
fn pointer_events_redraw_the_readout() {
    let mut d = DrawTerm::new(80, 24);
    d.on_mouse_event(MouseEvent { kind: MouseEventKind::Moved, column: 21, row: 3 }, &mut None);
    let text: String = d.cursor_info.chars[0].iter().map(|c| c.character).collect();
    assert_eq!(text, "0010 0003");
    assert_eq!(d.cursor.chars[0][0].character, 'B');
    assert_eq!(d.last_cursor_position, (20, 3));
}

#[test]
fn resize_moves_the_corner_items() {
    let mut d = DrawTerm::new(80, 24);
    assert!(!d.on_resize_event(100, 30));
    assert_eq!((d.screen.width, d.screen.height), (100, 30));
    assert_eq!(d.cursor.offset, (99, 0));
    assert_eq!(d.cursor_info.offset, (91, 29));
    assert!(d.resized);
    d.on_mouse_event(MouseEvent { kind: MouseEventKind::Moved, column: 0, row: 0 }, &mut None);
    assert!(!d.resized);
}

#[test]
fn inbound_placement_and_panned_erasure() {
    let mut d = DrawTerm::new(80, 24);
    assert!(d.apply_record(b"P x=80000004 y=80000002 character=00000020 fg-index=07 bg-index=07 transparent=0"));
    assert_eq!(d.screen.layers[0].items[0].name, "pixel");
    d.screen.layers[0].move_layer((2, 0));
    assert!(d.apply_record(b"E x=80000004 y=80000002"));
    assert!(d.screen.layers[0].items.is_empty());
    assert!(!d.apply_record(b"bogus"));
    let mut inbound: VecDeque<Vec<u8>> = VecDeque::new();
    inbound.push_back(b"bogus\nP x=80000000 y=80000000 character=00000020 fg-index=01 bg-index=01 transparent=0\n".to_vec());
    assert_eq!(d.on_netowrk_update_events(&mut inbound, &mut None), 1);
    assert_eq!(d.screen.layers[0].items.len(), 1);
}

#[test]
fn tick_recomposites_only_when_something_arrived() {
    let mut d = DrawTerm::new(4, 1);
    let mut inbound: VecDeque<Vec<u8>> = VecDeque::new();
    assert_eq!(d.tick(&mut inbound, &mut None), 0);
    assert!(d.take_output().is_empty());
    inbound.push_back(b"P x=80000002 y=80000000 character=00000020 fg-index=06 bg-index=06 transparent=0\n".to_vec());
    assert_eq!(d.tick(&mut inbound, &mut None), 0);
    let out = d.take_output();
    let frame = format!("  {}{}", pixelrs::screen::color_token(6), pixelrs::screen::color_token(6));
    assert_eq!(out.last(), Some(&TermCommand::Frame(frame)));
}

#[test]
fn picking_a_swatch_selects_the_brush() {
    let mut d = DrawTerm::new(80, 24);
    d.on_key_event(key('c'), &None);
    d.on_key_event(key('i'), &None);
    assert_eq!(d.tool, Tool::Ink);
    d.on_mouse_event(press(14, 23), &mut None);
    assert_eq!(d.tool, Tool::Brush);
    assert_eq!(d.color_selected, Color::AnsiValue(7));
    assert_eq!(d.config, Config::Idle);
    assert!(d.screen.layers[1].items.is_empty());
    assert_eq!(d.cursor.chars[0][0].character, 'B');
    assert_eq!(d.last_cursor_position, (14, 23));
}

#[test]
fn a_second_placement_overwrites_the_first() {
    let mut d = DrawTerm::new(80, 24);
    assert!(d.apply_record(b"P x=80000004 y=80000002 character=00000020 fg-index=07 bg-index=07 transparent=0"));
    assert!(d.apply_record(b"P x=80000008 y=80000002 character=00000020 fg-index=01 bg-index=01 transparent=0"));
    assert!(d.apply_record(b"P x=80000004 y=80000002 character=00000020 fg-index=09 bg-index=09 transparent=0"));
    let items = &d.screen.layers[0].items;
    assert_eq!(items.len(), 2);
    assert_eq!(items[0].offset, (8, 2));
    assert_eq!(items[1].offset, (4, 2));
    assert_eq!(items[1].chars[0][0].background_color, Color::AnsiValue(9));
}

#[test]
fn a_new_editor_starts_blank() {
    let d = DrawTerm::new(80, 24);
    assert_eq!(d.tool, Tool::Brush);
    assert_eq!(d.config, Config::Idle);
    assert_eq!(d.color_selected, Color::AnsiValue(0));
    assert!(!d.typing && !d.resized);
    assert_eq!(d.last_cursor_position, (0, 0));
    assert_eq!(d.screen.layers.len(), 2);
    assert_eq!(d.screen.layers[0].offset, (0, 0));
    assert_eq!(d.screen.layers[1].offset, (0, 0));
    assert_eq!(d.cursor.offset, (79, 0));
    assert_eq!(d.cursor_info.offset, (71, 23));
}
