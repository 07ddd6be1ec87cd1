use pixelrs::cell::{Color, Paint, Pixel, TermChar, empty_term_char};
use pixelrs::screen::{Item, Layer, Screen, color_token};

fn opaque(c: u8) -> TermChar {
    TermChar { character: ' ', foreground_color: Color::AnsiValue(c), background_color: Color::AnsiValue(c), empty: false }
}

fn named(name: &str, offset: (i32, i32), chars: Vec<Vec<TermChar>>) -> Item {
    Item { name: name.to_string(), offset, chars }
}

#[test]
fn filled_indexes_are_exactly_the_opaque_cells() {
    let grid = vec![
        vec![opaque(1), empty_term_char(), opaque(2)],
        vec![empty_term_char(), opaque(3), empty_term_char()],
    ];
    let item = named("shape", (-1, 2), grid);
    let mut got = item.get_filled_indexes((5, 1));
    got.sort();
    // (C.x + ox + c, C.y + oy + r) for each opaque cell (r, c).
    assert_eq!(got, vec![(4, 3), (5, 4), (6, 3)]);
}

#[test]
fn filled_indexes_of_a_transparent_item_are_empty() {
    let item = named("blank", (3, 3), vec![vec![empty_term_char(), empty_term_char()]]);
    assert!(item.get_filled_indexes((0, 0)).is_empty());
}

#[test]
fn pan_then_opposite_pan_restores_positions() {
    let mut layer = Layer::new_empty("background".to_string(), 20, 10, (1, 1));
    layer.add_item(named("a", (2, 3), Pixel::new(Color::AnsiValue(4)).to_chars()));
    layer.add_item(named("b", (-5, 7), Pixel::new(Color::AnsiValue(9)).to_chars()));
    let before_paints = layer.redraw(20, 10);
    let before: Vec<(i32, i32)> = layer.items.iter().map(|i| i.screen_position(vec![layer.offset])).collect();
    layer.move_layer((7, -4));
    assert_eq!(layer.offset, (8, -3));
    let moved: Vec<(i32, i32)> = layer.items.iter().map(|i| i.screen_position(vec![layer.offset])).collect();
    assert_eq!(moved, vec![(10, 0), (3, 4)]);
    layer.move_layer((-7, 4));
    let after: Vec<(i32, i32)> = layer.items.iter().map(|i| i.screen_position(vec![layer.offset])).collect();
    assert_eq!(before, after);
    assert_eq!(before_paints, layer.redraw(20, 10));
}

#[test]
fn screen_position_sums_all_container_offsets() {
    let item = named("x", (2, -3), vec![vec![opaque(1)]]);
    assert_eq!(item.screen_position(vec![(1, 1), (10, -20)]), (13, -22));
    assert_eq!(item.screen_position(vec![]), (2, -3));
}

#[test]
fn draw_skips_off_screen_cells() {
    let item = named("x", (0, 0), vec![vec![opaque(1), opaque(2)], vec![opaque(3), opaque(4)]]);
    let paints = item.draw((-1, 4), 10, 5);
    assert_eq!(paints, vec![Paint { col: 0, row: 4, cell: opaque(2) }]);
}

#[test]
fn erase_paints_placeholders_clipped_to_screen() {
    let item = named("x", (8, 1), vec![vec![opaque(1), opaque(2), opaque(3)]]);
    let paints = item.erase((1, 0), 10, 5);
    assert_eq!(paints, vec![Paint { col: 9, row: 1, cell: empty_term_char() }]);
}

#[test]
fn color_token_writes_the_palette_escape() {
    assert_eq!(color_token(3), "\x1b[48;5;3m \x1b[49m");
    assert_eq!(color_token(42), "\x1b[48;5;42m \x1b[49m");
    assert_eq!(color_token(255), "\x1b[48;5;255m \x1b[49m");
    assert_eq!(color_token(0), "\x1b[48;5;0m \x1b[49m");
}

#[test]
fn item_draw_buffer_stamps_only_palette_backgrounds() {
    let reset = TermChar { character: 'x', foreground_color: Color::Reset, background_color: Color::Reset, empty: false };
    let item = named("x", (1, 0), vec![vec![opaque(7), reset, opaque(8)]]);
    let mut buffer = vec![vec![" ".to_string(); 3]; 2];
    item.draw_buffer(&mut buffer, (0, 1), 3, 2);
    assert_eq!(buffer[0], vec![" ", " ", " "]);
    assert_eq!(buffer[1], vec![" ".to_string(), color_token(7), " ".to_string()]);
}

#[test]
fn layer_draw_buffer_composites_one_frame() {
    let mut layer = Layer::new_empty("background".to_string(), 3, 2, (1, 0));
    layer.add_item(named("a", (0, 0), vec![vec![opaque(1)]]));
    layer.add_item(named("b", (0, 1), vec![vec![opaque(2), opaque(5)]]));
    layer.add_item(named("c", (0, 0), vec![vec![opaque(9)]]));
    let frame = layer.draw_buffer(3, 2);
    let expected = format!(" {}  {}{}", color_token(9), color_token(2), color_token(5));
    assert_eq!(frame, expected);
}

#[test]
fn buffer_to_string_joins_rows() {
    let mut layer = Layer::new_empty("l".to_string(), 2, 2, (0, 0));
    let s = layer.buffer_to_string(vec![vec!["a".to_string(), "b".to_string()], vec!["cd".to_string()]]);
    assert_eq!(s, "abcd");
}

#[test]
fn first_item_wins_by_insertion_order() {
    let mut layer = Layer::new_empty("l".to_string(), 10, 10, (0, 0));
    layer.add_item(named("first", (0, 0), vec![vec![opaque(1), opaque(1)]]));
    layer.add_item(named("second", (1, 0), vec![vec![opaque(2)]]));
    assert_eq!(layer.get_item_at_absolute((1, 0)).unwrap().name, "first");
    assert!(layer.get_item_at_absolute((2, 0)).is_none());
    assert_eq!(layer.item_index_at((0, 0)), Some(0));
}

#[test]
fn transparent_cells_are_not_hit() {
    let mut layer = Layer::new_empty("l".to_string(), 10, 10, (2, 0));
    layer.add_item(named("t", (0, 0), vec![vec![opaque(1), empty_term_char()]]));
    assert!(layer.get_item_at_absolute((2, 0)).is_some());
    assert!(layer.get_item_at_absolute((3, 0)).is_none());
}

#[test]
fn remove_item_removes_every_item_with_that_name() {
    let mut layer = Layer::new_empty("l".to_string(), 10, 10, (0, 0));
    layer.add_item(named("dup", (0, 0), vec![vec![opaque(1)]]));
    layer.add_item(named("keep", (1, 0), vec![vec![opaque(1)]]));
    layer.add_item(named("dup", (2, 0), vec![vec![opaque(1)]]));
    let target = named("dup", (9, 9), vec![]);
    layer.remove_item(Some(&target));
    assert_eq!(layer.items.len(), 1);
    assert_eq!(layer.items[0].name, "keep");
    layer.remove_item(None);
    assert_eq!(layer.items.len(), 1);
}

#[test]
fn relative_position_subtracts_the_pan() {
    let layer = Layer::new_empty("l".to_string(), 10, 10, (3, -2));
    assert_eq!(layer.relative_position(10, 4), (7, 6));
}

#[test]
fn layer_filled_indexes_cover_all_items() {
    let mut layer = Layer::new_empty("l".to_string(), 10, 10, (1, 1));
    layer.add_item(named("a", (0, 0), vec![vec![opaque(1)]]));
    layer.add_item(named("b", (2, 0), vec![vec![opaque(1), empty_term_char()]]));
    let mut got = layer.get_filled_indexes();
    got.sort();
    assert_eq!(got, vec![(1, 1), (3, 1)]);
}

#[test]
fn screen_hit_testing_scans_background_first() {
    let mut background = Layer::new_empty("background".to_string(), 10, 10, (0, 0));
    let mut foreground = Layer::new_empty("foreground".to_string(), 10, 10, (0, 0));
    background.add_item(named("under", (0, 0), vec![vec![opaque(1)]]));
    foreground.add_item(named("over", (0, 0), vec![vec![opaque(2), opaque(2)]]));
    let screen = Screen::new(vec![background, foreground], 10, 10);
    assert_eq!(screen.first_item_at_col_row((0, 0)).unwrap().name, "under");
    assert_eq!(screen.first_item_at_col_row((1, 0)).unwrap().name, "over");
    assert_eq!(screen.first_filled_layer_at_index(&(1, 0)), Some(1));
    assert!(screen.index_is_empty(&(5, 5)));
    assert!(!screen.index_is_empty(&(0, 0)));
    assert_eq!(screen.redraw().len(), 3);
}

#[test]
fn cell_under_reads_any_cell() {
    let item = named("x", (1, 1), vec![vec![opaque(1), empty_term_char()]]);
    assert_eq!(item.cell_under((0, 0), (2, 1)), Some(empty_term_char()));
    assert_eq!(item.cell_under((0, 0), (3, 1)), None);
    assert!(item.covers((0, 0), (1, 1)));
    assert!(!item.covers((0, 0), (2, 1)));
}

#[test]
fn cell_draw_is_bounds_checked() {
    let c = opaque(5);
    assert_eq!(c.draw((3, 2), 4, 3), Some(Paint { col: 3, row: 2, cell: c }));
    assert_eq!(c.draw((4, 2), 4, 3), None);
    assert_eq!(c.draw((-1, 0), 4, 3), None);
    assert_eq!(c.draw((0, 3), 4, 3), None);
}

#[test]
fn pixel_is_two_opaque_cells() {
    let chars = Pixel::new(Color::AnsiValue(12)).to_chars();
    assert_eq!(chars, vec![vec![opaque(12), opaque(12)]]);
}

#[test]
fn item_clone_keeps_everything() {
    let item = named("x", (4, 5), vec![vec![opaque(1)]]);
    let copy = item.clone();
    assert_eq!(copy.name, "x");
    assert_eq!(copy.offset, (4, 5));
    assert_eq!(copy.chars, item.chars);
}

#[test]
fn filled_indexes_come_in_row_major_order() {
    let t = opaque(4);
    let item = named("P", (3, -1), vec![vec![t, empty_term_char()], vec![empty_term_char(), t]]);
    assert_eq!(item.get_filled_indexes((2, 5)), vec![(5, 4), (6, 5)]);
    let wide = named("w", (0, 0), vec![vec![opaque(1), opaque(1)], vec![opaque(1)]]);
    assert_eq!(wide.get_filled_indexes((0, 0)), vec![(0, 0), (1, 0), (0, 1)]);
}

#[test]
fn layer_filled_indexes_follow_insertion_order() {
    let mut layer = Layer::new_empty("l".to_string(), 10, 10, (0, 0));
    layer.add_item(named("late", (5, 5), vec![vec![opaque(1)]]));
    layer.add_item(named("early", (0, 0), vec![vec![opaque(1), opaque(1)]]));
    assert_eq!(layer.get_filled_indexes(), vec![(5, 5), (0, 0), (1, 0)]);
}
