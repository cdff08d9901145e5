use turing::tape::Tape;

#[test]
fn empty_input_gets_one_blank_cell() {
    let t = Tape::new(vec![], '.');
    assert_eq!(t.contents(), vec!['.']);
    assert_eq!(t.cursor, 0);
    assert_eq!(t.read(), '.');
}

#[test]
fn write_then_read_returns_the_symbol() {
    let mut t = Tape::new(vec!['a', 'b', 'c'], '.');
    t.write('x');
    assert_eq!(t.read(), 'x');
    assert_eq!(t.contents(), vec!['x', 'b', 'c']);
}

#[test]
fn moving_left_from_the_edge_prepends_one_blank_each_time() {
    let mut t = Tape::new(vec!['a', 'b', 'c'], '.');
    for k in 1..=4 {
        t.move_left();
        assert!(t.cursor < t.contents().len());
        assert_eq!(t.cursor, 0);
        assert_eq!(t.contents().len(), 3 + k);
        assert_eq!(t.read(), '.');
    }
    assert_eq!(t.contents(), vec!['.', '.', '.', '.', 'a', 'b', 'c']);
}

#[test]
fn moving_left_inside_the_band_only_moves_the_cursor() {
    let mut t = Tape::new(vec!['a', 'b'], '.');
    t.move_right();
    assert_eq!(t.cursor, 1);
    t.move_left();
    assert_eq!(t.cursor, 0);
    assert_eq!(t.contents(), vec!['a', 'b']);
}

#[test]
fn moving_right_from_the_last_cell_appends_one_blank() {
    let mut t = Tape::new(vec!['a', 'b'], '.');
    t.move_right();
    assert_eq!(t.contents(), vec!['a', 'b']);
    t.move_right();
    assert_eq!(t.contents(), vec!['a', 'b', '.']);
    assert_eq!(t.cursor, 2);
    assert_eq!(t.read(), '.');
}

#[test]
fn snapshot_is_a_window_around_the_cursor() {
    let mut t = Tape::new(vec!['a', 'b', 'c', 'd', 'e', 'f'], '.');
    assert_eq!(t.snapshot(2), vec!['a', 'b', 'c']);
    t.move_right();
    t.move_right();
    t.move_right();
    assert_eq!(t.snapshot(1), vec!['c', 'd', 'e']);
    assert_eq!(t.snapshot(100), vec!['a', 'b', 'c', 'd', 'e', 'f']);
}
