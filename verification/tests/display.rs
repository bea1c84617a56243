use encrusted_heart::traits::{BaseUI, TextStyle, Window, UI};

#[test]
fn styles_read_their_bits() {
    let s = TextStyle::new(0b1011);
    assert!(s.reverse_video());
    assert!(s.bold());
    assert!(!s.italic());
    assert!(s.fixed_pitch());
    assert!(TextStyle::new(0).roman());
}

#[test]
fn lower_window_merges_runs_of_one_style() {
    let mut ui = BaseUI::new();
    ui.print("Hello, ", TextStyle::new(0));
    ui.print("world", TextStyle::new(0));
    ui.print("!", TextStyle::new(2));
    let runs = ui.drain_output();
    assert_eq!(runs.len(), 2);
    assert_eq!(runs[0].content, "Hello, world");
    assert_eq!(runs[1].content, "!");
    assert!(runs[1].style.bold());
}

#[test]
fn upper_window_grid_and_cursor() {
    let mut ui = BaseUI::new();
    ui.split_window(2);
    ui.set_window(Window::Upper);
    ui.print("AB\nC", TextStyle::new(0));
    ui.set_window(Window::Lower);
    ui.resolve_upper_height();
    let grid = ui.upper_window();
    assert_eq!(grid.len(), 2);
    assert_eq!(grid[0][0].1, 'A');
    assert_eq!(grid[0][1].1, 'B');
    assert_eq!(grid[1][0].1, 'C');
}

#[test]
fn set_cursor_is_one_based_and_upper_only() {
    let mut ui = BaseUI::new();
    ui.split_window(3);
    ui.set_window(Window::Upper);
    ui.set_cursor(2, 4);
    ui.print("X", TextStyle::new(0));
    ui.resolve_upper_height();
    let grid = ui.upper_window();
    assert_eq!(grid[1][3].1, 'X');
    assert_eq!(grid[1][0].1, ' ');
}

#[test]
fn erase_lower_sets_cleared_flag() {
    let mut ui = BaseUI::new();
    ui.print("text", TextStyle::new(0));
    let _ = ui.drain_output();
    assert!(!ui.is_cleared());
    ui.erase_window(Window::Lower);
    assert!(ui.is_cleared());
    let runs = ui.drain_output();
    assert!(runs.is_empty());
}

#[test]
fn quote_box_survives_until_resolve() {
    // The quote-box idiom: the game widens the upper window, prints the
    // box, then asks for the old height again. The taller grid must stay
    // visible until the host resolves it.
    let mut ui = BaseUI::new();
    ui.split_window(1);
    ui.set_window(Window::Upper);
    ui.print("status", TextStyle::new(0));
    ui.set_window(Window::Lower);

    ui.split_window(9);
    ui.set_window(Window::Upper);
    ui.print("a quote box\nsecond line", TextStyle::new(0));
    ui.set_window(Window::Lower);
    ui.split_window(1);

    // Before the resolver runs, the box is still there.
    assert_eq!(ui.upper_window().len(), 9);
    // The resolver collapses it to the last requested height.
    ui.resolve_upper_height();
    assert_eq!(ui.upper_window().len(), 1);
}

#[test]
fn status_line_is_recorded() {
    let mut ui = BaseUI::new();
    assert!(ui.status_line().is_none());
    ui.set_status_bar("West of House", "0/0");
    let (l, r) = ui.status_line().unwrap();
    assert_eq!(l, "West of House");
    assert_eq!(r, "0/0");
}
