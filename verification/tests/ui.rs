use hawk::app::{App, Cwd};
use hawk::layout::{place_cursor, tree_rows, Rect};
use hawk::listing::ScanItem;
use hawk::ui::{hud_frame, shell_frame, ui, Color, Frame};

fn rect(x: u16, y: u16, width: u16, height: u16) -> Rect {
    Rect { x, y, width, height }
}

fn new_app() -> App {
    let mut app = App::new(Cwd::Text("/home/me".to_string()), 0);
    let scan = vec![
        ScanItem::Found { name: "notes.txt".to_string(), is_dir: Some(false) },
        ScanItem::Found { name: "src".to_string(), is_dir: Some(true) },
    ];
    app.refresh_hud(&scan, 0);
    app
}

fn bands(frame: &Frame) -> Vec<Rect> {
    let hud = frame.hud.as_ref().unwrap();
    vec![hud.header_area, hud.tree_area, frame.shell.area, hud.footer_area]
}

#[test]
fn the_listing_has_three_sevenths_of_the_screen() {
    assert_eq!(tree_rows(0), 0);
    assert_eq!(tree_rows(8), 0);
    assert_eq!(tree_rows(9), 1);
    assert_eq!(tree_rows(16), 8);
    assert_eq!(tree_rows(18), 8);
    assert_eq!(tree_rows(21), 9);
    assert_eq!(tree_rows(24), 10);
    assert_eq!(tree_rows(70), 30);
    assert_eq!(tree_rows(21845), 9362);
    assert_eq!(tree_rows(65535), 9362);
    for h in 0..=65535u16 {
        let want = (h.saturating_mul(3) / 7).max(8).min(h.saturating_sub(8));
        assert_eq!(tree_rows(h), want);
    }
}

#[test]
fn the_cursor_stays_in_its_pane() {
    let pane = rect(1, 13, 78, 9);
    assert_eq!(place_cursor(pane, (0, 0)), (1, 13));
    assert_eq!(place_cursor(pane, (3, 7)), (8, 16));
    assert_eq!(place_cursor(pane, (8, 77)), (78, 21));
    assert_eq!(place_cursor(pane, (9, 78)), (78, 21));
    assert_eq!(place_cursor(pane, (500, 500)), (78, 21));
    assert_eq!(place_cursor(rect(5, 6, 0, 0), (3, 3)), (5, 6));
    assert_eq!(place_cursor(rect(65535, 65535, 9, 9), (3, 3)), (65535, 65535));
}

#[test]
fn a_screen_of_24_lines() {
    let mut app = new_app();
    let frame = ui(&mut app, rect(0, 0, 80, 24));
    assert_eq!(
        bands(&frame),
        vec![rect(0, 0, 80, 2), rect(0, 2, 80, 10), rect(0, 12, 80, 11), rect(0, 23, 80, 1)]
    );
    assert_eq!(frame.shell.inner, rect(1, 13, 78, 9));
    assert_eq!(frame.resized, Some((9, 78)));
    assert_eq!((app.shell.rows, app.shell.cols), (9, 78));
    assert_eq!(frame.shell.title, "Shell");
    assert_eq!(frame.shell.text, "");
    assert_eq!(frame.cursor, (1, 13));
    let hud = frame.hud.unwrap();
    assert_eq!(hud.tree_title, "Tree");
    assert_eq!((hud.name.text.as_str(), hud.name.fg, hud.name.bg, hud.name.bold), ("HAWK", Color::Black, Some(Color::Cyan), true));
    assert_eq!((hud.label.text.as_str(), hud.label.fg, hud.label.bg, hud.label.bold), ("Current Directory: ", Color::Gray, None, true));
    assert_eq!((hud.path.text.as_str(), hud.path.fg, hud.path.bg, hud.path.bold), ("/home/me", Color::White, None, false));
    // The area inside the border is 78 wide, a column 26.
    assert_eq!(hud.tree, format!("▸ src{}  notes.txt\n", " ".repeat(19)));
    assert_eq!(hud.footer.text, "Ctrl+E quit | F5 refresh | Ctrl+H hidden: OFF");
    assert_eq!((hud.footer.fg, hud.footer.bg, hud.footer.bold), (Color::LightYellow, None, false));
}

#[test]
fn the_footer_tells_of_hidden_names() {
    let mut app = new_app();
    app.toggle_hidden();
    let hud = ui(&mut app, rect(0, 0, 80, 24)).hud.unwrap();
    assert_eq!(hud.footer.text, "Ctrl+E quit | F5 refresh | Ctrl+H hidden: ON");
}

#[test]
fn drawing_again_resizes_nothing() {
    let mut app = new_app();
    assert!(ui(&mut app, rect(0, 0, 100, 40)).resized.is_some());
    let (rows, cols) = (app.shell.rows, app.shell.cols);
    assert!(ui(&mut app, rect(0, 0, 100, 40)).resized.is_none());
    assert_eq!((app.shell.rows, app.shell.cols), (rows, cols));
}

#[test]
fn the_pane_shows_the_screen_of_the_shell() {
    let mut app = new_app();
    ui(&mut app, rect(0, 0, 80, 24));
    assert_eq!(app.shell.feed(b"$ ls\r\nnotes.txt src\r\n$ "), 23);
    let frame = ui(&mut app, rect(0, 0, 80, 24));
    assert_eq!(frame.shell.text, "$ ls\nnotes.txt src\n$ ");
    assert_eq!(frame.cursor, (3, 15));
}

#[test]
fn a_full_screen_program_has_the_whole_screen() {
    let mut app = new_app();
    app.shell.observe_alt_screen(b"\x1b[?1049h");
    assert_eq!(app.shell.feed(b"\x1b[?1049hfull\x1b[2;3H"), 18);
    let frame = ui(&mut app, rect(0, 0, 140, 50));
    assert!(frame.hud.is_none());
    assert_eq!(frame.shell.area, rect(0, 0, 140, 50));
    assert_eq!(frame.shell.inner, rect(1, 1, 138, 48));
    assert_eq!(frame.resized, Some((48, 138)));
    assert_eq!(frame.shell.text, "full");
    assert_eq!(frame.cursor, (3, 2));
}

#[test]
fn bands_tile_screens_of_eight_lines_or_more() {
    let mut app = new_app();
    for height in (8..400u16).chain([1000, 21845, 21846, 30000]) {
        for (x, y, width) in [(0, 0, 80), (3, 7, 11), (0, 100, 1)] {
            let got = bands(&ui(&mut app, rect(x, y, width, height)));
            let tree = tree_rows(height);
            let shell = height - 3 - tree;
            assert!(shell >= 5);
            let want = vec![
                rect(x, y, width, 2),
                rect(x, y + 2, width, tree),
                rect(x, y + 2 + tree, width, shell),
                rect(x, y + height - 1, width, 1),
            ];
            assert_eq!(got, want, "{}", height);
        }
    }
}

#[test]
fn bands_tile_the_greatest_screen() {
    let mut app = new_app();
    let got = bands(&ui(&mut app, rect(0, 0, 20, 65535)));
    let want = vec![
        rect(0, 0, 20, 2),
        rect(0, 2, 20, 9362),
        rect(0, 9364, 20, 56170),
        rect(0, 65534, 20, 1),
    ];
    assert_eq!(got, want);
}

#[test]
fn the_shell_and_the_footer_come_first_on_small_screens() {
    let mut app = new_app();
    let heights: [(u16, u16, u16); 8] =
        [(0, 0, 0), (0, 1, 0), (0, 2, 0), (0, 3, 0), (0, 4, 0), (0, 5, 0), (0, 5, 1), (1, 5, 1)];
    for (height, (header, shell, footer)) in heights.into_iter().enumerate() {
        for x in 0..60 {
            let y = x * 7;
            let got = bands(&ui(&mut app, rect(x, y, 30, height as u16)));
            let want = vec![
                rect(x, y, 30, header),
                rect(x, y + header, 30, 0),
                rect(x, y + header, 30, shell),
                rect(x, y + header + shell, 30, footer),
            ];
            assert_eq!(got, want);
        }
        assert_eq!((app.shell.rows, app.shell.cols), (5, 28));
    }
}

#[test]
fn bands_lie_in_screens_at_the_edge() {
    let mut app = new_app();
    for (x, y, width, height) in [
        (0, 65530, 10, 100),
        (0, 65535, 10, 65535),
        (65530, 40000, 100, 40000),
        (65535, 65535, 0, 1),
        (0, 65528, 9, 7),
        (0, 1, 9, 65535),
    ] {
        let mut end = y;
        for band in bands(&ui(&mut app, rect(x, y, width, height))) {
            assert_eq!((band.x, band.y, band.width), (x, end, width));
            end += band.height;
        }
        assert_eq!(end, y.saturating_add(height));
    }
}

#[test]
fn the_inside_of_a_border_has_one_cell_less_on_each_side() {
    let mut app = new_app();
    let areas = [
        (rect(0, 0, 0, 0), rect(0, 0, 0, 0)),
        (rect(4, 5, 1, 1), rect(5, 6, 0, 0)),
        (rect(4, 5, 2, 3), rect(5, 6, 0, 1)),
        (rect(4, 5, 0, 9), rect(4, 6, 0, 7)),
        (rect(65535, 65535, 0, 0), rect(65535, 65535, 0, 0)),
        (rect(65535, 0, 1, 10), rect(65535, 1, 0, 8)),
    ];
    for (area, inner) in areas {
        let frame = shell_frame(&mut app, area);
        assert_eq!(frame.shell.inner, inner);
        assert_eq!(frame.shell.area, area);
    }
}

#[test]
fn a_frame_is_drawn_in_the_bands_it_is_given() {
    let mut app = new_app();
    assert_eq!(app.shell.feed(b"hi"), 2);
    let given = [rect(0, 0, 9, 1), rect(1, 1, 40, 3), rect(2, 20, 130, 30), rect(3, 60, 9, 1)];
    let frame = hud_frame(&mut app, &given);
    assert_eq!(bands(&frame), given.to_vec());
    assert_eq!(frame.shell.inner, rect(3, 21, 128, 28));
    assert_eq!(frame.shell.text, "hi");
    assert_eq!(frame.cursor, (5, 21));
    assert_eq!(frame.resized, Some((28, 128)));
    assert_eq!(frame.hud.unwrap().tree, format!("▸ src{}  notes.txt\n", " ".repeat(5)));
}
