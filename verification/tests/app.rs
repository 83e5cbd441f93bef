use hawk::app::{Action, App, Cwd, Event, Taken};
use hawk::keys::{KeyCode, KeyEvent, KeyModifiers};
use hawk::listing::ScanItem;

fn new_app() -> App {
    App::new(Cwd::Text("/home/me".to_string()), 50_000_000_000)
}

fn key(code: KeyCode, control: bool) -> KeyEvent {
    KeyEvent { code, modifiers: KeyModifiers { control, alt: false } }
}

fn control(c: char) -> KeyEvent {
    key(KeyCode::Char(c), true)
}

fn found(name: &str, is_dir: bool) -> ScanItem {
    ScanItem::Found { name: name.to_string(), is_dir: Some(is_dir) }
}

fn sent(action: Action) -> Option<Vec<u8>> {
    match action {
        Action::Send(bytes) => Some(bytes),
        _ => None,
    }
}

fn full_screen(app: &mut App) {
    app.take_output(b"\x1b[?1049h");
    assert!(app.shell.in_alt_screen);
}

#[test]
fn a_new_program_has_nothing_listed() {
    let app = new_app();
    assert_eq!(app.cwd.as_text(), "/home/me");
    assert_eq!((app.shell.rows, app.shell.cols), (24, 120));
    assert!(app.items.is_empty());
    assert!(!app.show_hidden);
    assert!(app.hud_dirty);
    assert!(!app.should_quit);
    assert_eq!(app.last_hud_build, 40_000_000_000);
    assert_eq!(App::new(Cwd::Text("/".to_string()), 3).last_hud_build, 0);
}

#[test]
fn a_scan_becomes_the_listing() {
    let mut app = new_app();
    let scan = vec![found("b", false), found(".x", false), ScanItem::Unreadable, found("A", false), found("z", true)];
    app.refresh_hud(&scan, 77);
    let names: Vec<&str> = app.items.iter().map(|e| e.name.as_str()).collect();
    assert_eq!(names, ["z", "A", "b"]);
    assert!(!app.hud_dirty);
    assert_eq!(app.last_hud_build, 77);
    app.toggle_hidden();
    app.refresh_hud(&scan, 78);
    let names: Vec<&str> = app.items.iter().map(|e| e.name.as_str()).collect();
    assert_eq!(names, ["z", ".x", "A", "b"]);
}

#[test]
fn going_elsewhere_is_a_change() {
    let mut app = new_app();
    app.refresh_hud(&[], 1);
    assert!(!app.set_cwd("/home/me".to_string()));
    assert!(!app.set_cwd("/home//me/".to_string()));
    assert_eq!(app.cwd.as_text(), "/home/me");
    assert!(!app.hud_dirty);
    assert!(app.set_cwd("/tmp/".to_string()));
    assert_eq!(app.cwd.as_text(), "/tmp/");
    assert!(app.hud_dirty);
    assert!(!app.set_cwd("/tmp".to_string()));
}

#[test]
fn a_path_that_is_not_text_is_left_by_any_report() {
    let mut app = App::new(Cwd::Native("/odd/\u{fffd}".to_string()), 0);
    assert_eq!(app.cwd.as_text(), "/odd/\u{fffd}");
    assert!(app.set_cwd("/odd/\u{fffd}".to_string()));
    assert!(matches!(app.cwd, Cwd::Text(_)));
    assert!(!app.set_cwd("/odd/\u{fffd}".to_string()));
}

#[test]
fn output_changes_the_directory_and_the_screen() {
    let mut app = new_app();
    app.refresh_hud(&[], 1);
    assert_eq!(app.take_output(b"plain"), Taken { changed: false, given: 5 });
    assert!(!app.hud_dirty);
    assert!(!app.take_output(b"\x1b]7;file://h/home/me\x07").changed);
    assert!(app.take_output(b"\x1b]7;file://h/a%20b\x07\x1b[?1049h").changed);
    assert_eq!(app.cwd.as_text(), "/a b");
    assert!(app.hud_dirty);
    assert!(app.shell.in_alt_screen);
    assert_eq!(app.shell.parser.screen().contents(), "");
    assert_eq!(app.take_output(b"\x1b[?1049l"), Taken { changed: false, given: 8 });
    assert!(!app.shell.in_alt_screen);
    assert_eq!(app.shell.parser.screen().contents(), "plain");
}

#[test]
fn the_last_of_several_chunks_decides() {
    let mut app = new_app();
    let chunks: [&[u8]; 4] = [
        b"one \x1b]7;file://h/one\x07",
        b"two \x1b]7;file://h/two\x07",
        b"three \x1b]7;http://h/three\x07",
        b"four",
    ];
    for chunk in chunks {
        assert_eq!(app.take_output(chunk).given, chunk.len());
    }
    assert_eq!(app.cwd.as_text(), "/two");
    assert_eq!(app.shell.parser.screen().contents(), "one two three four");
}

#[test]
fn output_is_taken_after_a_shrink() {
    let mut app = new_app();
    assert_eq!(app.take_output(b"before ").given, 7);
    app.shell.set_size(10, 120);
    assert_eq!(app.take_output(b"after").given, 5);
    assert_eq!(app.shell.parser.screen().contents(), "before after");
}

#[test]
fn a_listing_out_of_date_is_refreshed_after_a_while() {
    let mut app = new_app();
    assert!(app.refresh_due(50_000_000_000));
    app.refresh_hud(&[], 1_000);
    assert!(!app.refresh_due(10_000_000_000));
    app.set_cwd("/tmp".to_string());
    assert!(!app.refresh_due(1_000));
    assert!(!app.refresh_due(100_001_000));
    assert!(app.refresh_due(100_001_001));
    assert!(!app.refresh_due(0));
}

#[test]
fn interrupts_always_reach_the_shell() {
    let mut app = new_app();
    assert_eq!(sent(app.handle_key(&control('c'))), Some(vec![3]));
    full_screen(&mut app);
    assert_eq!(sent(app.handle_key(&control('c'))), Some(vec![3]));
    assert!(!app.should_quit);
    let both = KeyEvent { code: KeyCode::Char('c'), modifiers: KeyModifiers { control: true, alt: true } };
    assert_eq!(sent(app.handle_key(&both)), Some(vec![3]));
}

#[test]
fn control_e_quits_anywhere() {
    let mut app = new_app();
    assert!(matches!(app.handle_key(&control('e')), Action::Idle));
    assert!(app.should_quit);
    app.handle_key(&key(KeyCode::Char('x'), false));
    assert!(app.should_quit);
    let mut full = new_app();
    full_screen(&mut full);
    full.handle_key(&control('e'));
    assert!(full.should_quit);
}

#[test]
fn control_h_toggles_hidden_names() {
    let mut app = new_app();
    app.refresh_hud(&[], 1);
    assert!(matches!(app.handle_key(&control('h')), Action::Refresh));
    assert!(app.show_hidden && app.hud_dirty);
    assert!(matches!(app.handle_key(&control('h')), Action::Refresh));
    assert!(!app.show_hidden);
}

#[test]
fn f5_refreshes() {
    let mut app = new_app();
    assert!(matches!(app.handle_key(&key(KeyCode::F(5), false)), Action::Refresh));
    assert!(matches!(app.handle_key(&key(KeyCode::F(5), true)), Action::Refresh));
    assert!(matches!(app.handle_key(&key(KeyCode::F(6), false)), Action::Idle));
    assert!(!app.show_hidden);
}

#[test]
fn full_screen_programs_get_the_other_keys() {
    let mut app = new_app();
    full_screen(&mut app);
    assert_eq!(sent(app.handle_key(&control('h'))), Some(vec![8]));
    assert!(!app.show_hidden);
    assert!(matches!(app.handle_key(&key(KeyCode::F(5), false)), Action::Idle));
    assert_eq!(sent(app.handle_key(&key(KeyCode::Up, false))), Some(b"\x1b[A".to_vec()));
}

#[test]
fn other_keys_go_to_the_shell() {
    let mut app = new_app();
    assert_eq!(sent(app.handle_key(&key(KeyCode::Char('c'), false))), Some(b"c".to_vec()));
    assert_eq!(sent(app.handle_key(&control('C'))), Some(vec![3]));
    assert_eq!(sent(app.handle_key(&control('E'))), Some(vec![5]));
    assert!(!app.should_quit);
    assert_eq!(sent(app.handle_key(&control('d'))), Some(vec![4]));
    assert!(matches!(app.handle_key(&control('1')), Action::Idle));
}

#[test]
fn events_are_keys_pastes_or_nothing() {
    let mut app = new_app();
    assert_eq!(sent(app.handle_event(Event::Key(control('c')))), Some(vec![3]));
    assert_eq!(sent(app.handle_event(Event::Paste("é\nls".to_string()))), Some(b"\xc3\xa9\nls".to_vec()));
    assert_eq!(sent(app.handle_event(Event::Paste(String::new()))), Some(Vec::new()));
    assert!(matches!(app.handle_event(Event::Other), Action::Idle));
    assert!(matches!(app.handle_event(Event::Key(control('h'))), Action::Refresh));
    assert!(app.show_hidden);
}
