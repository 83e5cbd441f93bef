use hawk::shell::Shell;

#[test]
fn a_terminal_has_at_least_the_least_size() {
    let shell = Shell::new(24, 120);
    assert_eq!((shell.rows, shell.cols), (24, 120));
    assert_eq!(shell.parser.screen().size(), (24, 120));
    let small = Shell::new(0, 0);
    assert_eq!((small.rows, small.cols), (5, 10));
    assert_eq!(small.parser.screen().size(), (5, 10));
    assert!(!small.in_alt_screen);
    assert!(small.esc_tail.is_empty());
}

#[test]
fn a_change_of_size_is_told_once() {
    let mut shell = Shell::new(24, 80);
    assert_eq!(shell.set_size(24, 80), None);
    assert_eq!(shell.set_size(30, 100), Some((30, 100)));
    assert_eq!(shell.parser.screen().size(), (30, 100));
    assert_eq!(shell.set_size(30, 100), None);
    assert_eq!(shell.set_size(1, 2), Some((5, 10)));
    assert_eq!((shell.rows, shell.cols), (5, 10));
    assert_eq!(shell.parser.screen().size(), (5, 10));
    assert_eq!(shell.set_size(4, 9), None);
}

fn text(shell: &Shell) -> String {
    shell.parser.screen().contents()
}

#[test]
fn output_reaches_the_screen() {
    let mut shell = Shell::new(24, 80);
    assert_eq!(shell.feed(b"hello\r\nwor"), 10);
    assert_eq!(shell.feed(b"ld \xc3"), 4);
    assert_eq!(shell.feed(b"\xa9"), 1);
    assert_eq!(shell.feed(b""), 0);
    assert_eq!(text(&shell), "hello\nworld é");
    assert_eq!(shell.parser.screen().cursor_position(), (1, 7));
}

#[test]
fn the_screen_does_not_depend_on_the_chunks() {
    let output = "a\x1b[3;4Hb\x1b[31mc\u{65e5}\u{672c}\t\x1b]0;title\x07x\r\n\x1b[2Ky\x1b[?47hz".as_bytes();
    let mut whole = Shell::new(24, 80);
    assert_eq!(whole.feed(output), output.len());
    let mut direct = vt100::Parser::new(24, 80, 20_000);
    direct.process(output);
    assert_eq!(text(&whole), direct.screen().contents());
    for size in 1..output.len() {
        let mut shell = Shell::new(24, 80);
        for chunk in output.chunks(size) {
            assert_eq!(shell.feed(chunk), chunk.len());
        }
        assert_eq!(text(&shell), text(&whole));
        assert_eq!(
            shell.parser.screen().cursor_position(),
            whole.parser.screen().cursor_position()
        );
    }
}

#[test]
fn output_is_taken_after_the_screen_became_lower() {
    let mut shell = Shell::new(24, 80);
    assert_eq!(shell.feed("one\r\n日本\r\n".as_bytes()), 13);
    shell.set_size(20, 80);
    assert_eq!(shell.feed(b"two\r\n"), 5);
    shell.set_size(60, 200);
    assert_eq!(shell.feed(b"three\r\n"), 7);
    shell.set_size(5, 200);
    assert_eq!(shell.feed(b"full"), 4);
    assert_eq!(text(&shell), "one\n日本\ntwo\nthree\nfull");
}

#[test]
fn a_full_screen_program_comes_and_goes() {
    let mut shell = Shell::new(9, 78);
    assert_eq!(shell.feed(b"$ vi\r\n\x1b7\x1b[?1049h"), 16);
    shell.set_size(22, 78);
    let drawing = "\x1b[20;70H\x1b7\u{2500}\u{65e5}\x1b8x\x1b[?1049l$ ";
    assert_eq!(shell.feed(drawing.as_bytes()), drawing.len());
    shell.set_size(9, 78);
    assert_eq!(shell.feed(b"ls 8\r\n\x1b8ll"), 10);
    assert_eq!(text(&shell), "$ vi\nllls 8");
}

#[test]
fn output_is_taken_on_a_narrower_screen() {
    let mut shell = Shell::new(24, 80);
    let line = "\u{2500}\u{2500} \u{276f} caf\u{e9}\x1b[70G\u{3b1}";
    assert_eq!(shell.feed(line.as_bytes()), line.len());
    shell.set_size(24, 79);
    assert_eq!(shell.feed(b"y"), 1);
    shell.set_size(24, 40);
    let more = "\r\nmore \u{65e5}\u{672c}";
    assert_eq!(shell.feed(more.as_bytes()), more.len());
    shell.set_size(24, 20);
    assert_eq!(shell.feed(b"!"), 1);
    assert_eq!(text(&shell), "── ❯ café\nmore 日本!");
}

#[test]
fn a_cursor_restored_outside_of_the_screen_ends_what_is_taken() {
    let mut shell = Shell::new(24, 80);
    assert_eq!(shell.feed(b"top\x1b[20;1H\x1b7\x1b[H"), 15);
    shell.set_size(10, 80);
    assert_eq!(shell.feed(b"ab\x1b8cd"), 4);
    assert_eq!(shell.parser.screen().cursor_position(), (19, 0));
    assert_eq!(shell.feed(b"x"), 0);
    assert_eq!(text(&shell), "abp");
}

#[test]
fn output_is_taken_again_once_the_cursor_is_back() {
    let mut shell = Shell::new(24, 80);
    assert_eq!(shell.feed(b"\x1b[20;1H\x1b7\x1b[H"), 12);
    shell.set_size(10, 80);
    assert_eq!(shell.feed(b"ab\x1b8\r\n"), 4);
    shell.parser.process(b"\r\n");
    assert_eq!(shell.feed(b"cd\x1b8"), 4);
    shell.set_size(12, 80);
    assert_eq!(shell.parser.screen().cursor_position(), (11, 0));
    assert_eq!(shell.feed(b"x"), 1);
}

#[test]
fn a_cut_character_ends_what_is_taken() {
    let mut shell = Shell::new(24, 80);
    assert_eq!(shell.feed("\x1b[79G\u{65e5}\x1b[H".as_bytes()), 11);
    shell.set_size(24, 90);
    assert_eq!(shell.feed(b"x"), 1);
    shell.set_size(24, 80);
    assert_eq!(shell.feed(b"y"), 1);
    shell.set_size(24, 79);
    assert_eq!(shell.feed(b"z"), 0);
    // The half that is left stays a half when there is room again.
    shell.set_size(24, 80);
    assert_eq!(shell.feed(b"z"), 0);
    // It is gone once the lines are too short for it.
    shell.set_size(24, 78);
    assert_eq!(shell.feed(b"z"), 1);
    assert_eq!(text(&shell), "xyz");
}

#[test]
fn output_is_taken_again_once_the_half_is_gone() {
    for clearing in [b"\x1b[2J".as_slice(), b"\x1bc", b"\x1b[?1049h"] {
        let mut shell = Shell::new(24, 80);
        assert_eq!(shell.feed("\x1b[79G\u{65e5}".as_bytes()), 8);
        shell.set_size(24, 79);
        assert_eq!(shell.feed(b"z"), 0);
        shell.parser.process(clearing);
        assert_eq!(shell.feed(b"\x1b[Hz"), 4);
        assert_eq!(text(&shell), "z");
    }
}

#[test]
fn a_half_on_the_screen_not_in_use_does_not_matter() {
    let mut shell = Shell::new(24, 80);
    assert_eq!(shell.feed("\x1b[?47h\x1b[79G\u{65e5}\x1b[?47lmain".as_bytes()), 24);
    shell.set_size(24, 79);
    assert_eq!(shell.feed(b" goes on"), 8);
    assert_eq!(text(&shell), "main goes on");
    // The half comes into use behind the sixth byte.
    assert_eq!(shell.feed(b"\x1b[?47hx"), 6);
    assert_eq!(shell.feed(b"x"), 0);
}

#[test]
fn an_overwide_emulator_takes_no_output() {
    let mut wide = Shell::new(5, 65527);
    assert_eq!(wide.feed(b"\x1b[65535C\t\t"), 10);
    let mut wider = Shell::new(5, 65528);
    assert_eq!(wider.feed(b"x"), 0);
}

#[test]
fn any_output_is_taken_safely() {
    let pieces: [&[u8]; 40] = [
        b"\x1b[H", b"\x1b[5;10H", b"\x1b[99;99H", b"\x1b7", b"\x1b8", b"\x1bM", b"\x1bc", b"\n",
        b"\r", b"\t", b"\x08", b"x", b"\xe6\x97\xa5", b"e\xcc\x81", b"\xcc\x81",
        b"\xe1\x9f\x98", b"\x1b[3@", b"\x1b[2P", b"\x1b[4L", b"\x1b[3M", b"\x1b[2S", b"\x1b[2T",
        b"\x1b[J", b"\x1b[1J", b"\x1b[2J", b"\x1b[K", b"\x1b[1K", b"\x1b[2X", b"\x1b[2;4r",
        b"\x1b[r", b"\x1b[?6h", b"\x1b[?6l", b"\x1b[?1049h", b"\x1b[?1049l", b"\x1b[?47h",
        b"\x1b[?47l", b"\x1b[65535A", b"\x1b[300@", b"\xff\xfe", b"0123456789abcdef",
    ];
    let mut seed: u32 = 7;
    let mut next = |n: u32| {
        seed = seed.wrapping_mul(1664525).wrapping_add(1013904223);
        (seed >> 12) % n
    };
    for round in 0..40u32 {
        let mut shell = Shell::new(5, 10);
        for _ in 0..1000 {
            let piece = pieces[next(40) as usize];
            let given = shell.feed(piece);
            // A screen that only ever grows takes everything.
            assert!(round % 2 == 1 || given == piece.len());
            if next(40) == 0 {
                let (rows, cols) =
                    if round % 2 == 0 { (shell.rows, shell.cols) } else { (5, 10) };
                shell.set_size(rows + next(8) as u16 / 4, cols + next(8) as u16 / 4);
                let (row, col) = shell.parser.screen().cursor_position();
                assert!(row < shell.rows && col <= shell.cols);
            }
        }
    }
}

#[test]
fn small_chunks_are_taken_with_much_scrolled_back() {
    let mut shell = Shell::new(50, 160);
    let lines = "line\r\n".repeat(21_000);
    assert_eq!(shell.feed(lines.as_bytes()), lines.len());
    for _ in 0..200 {
        assert_eq!(shell.feed(b"x"), 1);
    }
}

#[test]
fn switches_of_the_screen_are_seen() {
    let pairs: [(&[u8], &[u8]); 3] = [
        (b"\x1b[?1049h", b"\x1b[?1049l"),
        (b"\x1b[?47h", b"\x1b[?47l"),
        (b"\x1b[?1047h", b"\x1b[?1047l"),
    ];
    for (enter, leave) in pairs {
        let mut shell = Shell::new(24, 80);
        shell.observe_alt_screen(enter);
        assert!(shell.in_alt_screen);
        shell.observe_alt_screen(&[b'x'; 96]);
        assert!(shell.in_alt_screen);
        shell.observe_alt_screen(leave);
        assert!(!shell.in_alt_screen);
    }
}

#[test]
fn a_switch_may_be_cut_in_two() {
    let enter = b"\x1b[?1049h";
    let leave = b"\x1b[?1049l";
    for cut in 0..enter.len() {
        let mut shell = Shell::new(24, 80);
        shell.observe_alt_screen(&enter[..cut]);
        assert!(!shell.in_alt_screen);
        shell.observe_alt_screen(&enter[cut..]);
        assert!(shell.in_alt_screen);
        shell.observe_alt_screen(&leave[..cut]);
        assert!(shell.in_alt_screen);
        shell.observe_alt_screen(&leave[cut..]);
        assert!(!shell.in_alt_screen);
    }
}

#[test]
fn other_modes_switch_nothing() {
    let mut shell = Shell::new(24, 80);
    shell.observe_alt_screen(b"\x1b[?25h\x1b[?1048h\x1b[47h");
    assert!(!shell.in_alt_screen);
}

#[test]
fn a_switch_back_among_the_kept_bytes_wins() {
    let mut shell = Shell::new(24, 80);
    shell.observe_alt_screen(b"\x1b[?1049l\x1b[?1049h");
    assert!(!shell.in_alt_screen);
    // Once the switch back is no longer kept, the switch that followed it takes effect.
    shell.observe_alt_screen(&[b'.'; 81]);
    assert!(shell.in_alt_screen);
    let mut late = Shell::new(24, 80);
    late.observe_alt_screen(b"\x1b[?1049l\x1b[?1049h");
    late.observe_alt_screen(&[b'.'; 80]);
    assert!(!late.in_alt_screen);
}

#[test]
fn only_the_last_bytes_are_kept() {
    let mut shell = Shell::new(24, 80);
    let all: Vec<u8> = (0..=255).collect();
    for chunk in all.chunks(50) {
        shell.observe_alt_screen(chunk);
        assert!(shell.esc_tail.len() <= 96);
    }
    assert_eq!(shell.esc_tail, all[160..].to_vec());
    let mut once = Shell::new(24, 80);
    once.observe_alt_screen(&all);
    assert_eq!(once.esc_tail, shell.esc_tail);
}

#[test]
fn a_switch_before_the_kept_bytes_is_missed() {
    let mut shell = Shell::new(24, 80);
    let mut chunk = b"\x1b[?1049h".to_vec();
    chunk.extend_from_slice(&[b'x'; 96]);
    shell.observe_alt_screen(&chunk);
    assert!(!shell.in_alt_screen);
}
