use hawk::osc7::{from_hex, last_osc7_path, percent_decode, report_path};

#[test]
fn hexadecimal_digits_have_values() {
    for b in 0..=255u8 {
        let want = (b as char).to_digit(16).map(|v| v as u8);
        assert_eq!(from_hex(b), want);
    }
    assert_eq!(from_hex(b'a'), Some(10));
    assert_eq!(from_hex(b'F'), Some(15));
    assert_eq!(from_hex(b'g'), None);
}

#[test]
fn escapes_are_decoded() {
    assert_eq!(percent_decode(b"/a%20b"), b"/a b");
    assert_eq!(percent_decode(b"%41%4a%4A"), b"AJJ");
    assert_eq!(percent_decode(b"%ff%00"), b"\xff\x00");
    assert_eq!(percent_decode(b"%%20"), b"% ");
}

#[test]
fn what_is_no_escape_stays() {
    assert_eq!(percent_decode(b""), b"");
    assert_eq!(percent_decode(b"100%"), b"100%");
    assert_eq!(percent_decode(b"%2"), b"%2");
    assert_eq!(percent_decode(b"%g0%0g"), b"%g0%0g");
    assert_eq!(percent_decode("é".as_bytes()), "é".as_bytes());
}

#[test]
fn every_byte_comes_back_from_its_escape() {
    for b in 0..=255u8 {
        let code = format!("%{:02X}", b);
        assert_eq!(percent_decode(code.as_bytes()), vec![b]);
    }
}

#[test]
fn a_report_names_a_path() {
    assert_eq!(report_path(b"file:///tmp"), Some("/tmp".to_string()));
    assert_eq!(report_path(b"file://host/home/me"), Some("/home/me".to_string()));
    assert_eq!(report_path(b"file://host/a%20b"), Some("/a b".to_string()));
    assert_eq!(report_path(b"file://host/%C3%A9"), Some("/é".to_string()));
    assert_eq!(report_path("file://host/é".as_bytes()), Some("/é".to_string()));
    assert_eq!(report_path(b"file://host//"), Some("//".to_string()));
}

#[test]
fn a_report_may_name_no_path() {
    assert_eq!(report_path(b""), None);
    assert_eq!(report_path(b"file:/"), None);
    assert_eq!(report_path(b"file://"), None);
    assert_eq!(report_path(b"file://host"), None);
    assert_eq!(report_path(b"http://host/tmp"), None);
    assert_eq!(report_path(b"FILE://host/tmp"), None);
    assert_eq!(report_path(b"file://host/\xff"), None);
    assert_eq!(report_path(b"file://\xff/tmp"), None);
    assert_eq!(report_path(b"file://host/%FF"), None);
}

#[test]
fn a_chunk_reports_the_working_directory() {
    let path = |s: &str| Some(s.to_string());
    assert_eq!(last_osc7_path(b"\x1b]7;file://host/tmp\x07"), path("/tmp"));
    assert_eq!(last_osc7_path(b"\x1b]7;file://host/tmp\x1b\\"), path("/tmp"));
    assert_eq!(last_osc7_path(b"$ ls\r\n\x1b]7;file://h/a%2Fb\x07$ "), path("/a/b"));
}

#[test]
fn the_last_report_that_names_a_path_counts() {
    let path = |s: &str| Some(s.to_string());
    let two = b"\x1b]7;file://h/one\x07 \x1b]7;file://h/two\x07";
    assert_eq!(last_osc7_path(two), path("/two"));
    let bad_last = b"\x1b]7;file://h/one\x07 \x1b]7;http://h/two\x07";
    assert_eq!(last_osc7_path(bad_last), path("/one"));
    let open_last = b"\x1b]7;file://h/one\x07 \x1b]7;file://h/two";
    assert_eq!(last_osc7_path(open_last), path("/one"));
    let adjoining = b"\x1b]7;file://h/one\x1b\\\x1b]7;file://h/two\x1b\\";
    assert_eq!(last_osc7_path(adjoining), path("/two"));
}

#[test]
fn a_report_inside_another_is_part_of_it() {
    let nested = b"\x1b]7;file://h/\x1b]7;file://h/two\x07";
    assert_eq!(last_osc7_path(nested), Some("/\u{1b}]7;file://h/two".to_string()));
}

#[test]
fn a_chunk_may_report_nothing() {
    assert_eq!(last_osc7_path(b""), None);
    assert_eq!(last_osc7_path(b"plain output\r\n"), None);
    assert_eq!(last_osc7_path(b"\x1b]7;"), None);
    assert_eq!(last_osc7_path(b"\x1b]7;\x07"), None);
    assert_eq!(last_osc7_path(b"\x1b]7;file://h/tmp"), None);
    assert_eq!(last_osc7_path(b"\x1b]8;file://h/tmp\x07"), None);
    assert_eq!(last_osc7_path(b"\x1b]7;file://h/\xff\x07"), None);
}

#[test]
fn what_the_prompt_hook_prints_is_read() {
    for path in ["/", "/home/me/src", "/tmp/with space", "/übung/日本", "/100%"] {
        let report = format!("out\r\n\x1b]7;file://{}{}\x07$ ", "my-host", path);
        assert_eq!(last_osc7_path(report.as_bytes()), Some(path.to_string()));
    }
}
