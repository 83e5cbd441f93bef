use hawk::listing::{read_dir_items, render_3col_listing, sort_items, Entry, ScanItem};

fn file(name: &str) -> Entry {
    Entry { name: name.to_string(), is_dir: false }
}

fn dir(name: &str) -> Entry {
    Entry { name: name.to_string(), is_dir: true }
}

fn pairs(items: &[Entry]) -> Vec<(String, bool)> {
    items.iter().map(|e| (e.name.clone(), e.is_dir)).collect()
}

fn names(items: &[Entry]) -> Vec<String> {
    items.iter().map(|e| e.name.clone()).collect()
}

fn found(name: &str, is_dir: Option<bool>) -> ScanItem {
    ScanItem::Found { name: name.to_string(), is_dir }
}

#[test]
fn directories_come_first_then_names_without_case() {
    let mut items = vec![file("zebra"), file("Apple"), dir("src"), file("banana"), dir("Docs")];
    sort_items(&mut items);
    let want = ["Docs", "src", "Apple", "banana", "zebra"];
    assert_eq!(names(&items), want);
    assert!(items[0].is_dir && items[1].is_dir && !items[2].is_dir);
}

#[test]
fn equal_names_stay_in_their_order() {
    let mut items = vec![file("b"), file("README"), file("readme"), file("a"), file("ReadMe")];
    sort_items(&mut items);
    assert_eq!(names(&items), ["a", "b", "README", "readme", "ReadMe"]);
    let mut items = vec![file("ReadMe"), file("readme"), file("README")];
    sort_items(&mut items);
    assert_eq!(names(&items), ["ReadMe", "readme", "README"]);
}

#[test]
fn lower_case_is_that_of_unicode() {
    let mut items = vec![file("Éclair"), file("zoo"), file("ÉA"), file("éb"), file("Zoo2")];
    sort_items(&mut items);
    assert_eq!(names(&items), ["zoo", "Zoo2", "ÉA", "éb", "Éclair"]);
}

#[test]
fn sorting_agrees_with_a_stable_sort_of_std() {
    let mut seed: u32 = 12345;
    for round in 0..60 {
        let mut items: Vec<Entry> = Vec::new();
        for _ in 0..round {
            seed = seed.wrapping_mul(1664525).wrapping_add(1013904223);
            let letters = ["a", "A", "b", "B", "ab", "Ab", "é", "É", "_", ""];
            let name = letters[(seed >> 16) as usize % letters.len()];
            items.push(Entry { name: name.to_string(), is_dir: seed & 0x400 != 0 });
        }
        let mut want = pairs(&items);
        want.sort_by(|a, b| {
            b.1.cmp(&a.1).then_with(|| a.0.to_lowercase().cmp(&b.0.to_lowercase()))
        });
        sort_items(&mut items);
        assert_eq!(pairs(&items), want);
    }
}

#[test]
fn sorting_few_entries() {
    let mut none: Vec<Entry> = Vec::new();
    sort_items(&mut none);
    assert!(none.is_empty());
    let mut one = vec![dir("x")];
    sort_items(&mut one);
    assert_eq!(pairs(&one), vec![("x".to_string(), true)]);
}

#[test]
fn hidden_names_are_left_out_unless_asked_for() {
    let scan = vec![
        found("b", Some(false)),
        found(".git", Some(true)),
        found("a.txt", Some(false)),
        found(".", Some(true)),
        found("", Some(false)),
    ];
    assert_eq!(names(&read_dir_items(&scan, false)), ["b", "a.txt", ""]);
    assert_eq!(names(&read_dir_items(&scan, true)), ["b", ".git", "a.txt", ".", ""]);
}

#[test]
fn what_cannot_be_read_is_left_out() {
    let scan = vec![
        ScanItem::Unreadable,
        found("dangling", None),
        found("kept", Some(true)),
        found(".dangling", None),
    ];
    for show_hidden in [false, true] {
        let items = read_dir_items(&scan, show_hidden);
        assert_eq!(pairs(&items), vec![("kept".to_string(), true)]);
    }
    assert!(read_dir_items(&[], true).is_empty());
}

#[test]
fn an_empty_listing_says_so() {
    assert_eq!(render_3col_listing(&[], 80, 10), "[empty]");
    assert_eq!(render_3col_listing(&[], 0, 0), "[empty]");
}

#[test]
fn three_entries_stand_in_a_line() {
    let items = vec![dir("src"), file("a"), file("b"), file("c")];
    // The mark of a directory has three bytes, and cells are filled up by bytes.
    let text = render_3col_listing(&items, 36, 10);
    assert_eq!(text, format!("▸ src{}{:<12}  b\n  c\n", " ".repeat(5), "  a"));
}

#[test]
fn columns_are_a_third_of_the_width() {
    let items = vec![file("a"), file("b"), file("c")];
    let want = format!("{:<20}{:<20}{}\n", "  a", "  b", "  c");
    assert_eq!(render_3col_listing(&items, 60, 1), want);
    assert_eq!(render_3col_listing(&items, 62, 1), want);
    let least = format!("{:<12}{:<12}{}\n", "  a", "  b", "  c");
    assert_eq!(render_3col_listing(&items, 0, 1), least);
    assert_eq!(render_3col_listing(&items, 38, 1), least);
}

#[test]
fn long_names_are_cut_to_less_than_a_column() {
    let items = vec![file("abcdefghijkl"), file("x")];
    assert_eq!(render_3col_listing(&items, 36, 1), "  abcdefgh…  x\n");
    let items = vec![file("abcdefghi"), file("x")];
    assert_eq!(render_3col_listing(&items, 36, 1), "  abcdefghi   x\n");
    // Seven characters of two bytes fill the column by bytes already.
    let items = vec![file("äöüäöü"), file("x")];
    assert_eq!(render_3col_listing(&items, 36, 1), "  äöüäöü  x\n");
}

#[test]
fn lines_beyond_the_height_are_left_out() {
    let items = vec![file("a"), file("b"), file("c"), file("d")];
    let first = format!("{:<12}{:<12}{}\n", "  a", "  b", "  c");
    assert_eq!(render_3col_listing(&items, 36, 2), format!("{}  d\n", first));
    assert_eq!(render_3col_listing(&items, 36, 1), format!("{}… (truncated)\n", first));
    assert_eq!(render_3col_listing(&items, 36, 0), "… (truncated)\n");
}

#[test]
fn white_space_at_the_end_of_a_line_is_removed() {
    let items = vec![file("a "), file("b\u{3000}")];
    let text = render_3col_listing(&items, 36, 5);
    assert_eq!(text, format!("{:<12}  b\n", "  a "));
}

#[test]
fn lines_fit_the_area() {
    let mut items = Vec::new();
    for n in 0..40 {
        items.push(Entry { name: "é▸x😀".repeat(n), is_dir: n % 2 == 0 });
    }
    for width in [36, 40, 80, 121] {
        let text = render_3col_listing(&items, width, 100);
        assert_eq!(text.lines().count(), 14);
        for line in text.lines() {
            assert!(line.chars().count() <= width);
        }
    }
}

#[test]
fn lines_hold_every_entry() {
    for n in 1..20usize {
        let items: Vec<Entry> = (0..n).map(|i| file(&format!("n{}", i))).collect();
        let text = render_3col_listing(&items, 60, 100);
        assert_eq!(text.lines().count(), (n + 2) / 3);
        assert_eq!(text.split_whitespace().count(), n);
    }
}

#[test]
fn entries_can_be_cloned() {
    let entry = dir("src").clone();
    assert_eq!(entry.name, "src");
    assert!(entry.is_dir);
}
