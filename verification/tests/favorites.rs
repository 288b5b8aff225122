use hud_manager::favorites::{parse_favorites, read_text, render_favorites};

fn names(parts: &[&str]) -> Vec<String> {
    parts.iter().map(|part| part.to_string()).collect()
}

fn sorted(mut names: Vec<String>) -> Vec<String> {
    names.sort();
    names
}

#[test]
fn names_are_written_one_per_line() {
    assert_eq!(render_favorites(&names(&["budhud", "ahud", "m0re"])), "budhud\nahud\nm0re");
    assert_eq!(render_favorites(&names(&["budhud"])), "budhud");
    assert_eq!(render_favorites(&names(&[])), "");
}

#[test]
fn lines_end_with_a_line_feed() {
    let set = parse_favorites("budhud\nahud\n");
    assert_eq!(sorted(set.to_vec()), names(&["ahud", "budhud"]));
}

#[test]
fn the_last_line_may_end_with_the_text() {
    let set = parse_favorites("budhud\nahud");
    assert_eq!(sorted(set.to_vec()), names(&["ahud", "budhud"]));
}

#[test]
fn a_carriage_return_before_a_line_feed_belongs_to_the_line_end() {
    let set = parse_favorites("budhud\r\nahud\r\n");
    assert_eq!(sorted(set.to_vec()), names(&["ahud", "budhud"]));
}

#[test]
fn other_carriage_returns_belong_to_the_name() {
    let set = parse_favorites("bud\rhud\na\r\r\nlast\r");
    assert_eq!(sorted(set.to_vec()), names(&["a\r", "bud\rhud", "last\r"]));
}

#[test]
fn empty_lines_name_nothing() {
    let set = parse_favorites("\n\nbudhud\n\r\n\nahud\n\n");
    assert_eq!(sorted(set.to_vec()), names(&["ahud", "budhud"]));
    assert!(parse_favorites("").is_empty());
    assert!(parse_favorites("\n").is_empty());
    assert!(parse_favorites("\r\n").is_empty());
}

#[test]
fn a_lone_carriage_return_is_a_name() {
    let set = parse_favorites("\r");
    assert_eq!(set.to_vec(), names(&["\r"]));
}

#[test]
fn lines_are_not_trimmed() {
    let set = parse_favorites(" budhud \n\tahud");
    assert!(set.contains(" budhud "));
    assert!(set.contains("\tahud"));
    assert!(!set.contains("budhud"));
    assert_eq!(set.len(), 2);
}

#[test]
fn a_name_listed_twice_is_one_favorite() {
    let set = parse_favorites("budhud\nahud\nbudhud\n");
    assert_eq!(set.len(), 2);
}

#[test]
fn names_may_hold_any_character() {
    let set = parse_favorites("h\u{fc}d \u{2605}\n\u{1f3ae}");
    assert!(set.contains("h\u{fc}d \u{2605}"));
    assert!(set.contains("\u{1f3ae}"));
    assert_eq!(set.len(), 2);
}

#[test]
fn utf8_is_read_as_text() {
    assert_eq!(read_text(b"budhud\nahud"), Some("budhud\nahud".to_string()));
    assert_eq!(read_text("h\u{fc}d".as_bytes()), Some("h\u{fc}d".to_string()));
    assert_eq!(read_text(&[0xe2, 0x98, 0x85]), Some("\u{2605}".to_string()));
    assert_eq!(read_text(b""), Some(String::new()));
}

#[test]
fn other_bytes_are_not_text() {
    assert_eq!(read_text(&[0x62, 0xff, 0x64]), None);
    assert_eq!(read_text(&[0xc3]), None);
    assert_eq!(read_text(&[0xed, 0xa0, 0x80]), None);
    assert_eq!(read_text(&[0xc0, 0xaf]), None);
}

#[test]
fn what_was_written_is_read_back() {
    let written = names(&["m0re", "budhud", "ahud"]);
    let content = render_favorites(&written);
    let text = read_text(content.as_bytes()).unwrap();
    let set = parse_favorites(&text);
    assert_eq!(sorted(set.to_vec()), sorted(written));
}

#[test]
fn the_order_of_writing_does_not_matter() {
    let one = parse_favorites(&render_favorites(&names(&["a", "b", "c"])));
    let other = parse_favorites(&render_favorites(&names(&["c", "a", "b"])));
    assert_eq!(sorted(one.to_vec()), sorted(other.to_vec()));
    assert_eq!(sorted(one.to_vec()), names(&["a", "b", "c"]));
}
